//! The source model: one compilation unit's text and its line index.
use std::rc::Rc;
use vstd::prelude::*;
use vstd::slice::slice_subrange;
use crate::utils::Span;

verus! {

/// The byte that ends a line.
pub open spec fn is_newline(b: u8) -> bool {
    b == 0x0a
}

/// The offsets at which the lines of `text` begin, in rising order: offset 0,
/// and the offset after every line feed.
pub open spec fn line_starts_of(text: Seq<u8>) -> Seq<usize>
    decreases text.len(),
{
    if text.len() == 0 {
        seq![0usize]
    } else if is_newline(text.last()) {
        line_starts_of(text.drop_last()).push(text.len() as usize)
    } else {
        line_starts_of(text.drop_last())
    }
}

/// The line index is never empty, starts at 0, rises strictly and stays
/// within the text.
pub proof fn lemma_line_starts(text: Seq<u8>)
    requires
        text.len() <= usize::MAX,
    ensures
        line_starts_of(text).len() >= 1,
        line_starts_of(text).len() <= text.len() + 1,
        line_starts_of(text)[0] == 0,
        forall|i: int| 0 <= i < line_starts_of(text).len() ==> #[trigger] line_starts_of(text)[i] <= text.len(),
        forall|i: int, j: int|
            0 <= i < j < line_starts_of(text).len() ==> line_starts_of(text)[i] < line_starts_of(text)[j],
    decreases text.len(),
{
    if text.len() > 0 {
        lemma_line_starts(text.drop_last());
    }
}

/// Where line `line` (counted from 0) ends: at the start of the next line, or
/// at the end of the text for the last one.
pub open spec fn line_end(text: Seq<u8>, line: int) -> int {
    if line + 1 < line_starts_of(text).len() {
        line_starts_of(text)[line + 1] as int
    } else {
        text.len() as int
    }
}

/// The index (from 0) of the line that holds `offset`: the last line that
/// starts at or before it.
pub open spec fn line_index_of(text: Seq<u8>, offset: int) -> int
    decreases text.len(),
{
    if text.len() == 0 || offset < 0 {
        0
    } else if is_newline(text.last()) && text.len() <= offset {
        line_starts_of(text).len() - 1
    } else {
        line_index_of(text.drop_last(), offset)
    }
}

/// One line of a source text: its bytes, line terminator included, its span
/// and its line number, counted from 1.
#[derive(Debug, Clone, Copy)]
pub struct TextLine<'s> {
    pub text: &'s [u8],
    pub span: Span,
    pub line: usize,
}

/// Whether `found` is line `line` (counted from 0) of `text`.
pub open spec fn is_line_of(found: TextLine, text: Seq<u8>, line: int) -> bool {
    &&& 0 <= line < line_starts_of(text).len()
    &&& found.span.start == line_starts_of(text)[line]
    &&& found.span.end == line_end(text, line)
    &&& found.span.within(text.len() as int)
    &&& found.text@ == text.subrange(found.span.start as int, found.span.end as int)
    &&& found.line == line + 1
}

/// A finite walk over the lines of a text, from both ends.
#[derive(Debug, Clone, Copy)]
pub struct LineIterator<'s> {
    text: &'s [u8],
    line_starts: &'s [usize],
    first: usize,
    past: usize,
}

impl<'s> LineIterator<'s> {
    /// The index belongs to the text, and the lines left form a range of it.
    #[verifier::type_invariant]
    spec fn ranged(self) -> bool {
        &&& self.line_starts@ == line_starts_of(self.text@)
        &&& self.first <= self.past <= self.line_starts@.len()
    }

    /// The text whose lines are walked.
    pub closed spec fn source_text(&self) -> Seq<u8> {
        self.text@
    }

    /// The index (from 0) of the next line from the front.
    pub closed spec fn front(&self) -> int {
        self.first as int
    }

    /// One past the index of the next line from the back.
    pub closed spec fn back(&self) -> int {
        self.past as int
    }

    /// Line `line`, counted from 0, of the whole text; `None` where the text
    /// has no such line.
    #[must_use]
    pub fn get_line(&self, line: usize) -> (r: Option<TextLine<'s>>)
        ensures
            match r {
                Some(found) => is_line_of(found, self.source_text(), line as int),
                None => line >= line_starts_of(self.source_text()).len(),
            },
    {
        proof {
            use_type_invariant(self);
        }
        if line >= self.line_starts.len() {
            return None;
        }
        let text_len: usize = self.text.len();
        proof {
            lemma_line_starts(self.text@);
        }
        let start: usize = self.line_starts[line];
        let end: usize = if line + 1 < self.line_starts.len() {
            self.line_starts[line + 1]
        } else {
            text_len
        };
        let text = slice_subrange(self.text, start, end);
        Some(TextLine { text, span: Span { start, end }, line: line + 1 })
    }

    /// How many lines are left.
    pub fn len(&self) -> (r: usize)
        ensures
            r == self.back() - self.front(),
            self.back() <= line_starts_of(self.source_text()).len(),
    {
        proof {
            use_type_invariant(self);
        }
        self.past - self.first
    }

    /// The next line from the front.
    pub fn next(&mut self) -> (r: Option<TextLine<'s>>)
        ensures
            final(self).source_text() == old(self).source_text(),
            final(self).back() == old(self).back(),
            match r {
                Some(found) => {
                    &&& old(self).front() < old(self).back()
                    &&& final(self).front() == old(self).front() + 1
                    &&& is_line_of(found, old(self).source_text(), old(self).front())
                },
                None => old(self).front() == old(self).back() && final(self).front() == old(self).front(),
            },
    {
        proof {
            use_type_invariant(&*self);
        }
        if self.first >= self.past {
            return None;
        }
        let line: usize = self.first;
        self.first = self.first + 1;
        self.get_line(line)
    }

    /// The next line from the back.
    pub fn next_back(&mut self) -> (r: Option<TextLine<'s>>)
        ensures
            final(self).source_text() == old(self).source_text(),
            final(self).front() == old(self).front(),
            match r {
                Some(found) => {
                    &&& old(self).front() < old(self).back()
                    &&& final(self).back() == old(self).back() - 1
                    &&& is_line_of(found, old(self).source_text(), old(self).back() - 1)
                },
                None => old(self).front() == old(self).back() && final(self).back() == old(self).back(),
            },
    {
        proof {
            use_type_invariant(&*self);
        }
        if self.first >= self.past {
            return None;
        }
        self.past = self.past - 1;
        self.get_line(self.past)
    }

    /// Skips `n` lines from the front and gives the one after them; where
    /// fewer than `n + 1` are left, none is left afterwards.
    pub fn nth(&mut self, n: usize) -> (r: Option<TextLine<'s>>)
        ensures
            final(self).source_text() == old(self).source_text(),
            final(self).back() == old(self).back(),
            match r {
                Some(found) => {
                    &&& old(self).front() + n < old(self).back()
                    &&& final(self).front() == old(self).front() + n + 1
                    &&& is_line_of(found, old(self).source_text(), old(self).front() + n)
                },
                None => old(self).front() + n >= old(self).back() && final(self).front() == old(self).back(),
            },
    {
        proof {
            use_type_invariant(&*self);
        }
        if n >= self.len() {
            self.first = self.past;
            return None;
        }
        self.first = self.first + n;
        self.next()
    }

    /// Skips `n` lines from the back and gives the one before them; where
    /// fewer than `n + 1` are left, none is left afterwards.
    pub fn nth_back(&mut self, n: usize) -> (r: Option<TextLine<'s>>)
        ensures
            final(self).source_text() == old(self).source_text(),
            match r {
                Some(found) => {
                    &&& old(self).front() + n < old(self).back()
                    &&& final(self).front() == old(self).front()
                    &&& final(self).back() == old(self).back() - n - 1
                    &&& is_line_of(found, old(self).source_text(), old(self).back() - n - 1)
                },
                None => {
                    &&& old(self).front() + n >= old(self).back()
                    &&& final(self).front() == final(self).back()
                },
            },
    {
        proof {
            use_type_invariant(&*self);
        }
        if n >= self.len() {
            self.first = self.past;
            return None;
        }
        self.past = self.past - n;
        self.next_back()
    }
}

/// What a source file owns: its display name, its text and its line index.
#[derive(Debug, PartialEq)]
pub struct SourceData {
    pub name: Vec<u8>,
    pub text: Vec<u8>,
    pub line_starts: Vec<usize>,
}

/// One compilation unit. Clones share the text.
#[derive(Debug, PartialEq)]
pub struct SourceFile {
    inner: Rc<SourceData>,
}

/// `Rc::clone`: the new handle points at the same value as the old one.
#[verifier::external_body]
fn share_data(data: &Rc<SourceData>) -> (r: Rc<SourceData>)
    ensures
        r == *data,
{
    Rc::clone(data)
}

/// Computes the line index of `text`.
pub fn index_lines(text: &Vec<u8>) -> (r: Vec<usize>)
    ensures
        r@ == line_starts_of(text@),
{
    let mut starts: Vec<usize> = Vec::new();
    starts.push(0);
    let mut i: usize = 0;
    assert(text@.take(0) =~= Seq::<u8>::empty());
    while i < text.len()
        invariant
            0 <= i <= text.len(),
            starts@ == line_starts_of(text@.take(i as int)),
        decreases text.len() - i,
    {
        let b: u8 = text[i];
        assert(text@.take(i + 1).drop_last() =~= text@.take(i as int));
        if b == 0x0a {
            starts.push(i + 1);
        }
        i = i + 1;
    }
    assert(text@.take(i as int) =~= text@);
    starts
}

impl SourceFile {
    /// The index is the one of the text.
    #[verifier::type_invariant]
    spec fn indexed(self) -> bool {
        self.inner.line_starts@ == line_starts_of(self.inner.text@)
    }

    /// The display name.
    pub closed spec fn name_bytes(&self) -> Seq<u8> {
        self.inner.name@
    }

    /// The whole text.
    pub closed spec fn text_bytes(&self) -> Seq<u8> {
        self.inner.text@
    }

    /// A source of the given name and text, with its line index.
    pub fn new(name: Vec<u8>, text: Vec<u8>) -> (r: SourceFile)
        ensures
            r.name_bytes() == name@,
            r.text_bytes() == text@,
    {
        let line_starts = index_lines(&text);
        SourceFile { inner: Rc::new(SourceData { name, text, line_starts }) }
    }

    /// The display name.
    pub fn name(&self) -> (r: &[u8])
        ensures
            r@ == self.name_bytes(),
    {
        self.inner.name.as_slice()
    }

    /// The whole text.
    pub fn text(&self) -> (r: &[u8])
        ensures
            r@ == self.text_bytes(),
    {
        self.inner.text.as_slice()
    }

    /// A walk over all lines of the text.
    pub fn lines(&self) -> (r: LineIterator<'_>)
        ensures
            r.source_text() == self.text_bytes(),
            r.front() == 0,
            r.back() == line_starts_of(self.text_bytes()).len(),
    {
        proof {
            use_type_invariant(self);
        }
        LineIterator {
            text: self.inner.text.as_slice(),
            line_starts: self.inner.line_starts.as_slice(),
            first: 0,
            past: self.inner.line_starts.len(),
        }
    }

    /// The line that holds byte `offset`; the last line for an offset behind
    /// the text.
    pub fn line_at(&self, offset: usize) -> (r: TextLine<'_>)
        ensures
            is_line_of(r, self.text_bytes(), line_index_of(self.text_bytes(), offset as int)),
            r.span.start <= offset,
    {
        let line: usize = self.line_index(offset);
        let text_len: usize = self.inner.text.len();
        proof {
            use_type_invariant(self);
            lemma_line_starts(self.inner.text@);
        }
        let count: usize = self.inner.line_starts.len();
        let start: usize = self.inner.line_starts[line];
        let end: usize = if line + 1 < count { self.inner.line_starts[line + 1] } else { text_len };
        let text = slice_subrange(self.inner.text.as_slice(), start, end);
        TextLine { text, span: Span { start, end }, line: line + 1 }
    }

    /// The index (from 0) of the line that holds byte `offset`.
    pub fn line_index(&self, offset: usize) -> (r: usize)
        ensures
            r == line_index_of(self.text_bytes(), offset as int),
            r < line_starts_of(self.text_bytes()).len(),
            line_starts_of(self.text_bytes())[r as int] <= offset,
    {
        let text_len: usize = self.inner.text.len();
        proof {
            use_type_invariant(self);
            lemma_line_starts(self.inner.text@);
            lemma_line_index(self.inner.text@, offset as int);
        }
        let starts = &self.inner.line_starts;
        let mut k: usize = 0;
        while k + 1 < starts.len() && starts[k + 1] <= offset
            invariant
                starts@ == line_starts_of(self.inner.text@),
                0 <= k < starts.len(),
                starts@[k as int] <= offset,
                self.inner.text@.len() <= usize::MAX,
                forall|i: int, j: int| 0 <= i < j < starts@.len() ==> starts@[i] < starts@[j],
            decreases starts.len() - k,
        {
            k = k + 1;
        }
        k
    }
}

/// The line that holds `offset` is the last one that starts at or before it.
pub proof fn lemma_line_index(text: Seq<u8>, offset: int)
    requires
        text.len() <= usize::MAX,
        0 <= offset,
    ensures
        0 <= line_index_of(text, offset) < line_starts_of(text).len(),
        line_starts_of(text)[line_index_of(text, offset)] <= offset,
        line_index_of(text, offset) + 1 < line_starts_of(text).len() ==> line_starts_of(text)[
            line_index_of(text, offset) + 1
        ] > offset,
    decreases text.len(),
{
    lemma_line_starts(text);
    if text.len() > 0 {
        lemma_line_starts(text.drop_last());
        lemma_line_index(text.drop_last(), offset);
    }
}

impl Clone for SourceFile {
    fn clone(&self) -> (r: Self)
        ensures
            r == *self,
    {
        proof {
            use_type_invariant(self);
        }
        SourceFile { inner: share_data(&self.inner) }
    }
}

} // verus!
