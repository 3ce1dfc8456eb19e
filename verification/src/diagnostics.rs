//! Diagnostics: error and warning components, gathered in insertion order.
use vstd::prelude::*;
use crate::source::{is_newline, line_end, line_index_of, line_starts_of, SourceFile};
use crate::utils::{decimal, lit, push_decimal, Span};

verus! {

/// How severe a component is.
#[derive(Debug, Clone, Copy, PartialEq, Eq, Structural)]
pub enum ErrorLevel {
    Error,
    Warning,
}

/// One reportable problem: a headline, an optional elaboration, and the place
/// in a source that it is about.
#[derive(Debug, Clone, PartialEq)]
pub struct ErrorComponent {
    pub level: ErrorLevel,
    pub short_message: Vec<u8>,
    pub long_message: Vec<u8>,
    pub source: SourceFile,
    pub highlight: Span,
    pub highlight_message: Option<Vec<u8>>,
}

/// A component as a plain value.
pub struct ErrorComponentView {
    pub level: ErrorLevel,
    pub short_message: Seq<u8>,
    pub long_message: Seq<u8>,
    pub source: SourceFile,
    pub highlight: Span,
    pub highlight_message: Option<Seq<u8>>,
}

impl View for ErrorComponent {
    type V = ErrorComponentView;

    open spec fn view(&self) -> ErrorComponentView {
        ErrorComponentView {
            level: self.level,
            short_message: self.short_message@,
            long_message: self.long_message@,
            source: self.source,
            highlight: self.highlight,
            highlight_message: match self.highlight_message {
                Some(m) => Some(m@),
                None => None,
            },
        }
    }
}

/// A fresh component: an error with a headline and a place, nothing more.
pub open spec fn fresh_component(source: SourceFile, short_message: Seq<u8>, span: Span) -> ErrorComponentView {
    ErrorComponentView {
        level: ErrorLevel::Error,
        short_message,
        long_message: Seq::empty(),
        source,
        highlight: span,
        highlight_message: None,
    }
}

impl ErrorComponent {
    /// An error about `span` of `source`, with a headline.
    #[must_use]
    pub fn new(source: SourceFile, short_message: Vec<u8>, span: Span) -> (r: Self)
        ensures
            r@ == fresh_component(source, short_message@, span),
    {
        Self {
            short_message,
            level: ErrorLevel::Error,
            long_message: Vec::new(),
            source,
            highlight: span,
            highlight_message: None,
        }
    }

    /// Attaches a message to the highlighted region.
    pub fn set_highlight_message(&mut self, message: Vec<u8>) -> (r: &mut Self)
        ensures
            r@ == (ErrorComponentView { highlight_message: Some(message@), ..old(self)@ }),
            *final(self) == *final(r),
    {
        self.highlight_message = Some(message);
        self
    }

    /// Sets the severity.
    pub fn set_level(&mut self, level: ErrorLevel) -> (r: &mut Self)
        ensures
            r@ == (ErrorComponentView { level: level, ..old(self)@ }),
            *final(self) == *final(r),
    {
        self.level = level;
        self
    }

    /// Sets the elaboration.
    pub fn set_long_message(&mut self, message: Vec<u8>) -> (r: &mut Self)
        ensures
            r@ == (ErrorComponentView { long_message: message@, ..old(self)@ }),
            *final(self) == *final(r),
    {
        self.long_message = message;
        self
    }
}

/// The problems of one run, in the order in which they were recorded.
#[derive(Debug, Clone, PartialEq)]
pub struct AggregateError {
    pub components: Vec<ErrorComponent>,
}

impl View for AggregateError {
    type V = Seq<ErrorComponentView>;

    open spec fn view(&self) -> Seq<ErrorComponentView> {
        self.components@.map_values(|c: ErrorComponent| c@)
    }
}

/// Whether one of the components is an error, not a warning.
pub open spec fn any_error(components: Seq<ErrorComponentView>) -> bool {
    exists|i: int| 0 <= i < components.len() && (#[trigger] components[i]).level == ErrorLevel::Error
}

impl AggregateError {
    /// An aggregate without components.
    #[must_use]
    pub fn new() -> (r: Self)
        ensures
            r@ == Seq::<ErrorComponentView>::empty(),
            r.components@ == Seq::<ErrorComponent>::empty(),
    {
        let r = Self { components: Vec::new() };
        assert(r@ =~= Seq::<ErrorComponentView>::empty());
        r
    }

    /// Whether there is no component, whatever its severity.
    #[must_use]
    pub fn is_empty(&self) -> (r: bool)
        ensures
            r == (self@.len() == 0),
    {
        self.components.is_empty()
    }

    /// Whether one of the components is an error.
    #[must_use]
    pub fn has_error(&self) -> (r: bool)
        ensures
            r == any_error(self@),
    {
        let mut i: usize = 0;
        while i < self.components.len()
            invariant
                0 <= i <= self.components.len(),
                forall|j: int| 0 <= j < i ==> (#[trigger] self@[j]).level != ErrorLevel::Error,
            decreases self.components.len() - i,
        {
            if self.components[i].level == ErrorLevel::Error {
                assert(self@[i as int].level == ErrorLevel::Error);
                return true;
            }
            i = i + 1;
        }
        false
    }

    /// Records a component after those already there, and hands it back for
    /// further changes.
    pub fn add_error(&mut self, component: ErrorComponent) -> (r: &mut ErrorComponent)
        ensures
            *r == component,
            final(self).components@ == old(self).components@.push(*final(r)),
    {
        self.components.push(component);
        let last: usize = self.components.len() - 1;
        &mut self.components[last]
    }

    /// Moves the components of `other` behind those of `self`.
    pub fn append(&mut self, other: &mut AggregateError)
        ensures
            final(self).components@ == old(self).components@ + old(other).components@,
            final(self)@ == old(self)@ + old(other)@,
            final(other).components@ == Seq::<ErrorComponent>::empty(),
    {
        self.components.append(&mut other.components);
        assert(final(self)@ =~= old(self)@ + old(other)@);
    }
}

impl Default for AggregateError {
    fn default() -> (r: Self)
        ensures
            r@ == Seq::<ErrorComponentView>::empty(),
    {
        Self::new()
    }
}


/// How diagnostics are rendered.
#[derive(Debug, Clone, Copy, PartialEq, Eq, Structural)]
pub struct RenderContext {
    /// Whether the severity tag is coloured with terminal escapes.
    pub color: bool,
}

impl Default for RenderContext {
    fn default() -> (r: Self)
        ensures
            !r.color,
    {
        RenderContext { color: false }
    }
}

/// The name of a severity.
pub open spec fn level_name(level: ErrorLevel) -> Seq<u8> {
    match level {
        ErrorLevel::Error => lit("error"),
        ErrorLevel::Warning => lit("warning"),
    }
}

/// The terminal escape that colours a severity.
pub open spec fn level_color(level: ErrorLevel) -> Seq<u8> {
    match level {
        ErrorLevel::Error => lit("\x1b[31m"),
        ErrorLevel::Warning => lit("\x1b[33m"),
    }
}

/// The severity tag, between colour escapes where colour is on.
pub open spec fn level_tag(level: ErrorLevel, color: bool) -> Seq<u8> {
    if color {
        level_color(level) + level_name(level) + lit("\x1b[0m")
    } else {
        level_name(level)
    }
}

/// `n` times the byte `b`.
pub open spec fn repeated(b: u8, n: int) -> Seq<u8>
    decreases n,
{
    if n <= 0 {
        Seq::empty()
    } else {
        repeated(b, n - 1).push(b)
    }
}

/// A line without the line feed that ends it.
pub open spec fn trimmed(line: Seq<u8>) -> Seq<u8> {
    if line.len() > 0 && is_newline(line.last()) {
        line.drop_last()
    } else {
        line
    }
}

/// The offset that a component points at: the start of its highlight, or
/// the end of the text where the highlight starts behind it.
pub open spec fn anchor(component: ErrorComponentView) -> int {
    let len = component.source.text_bytes().len() as int;
    if component.highlight.start <= len {
        component.highlight.start as int
    } else {
        len
    }
}

/// The index (from 0) of the line that a component points at.
pub open spec fn anchor_line(component: ErrorComponentView) -> int {
    line_index_of(component.source.text_bytes(), anchor(component))
}

/// The offset at which that line starts.
pub open spec fn anchor_line_start(component: ErrorComponentView) -> int {
    line_starts_of(component.source.text_bytes())[anchor_line(component)] as int
}

/// The text of that line, without its line feed.
pub open spec fn anchor_line_text(component: ErrorComponentView) -> Seq<u8> {
    let text = component.source.text_bytes();
    trimmed(text.subrange(anchor_line_start(component), line_end(text, anchor_line(component))))
}

/// The column of the highlight's start, counted from 1.
pub open spec fn anchor_column(component: ErrorComponentView) -> int {
    anchor(component) - anchor_line_start(component) + 1
}

/// How many columns the marking covers: the highlight as far as it lies on
/// the line, and one column at least.
pub open spec fn marking_width(component: ErrorComponentView) -> int {
    let line_stop = anchor_line_start(component) + anchor_line_text(component).len();
    let stop = if component.highlight.end <= line_stop {
        component.highlight.end as int
    } else {
        line_stop
    };
    if stop > anchor(component) {
        stop - anchor(component)
    } else {
        1
    }
}

/// The note behind the marking, where there is one.
pub open spec fn note_text(note: Option<Seq<u8>>) -> Seq<u8> {
    match note {
        Some(message) => lit(" ") + message,
        None => Seq::empty(),
    }
}

/// The elaboration on a line of its own, where there is one.
pub open spec fn long_text(long_message: Seq<u8>) -> Seq<u8> {
    if long_message.len() > 0 {
        long_message + lit("\n")
    } else {
        Seq::empty()
    }
}

/// The first line: the severity tag and the headline.
pub open spec fn headline_text(level: ErrorLevel, color: bool, short_message: Seq<u8>) -> Seq<u8> {
    level_tag(level, color) + lit(": ") + short_message + lit("\n")
}

/// The second line: the source name, the line and the column, both from 1.
pub open spec fn location_text(name: Seq<u8>, line: int, column: int) -> Seq<u8> {
    lit("  --> ") + name + lit(":") + decimal(line as nat) + lit(":") + decimal(column as nat) + lit("\n")
}

/// The third line: the source line behind a gutter.
pub open spec fn quoted_line_text(line: Seq<u8>) -> Seq<u8> {
    lit("   | ") + line + lit("\n")
}

/// The fourth line: carets under the highlighted columns, then the note.
pub open spec fn marking_text(column: int, width: int, note: Option<Seq<u8>>) -> Seq<u8> {
    lit("   | ") + repeated(0x20, column - 1) + repeated(0x5e, width) + note_text(note) + lit("\n")
}

/// The rendering of one component: the severity and the headline; the source
/// name with line and column; the source line; the marking under the
/// highlighted columns with its note; the elaboration.
pub open spec fn component_text(component: ErrorComponentView, color: bool) -> Seq<u8> {
    headline_text(component.level, color, component.short_message) + location_text(
        component.source.name_bytes(),
        anchor_line(component) + 1,
        anchor_column(component),
    ) + quoted_line_text(anchor_line_text(component)) + marking_text(
        anchor_column(component),
        marking_width(component),
        component.highlight_message,
    ) + long_text(component.long_message)
}

/// The renderings of the components, in insertion order.
pub open spec fn components_text(components: Seq<ErrorComponentView>, color: bool) -> Seq<u8>
    decreases components.len(),
{
    if components.len() == 0 {
        Seq::empty()
    } else {
        components_text(components.drop_last(), color) + component_text(components.last(), color)
    }
}

/// Appends `n` times the byte `b` to `out`.
pub fn push_repeated(out: &mut Vec<u8>, b: u8, n: usize)
    ensures
        final(out)@ == old(out)@ + repeated(b, n as int),
{
    let mut i: usize = 0;
    assert(old(out)@ + repeated(b, 0) =~= old(out)@);
    while i < n
        invariant
            0 <= i <= n,
            out@ == old(out)@ + repeated(b, i as int),
        decreases n - i,
    {
        out.push(b);
        i = i + 1;
        assert(out@ =~= old(out)@ + repeated(b, i as int));
    }
}

/// Appends the severity tag and the headline.
fn write_headline(out: &mut Vec<u8>, level: ErrorLevel, color: bool, short_message: &[u8])
    ensures
        final(out)@ == old(out)@ + headline_text(level, color, short_message@),
{
    if color {
        match level {
            ErrorLevel::Error => out.extend_from_slice("\x1b[31m".as_bytes()),
            ErrorLevel::Warning => out.extend_from_slice("\x1b[33m".as_bytes()),
        }
    }
    match level {
        ErrorLevel::Error => out.extend_from_slice("error".as_bytes()),
        ErrorLevel::Warning => out.extend_from_slice("warning".as_bytes()),
    }
    if color {
        out.extend_from_slice("\x1b[0m".as_bytes());
    }
    assert(out@ =~= old(out)@ + level_tag(level, color));
    out.extend_from_slice(": ".as_bytes());
    out.extend_from_slice(short_message);
    out.extend_from_slice("\n".as_bytes());
    assert(out@ =~= old(out)@ + headline_text(level, color, short_message@));
}

/// Appends the source name with line and column.
fn write_location(out: &mut Vec<u8>, name: &[u8], line: u128, column: u128)
    ensures
        final(out)@ == old(out)@ + location_text(name@, line as int, column as int),
{
    out.extend_from_slice("  --> ".as_bytes());
    out.extend_from_slice(name);
    out.extend_from_slice(":".as_bytes());
    push_decimal(out, line);
    out.extend_from_slice(":".as_bytes());
    push_decimal(out, column);
    out.extend_from_slice("\n".as_bytes());
    assert(out@ =~= old(out)@ + location_text(name@, line as int, column as int));
}

/// Appends the source line behind its gutter.
fn write_quoted_line(out: &mut Vec<u8>, line: &[u8])
    ensures
        final(out)@ == old(out)@ + quoted_line_text(line@),
{
    out.extend_from_slice("   | ".as_bytes());
    out.extend_from_slice(line);
    out.extend_from_slice("\n".as_bytes());
    assert(out@ =~= old(out)@ + quoted_line_text(line@));
}

/// The view of an optional message.
pub open spec fn message_view(message: Option<Vec<u8>>) -> Option<Seq<u8>> {
    match message {
        Some(m) => Some(m@),
        None => None,
    }
}

/// Appends the marking and its note.
fn write_marking(out: &mut Vec<u8>, indent: usize, width: usize, note: &Option<Vec<u8>>)
    ensures
        final(out)@ == old(out)@ + marking_text(indent + 1, width as int, message_view(*note)),
{
    out.extend_from_slice("   | ".as_bytes());
    push_repeated(out, 0x20, indent);
    push_repeated(out, 0x5e, width);
    let ghost marked = out@;
    match note {
        Some(message) => {
            out.extend_from_slice(" ".as_bytes());
            out.extend_from_slice(message.as_slice());
        },
        None => {},
    }
    assert(out@ =~= marked + note_text(message_view(*note)));
    out.extend_from_slice("\n".as_bytes());
    assert(out@ =~= old(out)@ + marking_text(indent + 1, width as int, message_view(*note)));
}

/// Where a component points: the line (from 0), the columns before the
/// marking, the line's text and the width of the marking.
pub struct Placement<'a> {
    pub line: usize,
    pub indent: usize,
    pub shown: &'a [u8],
    pub width: usize,
}

impl ErrorComponent {
    /// Finds the line and the columns that the highlight points at.
    pub fn locate(&self) -> (r: Placement<'_>)
        ensures
            r.line == anchor_line(self@),
            r.indent == anchor_column(self@) - 1,
            r.shown@ == anchor_line_text(self@),
            r.width == marking_width(self@),
    {
        let len: usize = self.source.text().len();
        let offset: usize = if self.highlight.start <= len { self.highlight.start } else { len };
        let full = self.source.line_at(offset);
        let line: usize = full.line - 1;
        let start: usize = full.span.start;
        let shown = if full.text.len() > 0 && full.text[full.text.len() - 1] == 0x0a {
            vstd::slice::slice_subrange(full.text, 0, full.text.len() - 1)
        } else {
            full.text
        };
        assert(shown@ =~= trimmed(full.text@));
        let line_stop: usize = start + shown.len();
        let stop: usize = if self.highlight.end <= line_stop { self.highlight.end } else { line_stop };
        let width: usize = if stop > offset { stop - offset } else { 1 };
        Placement { line, indent: offset - start, shown, width }
    }

    /// Appends the rendering of the component to `out`.
    pub fn render(&self, context: &RenderContext, out: &mut Vec<u8>)
        ensures
            final(out)@ == old(out)@ + component_text(self@, context.color),
    {
        let place = self.locate();
        write_headline(out, self.level, context.color, self.short_message.as_slice());
        write_location(out, self.source.name(), place.line as u128 + 1, place.indent as u128 + 1);
        write_quoted_line(out, place.shown);
        write_marking(out, place.indent, place.width, &self.highlight_message);
        let ghost noted = out@;
        if self.long_message.len() > 0 {
            out.extend_from_slice(self.long_message.as_slice());
            out.extend_from_slice("\n".as_bytes());
        }
        assert(out@ =~= noted + long_text(self@.long_message));
        assert(out@ =~= old(out)@ + component_text(self@, context.color));
    }
}

impl AggregateError {
    /// The rendering of all components, in insertion order.
    pub fn render(&self, context: &RenderContext) -> (r: Vec<u8>)
        ensures
            r@ == components_text(self@, context.color),
    {
        let mut out: Vec<u8> = Vec::new();
        let mut i: usize = 0;
        assert(self@.take(0) =~= Seq::<ErrorComponentView>::empty());
        while i < self.components.len()
            invariant
                0 <= i <= self.components.len(),
                self@.len() == self.components@.len(),
                out@ == components_text(self@.take(i as int), context.color),
            decreases self.components.len() - i,
        {
            assert(self@.take(i + 1).drop_last() =~= self@.take(i as int));
            assert(self@.take(i + 1).last() == self.components@[i as int]@);
            self.components[i].render(context, &mut out);
            i = i + 1;
        }
        assert(self@.take(i as int) =~= self@);
        out
    }
}

} // verus!
