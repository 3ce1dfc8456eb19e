//! The lexer: source bytes to spanned tokens and lex errors.
use vstd::prelude::*;
use vstd::slice::slice_subrange;
use crate::literal::{parse_int, parse_int_spec};
use crate::utils::{lit, Span, Spanned, VarInt};

verus! {

/// The smallest lexical unit. An identifier borrows its bytes from the source.
#[derive(Debug, Clone, Copy, PartialEq)]
pub enum Token<'s> {
    Return,
    Void,
    Int,
    IntLit(VarInt),
    Ident(&'s [u8]),
    LParen,
    RParen,
    LBrace,
    RBrace,
    Semicolon,
}

/// A token as a plain value: an identifier stands for its bytes.
pub enum TokenView {
    Return,
    Void,
    Int,
    IntLit(VarInt),
    Ident(Seq<u8>),
    LParen,
    RParen,
    LBrace,
    RBrace,
    Semicolon,
}

impl<'s> View for Token<'s> {
    type V = TokenView;

    open spec fn view(&self) -> TokenView {
        match *self {
            Token::Return => TokenView::Return,
            Token::Void => TokenView::Void,
            Token::Int => TokenView::Int,
            Token::IntLit(v) => TokenView::IntLit(v),
            Token::Ident(name) => TokenView::Ident(name@),
            Token::LParen => TokenView::LParen,
            Token::RParen => TokenView::RParen,
            Token::LBrace => TokenView::LBrace,
            Token::RBrace => TokenView::RBrace,
            Token::Semicolon => TokenView::Semicolon,
        }
    }
}

/// A token with its span.
pub type SToken<'s> = Spanned<Token<'s>>;

/// A piece of text that is no token, by its span.
#[derive(Debug, Clone, Copy, PartialEq, Eq, Structural)]
pub struct LexError {
    pub span: Span,
}

/// The text of a token as it stands in a source.
pub open spec fn token_text(token: TokenView) -> Seq<u8> {
    match token {
        TokenView::Return => lit("return"),
        TokenView::Void => lit("void"),
        TokenView::Int => lit("int"),
        TokenView::IntLit(v) => v.text(),
        TokenView::Ident(name) => name,
        TokenView::LParen => lit("("),
        TokenView::RParen => lit(")"),
        TokenView::LBrace => lit("{"),
        TokenView::RBrace => lit("}"),
        TokenView::Semicolon => lit(";"),
    }
}

/// Whether two byte strings hold the same bytes.
pub fn bytes_eq(a: &[u8], b: &[u8]) -> (r: bool)
    ensures
        r == (a@ == b@),
{
    if a.len() != b.len() {
        return false;
    }
    let mut i: usize = 0;
    while i < a.len()
        invariant
            a.len() == b.len(),
            0 <= i <= a.len(),
            forall|j: int| 0 <= j < i ==> a@[j] == b@[j],
        decreases a.len() - i,
    {
        if a[i] != b[i] {
            return false;
        }
        i = i + 1;
    }
    assert(a@ =~= b@);
    true
}

impl<'s> Token<'s> {
    /// Appends the token's text to `out`.
    pub fn write_text(&self, out: &mut Vec<u8>)
        ensures
            final(out)@ == old(out)@ + token_text(self@),
    {
        match *self {
            Token::Return => out.extend_from_slice("return".as_bytes()),
            Token::Void => out.extend_from_slice("void".as_bytes()),
            Token::Int => out.extend_from_slice("int".as_bytes()),
            Token::IntLit(v) => v.write_text(out),
            Token::Ident(name) => out.extend_from_slice(name),
            Token::LParen => out.extend_from_slice("(".as_bytes()),
            Token::RParen => out.extend_from_slice(")".as_bytes()),
            Token::LBrace => out.extend_from_slice("{".as_bytes()),
            Token::RBrace => out.extend_from_slice("}".as_bytes()),
            Token::Semicolon => out.extend_from_slice(";".as_bytes()),
        }
    }

    /// The token's text.
    pub fn to_text(&self) -> (r: Vec<u8>)
        ensures
            r@ == token_text(self@),
    {
        let mut out: Vec<u8> = Vec::new();
        self.write_text(&mut out);
        assert(out@ =~= token_text(self@));
        out
    }

    /// Whether two tokens are the same token.
    pub fn same(&self, other: &Token<'_>) -> (r: bool)
        ensures
            r == (self@ == other@),
    {
        match (*self, *other) {
            (Token::Return, Token::Return) => true,
            (Token::Void, Token::Void) => true,
            (Token::Int, Token::Int) => true,
            (Token::IntLit(a), Token::IntLit(b)) => a == b,
            (Token::Ident(a), Token::Ident(b)) => bytes_eq(a, b),
            (Token::LParen, Token::LParen) => true,
            (Token::RParen, Token::RParen) => true,
            (Token::LBrace, Token::LBrace) => true,
            (Token::RBrace, Token::RBrace) => true,
            (Token::Semicolon, Token::Semicolon) => true,
            _ => false,
        }
    }
}

/// Space, tab, carriage return and line feed separate tokens.
pub open spec fn is_space(b: u8) -> bool {
    b == 0x20 || b == 0x09 || b == 0x0d || b == 0x0a
}

/// A letter or `_` starts a word.
pub open spec fn is_ident_start(b: u8) -> bool {
    (0x41 <= b <= 0x5a) || (0x61 <= b <= 0x7a) || b == 0x5f
}

/// A decimal digit starts an integer literal.
pub open spec fn is_dec_digit(b: u8) -> bool {
    0x30 <= b <= 0x39
}

/// A letter, a digit or `_` continues a word.
pub open spec fn is_ident_part(b: u8) -> bool {
    is_ident_start(b) || is_dec_digit(b)
}

/// A digit, or a letter from `a` to `f` in either case.
pub open spec fn is_hex_digit(b: u8) -> bool {
    is_dec_digit(b) || (0x41 <= b <= 0x46) || (0x61 <= b <= 0x66)
}

/// A hexadecimal digit or `_` continues an integer literal.
pub open spec fn is_int_part(b: u8) -> bool {
    is_hex_digit(b) || b == 0x5f
}

/// The token of a punctuation byte.
pub open spec fn punct_token(b: u8) -> Option<TokenView> {
    if b == 0x28 {
        Some(TokenView::LParen)
    } else if b == 0x29 {
        Some(TokenView::RParen)
    } else if b == 0x7b {
        Some(TokenView::LBrace)
    } else if b == 0x7d {
        Some(TokenView::RBrace)
    } else if b == 0x3b {
        Some(TokenView::Semicolon)
    } else {
        None
    }
}

/// A byte that starts no token and is no whitespace.
pub open spec fn is_stray(b: u8) -> bool {
    !is_space(b) && !is_ident_start(b) && !is_dec_digit(b) && punct_token(b).is_none()
}

/// The base that the letter after a leading `0` selects: `x` 16, `o` 8, `p` 2.
pub open spec fn radix_of(b: u8) -> Option<u32> {
    if b == 0x78 {
        Some(16u32)
    } else if b == 0x6f {
        Some(8u32)
    } else if b == 0x70 {
        Some(2u32)
    } else {
        None
    }
}

/// The first offset from `pos` on that holds no whitespace.
pub open spec fn space_end(text: Seq<u8>, pos: int) -> int
    decreases text.len() - pos,
{
    if 0 <= pos < text.len() && is_space(text[pos]) {
        space_end(text, pos + 1)
    } else {
        pos
    }
}

/// The first offset from `pos` on that does not continue a word.
pub open spec fn ident_end(text: Seq<u8>, pos: int) -> int
    decreases text.len() - pos,
{
    if 0 <= pos < text.len() && is_ident_part(text[pos]) {
        ident_end(text, pos + 1)
    } else {
        pos
    }
}

/// The first offset from `pos` on that does not continue an integer literal.
pub open spec fn int_end(text: Seq<u8>, pos: int) -> int
    decreases text.len() - pos,
{
    if 0 <= pos < text.len() && is_int_part(text[pos]) {
        int_end(text, pos + 1)
    } else {
        pos
    }
}

/// Whether a radix prefix stands at `pos`: `0`, a radix letter, and a
/// hexadecimal digit.
pub open spec fn has_radix_prefix(text: Seq<u8>, pos: int) -> bool {
    &&& 0 <= pos
    &&& pos + 2 < text.len()
    &&& text[pos] == 0x30
    &&& radix_of(text[pos + 1]).is_some()
    &&& is_hex_digit(text[pos + 2])
}

/// The token that a word is: a keyword where it is one, else an identifier.
pub open spec fn word_token(word: Seq<u8>) -> TokenView {
    if word == lit("return") {
        TokenView::Return
    } else if word == lit("void") {
        TokenView::Void
    } else if word == lit("int") {
        TokenView::Int
    } else {
        TokenView::Ident(word)
    }
}

/// The token that an integer literal is, if its digits read in `base`.
pub open spec fn int_token(base: int, digits: Seq<u8>) -> Option<TokenView> {
    match parse_int_spec(base, digits) {
        Some(v) => Some(TokenView::IntLit(v)),
        None => None,
    }
}

/// One item of the lexer's output: a token, or `None` for a lex error, with
/// the span it covers.
pub struct LexItem {
    pub span: Span,
    pub token: Option<TokenView>,
}

/// Where the item that starts at `pos` ends. `pos` holds no whitespace.
pub open spec fn item_end(text: Seq<u8>, pos: int) -> int {
    if is_ident_start(text[pos]) {
        ident_end(text, pos + 1)
    } else if is_dec_digit(text[pos]) {
        if has_radix_prefix(text, pos) {
            int_end(text, pos + 3)
        } else {
            int_end(text, pos + 1)
        }
    } else {
        pos + 1
    }
}

/// What the item from `pos` to `end` is: the longest word or integer literal
/// that starts there, a punctuation mark, or a lex error of one byte.
pub open spec fn item_token(text: Seq<u8>, pos: int, end: int) -> Option<TokenView> {
    if is_ident_start(text[pos]) {
        Some(word_token(text.subrange(pos, end)))
    } else if is_dec_digit(text[pos]) {
        if has_radix_prefix(text, pos) {
            int_token(radix_of(text[pos + 1]).unwrap() as int, text.subrange(pos + 2, end))
        } else {
            int_token(10, text.subrange(pos, end))
        }
    } else {
        punct_token(text[pos])
    }
}

/// The items of `text` from `pos` on, in order.
pub open spec fn lex_from(text: Seq<u8>, pos: int) -> Seq<LexItem>
    decreases text.len() - pos,
{
    let start = space_end(text, pos);
    let end = item_end(text, start);
    if 0 <= pos <= start < end <= text.len() <= usize::MAX {
        seq![
            LexItem {
                span: Span { start: start as usize, end: end as usize },
                token: item_token(text, start, end),
            },
        ] + lex_from(text, end)
    } else {
        Seq::empty()
    }
}

/// All items of `text`.
pub open spec fn lex_spec(text: Seq<u8>) -> Seq<LexItem> {
    lex_from(text, 0)
}

/// An item of the lexer's output as a plain value.
pub open spec fn item_view(item: Result<SToken, LexError>) -> LexItem {
    match item {
        Ok(token) => LexItem { span: token.span, token: Some(token.inner@) },
        Err(error) => LexItem { span: error.span, token: None },
    }
}

/// The items of a token sequence as plain values.
pub open spec fn items_view(items: Seq<Result<SToken, LexError>>) -> Seq<LexItem> {
    items.map_values(|item: Result<SToken, LexError>| item_view(item))
}

/// Whitespace ends within the text, at the first byte that is none.
pub proof fn lemma_space_end(text: Seq<u8>, pos: int)
    requires
        0 <= pos <= text.len(),
    ensures
        pos <= space_end(text, pos) <= text.len(),
        space_end(text, pos) < text.len() ==> !is_space(text[space_end(text, pos)]),
        forall|i: int| pos <= i < space_end(text, pos) ==> is_space(#[trigger] text[i]),
    decreases text.len() - pos,
{
    if pos < text.len() && is_space(text[pos]) {
        lemma_space_end(text, pos + 1);
    }
}

/// A word ends within the text.
pub proof fn lemma_ident_end(text: Seq<u8>, pos: int)
    requires
        0 <= pos <= text.len(),
    ensures
        pos <= ident_end(text, pos) <= text.len(),
    decreases text.len() - pos,
{
    if pos < text.len() && is_ident_part(text[pos]) {
        lemma_ident_end(text, pos + 1);
    }
}

/// An integer literal ends within the text.
pub proof fn lemma_int_end(text: Seq<u8>, pos: int)
    requires
        0 <= pos <= text.len(),
    ensures
        pos <= int_end(text, pos) <= text.len(),
    decreases text.len() - pos,
{
    if pos < text.len() && is_int_part(text[pos]) {
        lemma_int_end(text, pos + 1);
    }
}

/// Every item covers at least one byte and ends within the text.
pub proof fn lemma_item_end(text: Seq<u8>, pos: int)
    requires
        0 <= pos < text.len(),
    ensures
        pos < item_end(text, pos) <= text.len(),
{
    lemma_ident_end(text, pos + 1);
    lemma_int_end(text, pos + 1);
    if pos + 3 <= text.len() {
        lemma_int_end(text, pos + 3);
    }
}

/// Whether a byte is whitespace.
pub fn byte_is_space(b: u8) -> (r: bool)
    ensures
        r == is_space(b),
{
    b == 0x20 || b == 0x09 || b == 0x0d || b == 0x0a
}

/// Whether a byte starts a word.
pub fn byte_is_ident_start(b: u8) -> (r: bool)
    ensures
        r == is_ident_start(b),
{
    (0x41 <= b && b <= 0x5a) || (0x61 <= b && b <= 0x7a) || b == 0x5f
}

/// Whether a byte is a decimal digit.
pub fn byte_is_dec_digit(b: u8) -> (r: bool)
    ensures
        r == is_dec_digit(b),
{
    0x30 <= b && b <= 0x39
}

/// Whether a byte is a hexadecimal digit.
pub fn byte_is_hex_digit(b: u8) -> (r: bool)
    ensures
        r == is_hex_digit(b),
{
    byte_is_dec_digit(b) || (0x41 <= b && b <= 0x46) || (0x61 <= b && b <= 0x66)
}

/// The base that a radix letter selects.
pub fn radix_for(b: u8) -> (r: Option<u32>)
    ensures
        r == radix_of(b),
{
    if b == 0x78 {
        Some(16)
    } else if b == 0x6f {
        Some(8)
    } else if b == 0x70 {
        Some(2)
    } else {
        None
    }
}

/// A lexer over one text: it hands out the items one by one.
pub struct Lexer<'s> {
    text: &'s [u8],
    pos: usize,
}

impl<'s> Lexer<'s> {
    /// The text under the lexer.
    pub closed spec fn source_text(&self) -> Seq<u8> {
        self.text@
    }

    /// The offset from which the next item is looked for.
    pub closed spec fn offset(&self) -> int {
        self.pos as int
    }

    /// The offset lies within the text.
    #[verifier::type_invariant]
    spec fn placed(self) -> bool {
        self.pos <= self.text@.len()
    }

    /// A lexer at the start of `text`.
    pub fn new(text: &'s [u8]) -> (r: Self)
        ensures
            r.source_text() == text@,
            r.offset() == 0,
    {
        Lexer { text, pos: 0 }
    }

    fn skip_spaces(&mut self)
        ensures
            final(self).text == old(self).text,
            final(self).pos == space_end(old(self).text@, old(self).pos as int),
    {
        proof {
            use_type_invariant(&*self);
        }
        let text = self.text;
        let mut p: usize = self.pos;
        while p < text.len() && byte_is_space(text[p])
            invariant
                p <= text.len(),
                space_end(text@, p as int) == space_end(text@, self.pos as int),
            decreases text.len() - p,
        {
            p = p + 1;
        }
        self.pos = p;
    }

    fn word_end(&self, from: usize) -> (r: usize)
        requires
            from <= self.text@.len(),
        ensures
            r == ident_end(self.text@, from as int),
            from <= r <= self.text@.len(),
    {
        let text = self.text;
        let mut p: usize = from;
        while p < text.len() && (byte_is_ident_start(text[p]) || byte_is_dec_digit(text[p]))
            invariant
                from <= p <= text.len(),
                ident_end(text@, p as int) == ident_end(text@, from as int),
            decreases text.len() - p,
        {
            p = p + 1;
        }
        p
    }

    fn number_end(&self, from: usize) -> (r: usize)
        requires
            from <= self.text@.len(),
        ensures
            r == int_end(self.text@, from as int),
            from <= r <= self.text@.len(),
    {
        let text = self.text;
        let mut p: usize = from;
        while p < text.len() && (byte_is_hex_digit(text[p]) || text[p] == 0x5f)
            invariant
                from <= p <= text.len(),
                int_end(text@, p as int) == int_end(text@, from as int),
            decreases text.len() - p,
        {
            p = p + 1;
        }
        p
    }

    /// The next item, or `None` where only whitespace is left. The items that
    /// remain are those of the text from the new offset on.
    pub fn next(&mut self) -> (r: Option<Result<SToken<'s>, LexError>>)
        ensures
            final(self).source_text() == old(self).source_text(),
            match r {
                Some(item) => lex_from(old(self).source_text(), old(self).offset()) == seq![
                    item_view(item),
                ] + lex_from(old(self).source_text(), final(self).offset()),
                None => lex_from(old(self).source_text(), old(self).offset()) == Seq::<LexItem>::empty(),
            },
            r.is_some() ==> old(self).offset() < final(self).offset(),
            final(self).offset() <= old(self).source_text().len(),
    {
        proof {
            use_type_invariant(&*self);
        }
        let ghost before = self.pos as int;
        self.skip_spaces();
        let text = self.text;
        let start: usize = self.pos;
        proof {
            lemma_space_end(text@, before);
        }
        if start >= text.len() {
            return None;
        }
        proof {
            lemma_item_end(text@, start as int);
        }
        let first: u8 = text[start];
        if byte_is_ident_start(first) {
            let end = self.word_end(start + 1);
            let word = slice_subrange(text, start, end);
            let token = if bytes_eq(word, "return".as_bytes()) {
                Token::Return
            } else if bytes_eq(word, "void".as_bytes()) {
                Token::Void
            } else if bytes_eq(word, "int".as_bytes()) {
                Token::Int
            } else {
                Token::Ident(word)
            };
            self.pos = end;
            Some(Ok(Spanned { inner: token, span: Span { start, end } }))
        } else if byte_is_dec_digit(first) {
            let prefixed: bool = first == 0x30 && text.len() - start > 2 && radix_for(
                text[start + 1],
            ).is_some() && byte_is_hex_digit(text[start + 2]);
            let (end, parsed) = if prefixed {
                let end = self.number_end(start + 3);
                let base: u32 = radix_for(text[start + 1]).unwrap();
                (end, parse_int(base, slice_subrange(text, start + 2, end)))
            } else {
                let end = self.number_end(start + 1);
                (end, parse_int(10, slice_subrange(text, start, end)))
            };
            self.pos = end;
            match parsed {
                Some(v) => Some(Ok(Spanned { inner: Token::IntLit(v), span: Span { start, end } })),
                None => Some(Err(LexError { span: Span { start, end } })),
            }
        } else {
            let end: usize = start + 1;
            self.pos = end;
            let span = Span { start, end };
            if first == 0x28 {
                Some(Ok(Spanned { inner: Token::LParen, span }))
            } else if first == 0x29 {
                Some(Ok(Spanned { inner: Token::RParen, span }))
            } else if first == 0x7b {
                Some(Ok(Spanned { inner: Token::LBrace, span }))
            } else if first == 0x7d {
                Some(Ok(Spanned { inner: Token::RBrace, span }))
            } else if first == 0x3b {
                Some(Ok(Spanned { inner: Token::Semicolon, span }))
            } else {
                Some(Err(LexError { span }))
            }
        }
    }
}

/// Lexes a whole text: every token and every lex error, in source order.
pub fn lex<'s>(text: &'s [u8]) -> (r: Vec<Result<SToken<'s>, LexError>>)
    ensures
        items_view(r@) == lex_spec(text@),
{
    let mut lexer = Lexer::new(text);
    let mut items: Vec<Result<SToken<'s>, LexError>> = Vec::new();
    loop
        invariant
            lexer.source_text() == text@,
            lex_spec(text@) == items_view(items@) + lex_from(text@, lexer.offset()),
        decreases text@.len() - lexer.offset(),
    {
        let ghost before = items@;
        match lexer.next() {
            Some(item) => {
                items.push(item);
                assert(items_view(items@) =~= items_view(before) + seq![item_view(item)]);
            },
            None => {
                assert(items_view(items@) + Seq::<LexItem>::empty() =~= items_view(items@));
                return items;
            },
        }
    }
}

/// Every item covers at least one byte of the text, and the items follow
/// each other in source order without overlap.
pub proof fn lemma_lex_spans(text: Seq<u8>, pos: int)
    requires
        0 <= pos <= text.len(),
    ensures
        forall|i: int|
            0 <= i < lex_from(text, pos).len() ==> pos <= (#[trigger] lex_from(text, pos)[i]).span.start
                < lex_from(text, pos)[i].span.end && lex_from(text, pos)[i].span.within(text.len() as int),
        forall|i: int, j: int|
            0 <= i < j < lex_from(text, pos).len() ==> (#[trigger] lex_from(text, pos)[i]).span.end <= (
            #[trigger] lex_from(text, pos)[j]).span.start,
    decreases text.len() - pos,
{
    let items = lex_from(text, pos);
    let start = space_end(text, pos);
    let end = item_end(text, start);
    lemma_space_end(text, pos);
    if start < text.len() && text.len() <= usize::MAX {
        lemma_item_end(text, start);
        lemma_lex_spans(text, end);
        let rest = lex_from(text, end);
        assert forall|i: int| 0 <= i < items.len() implies pos <= (#[trigger] items[i]).span.start
            < items[i].span.end && items[i].span.within(text.len() as int) by {
            if i > 0 {
                assert(items[i] == rest[i - 1]);
            }
        }
        assert forall|i: int, j: int| 0 <= i < j < items.len() implies (#[trigger] items[i]).span.end <= (
        #[trigger] items[j]).span.start by {
            assert(items[j] == rest[j - 1]);
            if i > 0 {
                assert(items[i] == rest[i - 1]);
            }
        }
    }
}

/// A text of whitespace alone has no items: no token and no lex error.
pub proof fn lemma_whitespace_is_empty(text: Seq<u8>)
    requires
        forall|i: int| 0 <= i < text.len() ==> is_space(#[trigger] text[i]),
    ensures
        lex_spec(text) == Seq::<LexItem>::empty(),
{
    lemma_space_end(text, 0);
}

/// A stray byte gives one lex error that spans that byte alone, and the items
/// after it are those of the rest of the text. Whitespace may stand before it.
pub proof fn lemma_stray_byte(text: Seq<u8>, pos: int, at: int)
    requires
        0 <= pos <= at < text.len() <= usize::MAX,
        forall|i: int| pos <= i < at ==> is_space(#[trigger] text[i]),
        is_stray(text[at]),
    ensures
        lex_from(text, pos) == seq![
            LexItem { span: Span { start: at as usize, end: (at + 1) as usize }, token: None },
        ] + lex_from(text, at + 1),
{
    lemma_space_end(text, pos);
    let start = space_end(text, pos);
    if start < at {
        assert(is_space(text[start]));
    }
}

/// A text of one stray byte lexes to exactly one lex error over that byte.
pub proof fn lemma_single_stray_byte(text: Seq<u8>)
    requires
        text.len() == 1,
        is_stray(text[0]),
    ensures
        lex_spec(text) == seq![LexItem { span: Span { start: 0, end: 1 }, token: None }],
{
    lemma_stray_byte(text, 0, 0);
    assert(lex_from(text, 1) =~= Seq::<LexItem>::empty());
}

} // verus!
