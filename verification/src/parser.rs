//! The parser: tokens to a syntax tree, with diagnostics and recovery.
use std::collections::VecDeque;
use vstd::prelude::*;
use crate::ast::{Block, Decl, DeclView, Expr, Function, FunctionView, LiteralExpression, Program, Stmt};
use crate::diagnostics::{fresh_component, AggregateError, ErrorComponent, ErrorComponentView};
use crate::lexer::{token_text, SToken, Token, TokenView};
use crate::source::SourceFile;
use crate::utils::{lit, Span, Spanned, VarInt};

verus! {

/// What one parsing step gives: its value, or `None` where it failed; the
/// tokens it left; and the diagnostics it recorded, in order.
pub struct Step<T> {
    pub value: Option<T>,
    pub rest: Seq<Spanned<TokenView>>,
    pub errors: Seq<ErrorComponentView>,
}

/// How a wanted token is named in a diagnostic: its text between backticks.
pub open spec fn quoted(kind: TokenView) -> Seq<u8> {
    lit("`") + token_text(kind) + lit("`")
}

/// The place that a failed expectation points at: the token found, or the
/// empty span at the end of the text where the tokens ran out.
pub open spec fn found_span(source: SourceFile, toks: Seq<Spanned<TokenView>>) -> Span {
    if toks.len() > 0 {
        toks[0].span
    } else {
        Span { start: source.text_bytes().len() as usize, end: source.text_bytes().len() as usize }
    }
}

/// The note on the highlighted place: what stands there.
pub open spec fn found_note(toks: Seq<Spanned<TokenView>>) -> Seq<u8> {
    if toks.len() > 0 {
        lit("found ") + quoted(toks[0].inner)
    } else {
        lit("found end of input")
    }
}

/// The diagnostic of a failed expectation: the headline names what was
/// wanted and the context; the highlight is what was found instead.
pub open spec fn expectation_error(
    source: SourceFile,
    wanted: Seq<u8>,
    context: Seq<u8>,
    toks: Seq<Spanned<TokenView>>,
) -> ErrorComponentView {
    ErrorComponentView {
        highlight_message: Some(found_note(toks)),
        ..fresh_component(source, lit("Expected ") + wanted + context, found_span(source, toks))
    }
}

/// Expecting a token: where the next token is the wanted one it is taken;
/// else nothing is taken and one diagnostic is recorded.
pub open spec fn expect_spec(
    source: SourceFile,
    toks: Seq<Spanned<TokenView>>,
    kind: TokenView,
    context: Seq<u8>,
) -> Step<Spanned<TokenView>> {
    if toks.len() > 0 && toks[0].inner == kind {
        Step { value: Some(toks[0]), rest: toks.skip(1), errors: Seq::empty() }
    } else {
        Step {
            value: None,
            rest: toks,
            errors: seq![expectation_error(source, quoted(kind), context, toks)],
        }
    }
}

/// Expecting an identifier: as for a token; the value is the name.
pub open spec fn expect_ident_spec(source: SourceFile, toks: Seq<Spanned<TokenView>>, context: Seq<u8>) -> Step<Seq<u8>> {
    if toks.len() > 0 && toks[0].inner is Ident {
        Step { value: Some(toks[0].inner->Ident_0), rest: toks.skip(1), errors: Seq::empty() }
    } else {
        Step {
            value: None,
            rest: toks,
            errors: seq![expectation_error(source, lit("identifier"), context, toks)],
        }
    }
}

/// Tokens as plain values.
pub open spec fn tokens_view(tokens: Seq<SToken>) -> Seq<Spanned<TokenView>> {
    tokens.map_values(|t: SToken| t@)
}

/// The view of an optional token.
pub open spec fn token_view(token: Option<SToken>) -> Option<Spanned<TokenView>> {
    match token {
        Some(t) => Some(t@),
        None => None,
    }
}

/// A parser over the tokens of one source. Tokens that were put back are
/// handed out again before the others.
pub struct Parser<'s> {
    tokens: VecDeque<SToken<'s>>,
    source: SourceFile,
    peeked: VecDeque<SToken<'s>>,
    lexer_errors: AggregateError,
    errors: AggregateError,
}

impl<'s> Parser<'s> {
    /// The tokens still to come: those put back, then those not yet taken.
    pub closed spec fn remaining(&self) -> Seq<Spanned<TokenView>> {
        tokens_view(self.peeked@ + self.tokens@)
    }

    /// The diagnostics that parsing has recorded so far.
    pub closed spec fn recorded(&self) -> Seq<ErrorComponentView> {
        self.errors@
    }

    /// The diagnostics carried over from lexing.
    pub closed spec fn carried(&self) -> Seq<ErrorComponentView> {
        self.lexer_errors@
    }

    /// The source that the tokens come from.
    pub closed spec fn source_file(&self) -> SourceFile {
        self.source
    }

    /// Whether `self` differs from `before` at most in its tokens and in the
    /// diagnostics of parsing.
    pub open spec fn follows(&self, before: &Self) -> bool {
        &&& self.source_file() == before.source_file()
        &&& self.carried() == before.carried()
    }

    /// Whether `self` stands where `before` stood after `step`.
    pub open spec fn took<T>(&self, before: &Self, step: Step<T>) -> bool {
        &&& self.follows(before)
        &&& self.remaining() == step.rest
        &&& self.recorded() == before.recorded() + step.errors
    }

    /// A parser at the first of `tokens`, with the diagnostics of lexing.
    pub fn new(source: SourceFile, tokens: Vec<SToken<'s>>, lexer_errors: AggregateError) -> (r: Self)
        ensures
            r.source_file() == source,
            r.remaining() == tokens_view(tokens@),
            r.carried() == lexer_errors@,
            r.recorded() == Seq::<ErrorComponentView>::empty(),
    {
        let mut queue: VecDeque<SToken<'s>> = VecDeque::new();
        let mut i: usize = 0;
        while i < tokens.len()
            invariant
                0 <= i <= tokens.len(),
                queue@ == tokens@.take(i as int),
            decreases tokens.len() - i,
        {
            queue.push_back(tokens[i]);
            assert(queue@ =~= tokens@.take(i + 1));
            i = i + 1;
        }
        assert(tokens@.take(i as int) =~= tokens@);
        let r = Parser {
            tokens: queue,
            source,
            peeked: VecDeque::new(),
            lexer_errors,
            errors: AggregateError::new(),
        };
        assert(r.remaining() =~= tokens_view(tokens@));
        r
    }

    /// Takes the next token; `None` at the end.
    pub fn advance(&mut self) -> (r: Option<SToken<'s>>)
        ensures
            final(self).follows(old(self)),
            final(self).recorded() == old(self).recorded(),
            match r {
                Some(token) => {
                    &&& old(self).remaining().len() > 0
                    &&& token@ == old(self).remaining()[0]
                    &&& final(self).remaining() == old(self).remaining().skip(1)
                },
                None => old(self).remaining().len() == 0 && final(self).remaining() == old(self).remaining(),
            },
    {
        match self.peeked.pop_front() {
            Some(token) => {
                assert(self.remaining() =~= old(self).remaining().skip(1));
                Some(token)
            },
            None => match self.tokens.pop_front() {
                Some(token) => {
                    assert(self.remaining() =~= old(self).remaining().skip(1));
                    Some(token)
                },
                None => None,
            },
        }
    }

    /// Puts a token in front of those still to come.
    pub fn put_back(&mut self, token: SToken<'s>)
        ensures
            final(self).follows(old(self)),
            final(self).recorded() == old(self).recorded(),
            final(self).remaining() == seq![token@] + old(self).remaining(),
    {
        self.peeked.push_front(token);
        assert(self.remaining() =~= seq![token@] + old(self).remaining());
    }

    /// The next token, left in place.
    pub fn peek_next(&self) -> (r: Option<SToken<'s>>)
        ensures
            match r {
                Some(token) => self.remaining().len() > 0 && token@ == self.remaining()[0],
                None => self.remaining().len() == 0,
            },
    {
        if self.peeked.len() > 0 {
            Some(self.peeked[0])
        } else if self.tokens.len() > 0 {
            Some(self.tokens[0])
        } else {
            None
        }
    }

    /// Takes the next token where it is `kind`, and says whether it did.
    pub fn consume_if_eq(&mut self, kind: &Token<'_>) -> (r: bool)
        ensures
            final(self).follows(old(self)),
            final(self).recorded() == old(self).recorded(),
            r == (old(self).remaining().len() > 0 && old(self).remaining()[0].inner == kind@),
            final(self).remaining() == if r {
                old(self).remaining().skip(1)
            } else {
                old(self).remaining()
            },
    {
        match self.peek_next() {
            Some(token) => {
                if token.inner.same(kind) {
                    let _ = self.advance();
                    true
                } else {
                    false
                }
            },
            None => false,
        }
    }

    /// Records the diagnostic of a failed expectation.
    fn mismatch(&mut self, wanted: Vec<u8>, context: &[u8])
        ensures
            final(self).follows(old(self)),
            final(self).remaining() == old(self).remaining(),
            final(self).recorded() == old(self).recorded() + seq![
                expectation_error(old(self).source_file(), wanted@, context@, old(self).remaining()),
            ],
    {
        let mut message: Vec<u8> = Vec::new();
        message.extend_from_slice("Expected ".as_bytes());
        message.extend_from_slice(wanted.as_slice());
        message.extend_from_slice(context);
        let mut note: Vec<u8> = Vec::new();
        let span = match self.peek_next() {
            Some(token) => {
                note.extend_from_slice("found ".as_bytes());
                note.extend_from_slice("`".as_bytes());
                token.inner.write_text(&mut note);
                note.extend_from_slice("`".as_bytes());
                token.span
            },
            None => {
                note.extend_from_slice("found end of input".as_bytes());
                let end: usize = self.source.text().len();
                Span { start: end, end }
            },
        };
        let mut component = ErrorComponent::new(self.source.clone(), message, span);
        component.highlight_message = Some(note);
        let ghost want = expectation_error(
            old(self).source_file(),
            wanted@,
            context@,
            old(self).remaining(),
        );
        assert(component.short_message@ =~= want.short_message);
        assert(note@ =~= want.highlight_message.unwrap());
        assert(component@ == want);
        self.errors.components.push(component);
        assert(self.recorded() =~= old(self).recorded() + seq![want]);
    }

    /// Takes the next token where it is `kind`; else records a diagnostic
    /// that names `kind` and `context`, and takes nothing.
    pub fn expect(&mut self, kind: &Token<'_>, context: &[u8]) -> (r: Option<SToken<'s>>)
        ensures
            final(self).took(old(self), expect_spec(old(self).source_file(), old(self).remaining(), kind@, context@)),
            token_view(r) == expect_spec(old(self).source_file(), old(self).remaining(), kind@, context@).value,
    {
        match self.peek_next() {
            Some(token) => {
                if token.inner.same(kind) {
                    let _ = self.advance();
                    assert(self.recorded() + Seq::<ErrorComponentView>::empty() =~= self.recorded());
                    return Some(token);
                }
            },
            None => {},
        }
        let mut wanted: Vec<u8> = Vec::new();
        wanted.extend_from_slice("`".as_bytes());
        kind.write_text(&mut wanted);
        wanted.extend_from_slice("`".as_bytes());
        assert(wanted@ =~= quoted(kind@));
        self.mismatch(wanted, context);
        None
    }

    /// Takes the next token where it is an identifier, and gives its name;
    /// else records a diagnostic and takes nothing.
    pub fn expect_ident(&mut self, context: &[u8]) -> (r: Option<&'s [u8]>)
        ensures
            final(self).took(old(self), expect_ident_spec(old(self).source_file(), old(self).remaining(), context@)),
            match r {
                Some(name) => expect_ident_spec(
                    old(self).source_file(),
                    old(self).remaining(),
                    context@,
                ).value == Some(name@),
                None => expect_ident_spec(old(self).source_file(), old(self).remaining(), context@).value.is_none(),
            },
    {
        match self.peek_next() {
            Some(token) => {
                if let Token::Ident(name) = token.inner {
                    let _ = self.advance();
                    assert(self.recorded() + Seq::<ErrorComponentView>::empty() =~= self.recorded());
                    return Some(name);
                }
            },
            None => {},
        }
        let mut wanted: Vec<u8> = Vec::new();
        wanted.extend_from_slice("identifier".as_bytes());
        assert(wanted@ =~= lit("identifier"));
        self.mismatch(wanted, context);
        None
    }
}


/// A step that failed: no value.
pub open spec fn failed<T>(rest: Seq<Spanned<TokenView>>, errors: Seq<ErrorComponentView>) -> Step<T> {
    Step { value: None, rest, errors }
}

/// A statement: `return`, an integer literal or nothing, `;`.
pub open spec fn parse_stmt_spec(source: SourceFile, toks: Seq<Spanned<TokenView>>) -> Step<Stmt> {
    let a = expect_spec(source, toks, TokenView::Return, lit(" as the sole statement"));
    let literal = a.rest.len() > 0 && a.rest[0].inner is IntLit;
    let value = if literal {
        Some(Expr::Lit(LiteralExpression::Int(a.rest[0].inner->IntLit_0)))
    } else {
        None
    };
    let after = if literal { a.rest.skip(1) } else { a.rest };
    let b = expect_spec(source, after, TokenView::Semicolon, lit(" to terminate return"));
    if a.value.is_none() {
        failed(a.rest, a.errors)
    } else if b.value.is_none() {
        failed(b.rest, a.errors + b.errors)
    } else {
        Step { value: Some(Stmt::Return(value)), rest: b.rest, errors: a.errors + b.errors }
    }
}

/// Statements up to the closing brace, which is taken. The first statement
/// that fails ends the step.
pub open spec fn parse_stmts_spec(source: SourceFile, toks: Seq<Spanned<TokenView>>) -> Step<Seq<Stmt>>
    decreases toks.len(),
{
    if toks.len() > 0 && toks[0].inner == TokenView::RBrace {
        Step { value: Some(Seq::empty()), rest: toks.skip(1), errors: Seq::empty() }
    } else {
        let first = parse_stmt_spec(source, toks);
        if first.value.is_none() || first.rest.len() >= toks.len() {
            failed(first.rest, first.errors)
        } else {
            let more = parse_stmts_spec(source, first.rest);
            Step {
                value: match more.value {
                    Some(stmts) => Some(seq![first.value.unwrap()] + stmts),
                    None => None,
                },
                rest: more.rest,
                errors: first.errors + more.errors,
            }
        }
    }
}

/// A block: `{`, then statements up to `}`.
pub open spec fn parse_block_spec(source: SourceFile, toks: Seq<Spanned<TokenView>>) -> Step<Seq<Stmt>> {
    let a = expect_spec(source, toks, TokenView::LBrace, lit(" to start function body"));
    let b = parse_stmts_spec(source, a.rest);
    if a.value.is_none() {
        failed(a.rest, a.errors)
    } else {
        Step { value: b.value, rest: b.rest, errors: a.errors + b.errors }
    }
}

/// A function: `int`, a name, `(`, `void`, `)`, a block.
pub open spec fn parse_function_spec(source: SourceFile, toks: Seq<Spanned<TokenView>>) -> Step<FunctionView> {
    let a = expect_spec(source, toks, TokenView::Int, lit(" to start function declaration"));
    let b = expect_ident_spec(source, a.rest, lit(" after int type for function declaration"));
    let c = expect_spec(source, b.rest, TokenView::LParen, lit(" to start function parameter list"));
    let d = expect_spec(source, c.rest, TokenView::Void, lit(" in function parameter list"));
    let e = expect_spec(source, d.rest, TokenView::RParen, lit(" to end function parameter list"));
    let f = parse_block_spec(source, e.rest);
    if a.value.is_none() {
        failed(a.rest, a.errors)
    } else if b.value.is_none() {
        failed(b.rest, a.errors + b.errors)
    } else if c.value.is_none() {
        failed(c.rest, a.errors + b.errors + c.errors)
    } else if d.value.is_none() {
        failed(d.rest, a.errors + b.errors + c.errors + d.errors)
    } else if e.value.is_none() {
        failed(e.rest, a.errors + b.errors + c.errors + d.errors + e.errors)
    } else {
        Step {
            value: match f.value {
                Some(body) => Some(FunctionView { name: b.value.unwrap(), body }),
                None => None,
            },
            rest: f.rest,
            errors: a.errors + b.errors + c.errors + d.errors + e.errors + f.errors,
        }
    }
}

/// A declaration: a function.
pub open spec fn parse_decl_spec(source: SourceFile, toks: Seq<Spanned<TokenView>>) -> Step<DeclView> {
    let f = parse_function_spec(source, toks);
    Step {
        value: match f.value {
            Some(function) => Some(DeclView::Fun(function)),
            None => None,
        },
        rest: f.rest,
        errors: f.errors,
    }
}

/// A keyword before which parsing may resume.
pub open spec fn starts_construct(token: TokenView) -> bool {
    token is Int || token is Return
}

/// The first index from `i` on at which parsing may resume: behind a `;`,
/// before `int` or `return`, or at the end.
pub open spec fn sync_end(toks: Seq<Spanned<TokenView>>, i: int) -> int
    decreases toks.len() - i,
{
    if i < 1 || i >= toks.len() {
        i
    } else if toks[i - 1].inner is Semicolon || starts_construct(toks[i].inner) {
        i
    } else {
        sync_end(toks, i + 1)
    }
}

/// How many tokens synchronization skips: always the first, then up to the
/// first place at which parsing may resume.
pub open spec fn sync_point(toks: Seq<Spanned<TokenView>>) -> int {
    if toks.len() == 0 {
        0
    } else {
        sync_end(toks, 1)
    }
}

/// Synchronization skips at least one token where there is one, and never
/// more than there are.
pub proof fn lemma_sync_end(toks: Seq<Spanned<TokenView>>, i: int)
    requires
        1 <= i <= toks.len(),
    ensures
        i <= sync_end(toks, i) <= toks.len(),
    decreases toks.len() - i,
{
    if i < toks.len() && !(toks[i - 1].inner is Semicolon || starts_construct(toks[i].inner)) {
        lemma_sync_end(toks, i + 1);
    }
}

/// What parsing a whole token sequence gives.
pub struct Outcome {
    pub declarations: Seq<DeclView>,
    pub errors: Seq<ErrorComponentView>,
}

/// A program: declarations until the tokens run out. A declaration that
/// fails is left out, and parsing resumes after synchronization.
pub open spec fn parse_spec(source: SourceFile, toks: Seq<Spanned<TokenView>>) -> Outcome
    decreases toks.len(),
{
    if toks.len() == 0 {
        Outcome { declarations: Seq::empty(), errors: Seq::empty() }
    } else {
        let first = parse_decl_spec(source, toks);
        let next = if first.value.is_some() {
            first.rest
        } else {
            first.rest.skip(sync_point(first.rest))
        };
        let found = match first.value {
            Some(decl) => seq![decl],
            None => Seq::empty(),
        };
        if next.len() >= toks.len() {
            Outcome { declarations: found, errors: first.errors }
        } else {
            let more = parse_spec(source, next);
            Outcome { declarations: found + more.declarations, errors: first.errors + more.errors }
        }
    }
}

/// The view of an optional block.
pub open spec fn block_view(block: Option<Block>) -> Option<Seq<Stmt>> {
    match block {
        Some(b) => Some(b@),
        None => None,
    }
}

/// The view of an optional function.
pub open spec fn function_view(function: Option<Function>) -> Option<FunctionView> {
    match function {
        Some(f) => Some(f@),
        None => None,
    }
}

/// The view of an optional declaration.
pub open spec fn decl_view(decl: Option<Decl>) -> Option<DeclView> {
    match decl {
        Some(d) => Some(d@),
        None => None,
    }
}

impl<'s> Parser<'s> {
    /// Skips tokens up to a place at which parsing may resume.
    pub fn post_error_sync(&mut self)
        ensures
            final(self).follows(old(self)),
            final(self).recorded() == old(self).recorded(),
            final(self).remaining() == old(self).remaining().skip(sync_point(old(self).remaining())),
    {
        let ghost start = self.remaining();
        let mut prev = match self.advance() {
            Some(token) => token,
            None => {
                assert(start.skip(0) =~= start);
                return ;
            },
        };
        let ghost mut i: int = 1;
        loop
            invariant
                self.follows(old(self)),
                self.recorded() == old(self).recorded(),
                start == old(self).remaining(),
                1 <= i <= start.len(),
                prev@ == start[i - 1],
                self.remaining() == start.skip(i),
                sync_end(start, i) == sync_end(start, 1),
            decreases start.len() - i,
        {
            if let Token::Semicolon = prev.inner {
                return ;
            }
            match self.peek_next() {
                None => {
                    return ;
                },
                Some(token) => {
                    match token.inner {
                        Token::Int | Token::Return => {
                            return ;
                        },
                        _ => {},
                    }
                    let _ = self.advance();
                    prev = token;
                    proof {
                        assert(start.skip(i).skip(1) =~= start.skip(i + 1));
                        i = i + 1;
                    }
                },
            }
        }
    }

    /// Parses one statement: `return`, an optional integer literal, `;`.
    pub fn parse_stmt(&mut self) -> (r: Option<Stmt>)
        ensures
            final(self).took(old(self), parse_stmt_spec(old(self).source_file(), old(self).remaining())),
            r == parse_stmt_spec(old(self).source_file(), old(self).remaining()).value,
            final(self).remaining().len() <= old(self).remaining().len(),
            r.is_some() ==> final(self).remaining().len() < old(self).remaining().len(),
    {
        let ghost want = parse_stmt_spec(self.source_file(), self.remaining());
        if self.expect(&Token::Return, " as the sole statement".as_bytes()).is_none() {
            return None;
        }
        let value = match self.peek_next() {
            Some(token) => match token.inner {
                Token::IntLit(v) => {
                    let _ = self.advance();
                    Some(Expr::Lit(LiteralExpression::Int(v)))
                },
                _ => None,
            },
            None => None,
        };
        let found = self.expect(&Token::Semicolon, " to terminate return".as_bytes());
        assert(self.recorded() =~= old(self).recorded() + want.errors);
        if found.is_none() {
            return None;
        }
        Some(Stmt::Return(value))
    }

    /// Parses a block: `{`, then statements up to the closing `}`.
    pub fn parse_block(&mut self) -> (r: Option<Block>)
        ensures
            final(self).took(old(self), parse_block_spec(old(self).source_file(), old(self).remaining())),
            block_view(r) == parse_block_spec(old(self).source_file(), old(self).remaining()).value,
            final(self).remaining().len() <= old(self).remaining().len(),
            r.is_some() ==> final(self).remaining().len() < old(self).remaining().len(),
    {
        let ghost source = self.source_file();
        let ghost want = parse_block_spec(source, self.remaining());
        if self.expect(&Token::LBrace, " to start function body".as_bytes()).is_none() {
            return None;
        }
        let ghost body = self.remaining();
        let ghost opened = self.recorded();
        let ghost whole = parse_stmts_spec(source, body);
        let ghost mut seen: Seq<ErrorComponentView> = Seq::empty();
        let mut statements: Vec<Stmt> = Vec::new();
        assert(opened + seen =~= opened);
        assert(opened =~= old(self).recorded());
        assert(want.errors =~= whole.errors);
        loop
            invariant
                self.follows(old(self)),
                source == old(self).source_file(),
                whole == parse_stmts_spec(source, body),
                opened == old(self).recorded(),
                body.len() < old(self).remaining().len(),
                want.value == whole.value,
                want.rest == whole.rest,
                want.errors == whole.errors,
                want == parse_block_spec(source, old(self).remaining()),
                self.recorded() == opened + seen,
                self.remaining().len() <= body.len(),
                whole.rest == parse_stmts_spec(source, self.remaining()).rest,
                whole.errors == seen + parse_stmts_spec(source, self.remaining()).errors,
                whole.value == match parse_stmts_spec(source, self.remaining()).value {
                    Some(stmts) => Some(statements@ + stmts),
                    None => None,
                },
            decreases self.remaining().len(),
        {
            let ghost here = self.remaining();
            let ghost step = parse_stmts_spec(source, here);
            if self.consume_if_eq(&Token::RBrace) {
                assert(statements@ + Seq::<Stmt>::empty() =~= statements@);
                assert(seen + Seq::<ErrorComponentView>::empty() =~= seen);
                assert(self.recorded() =~= old(self).recorded() + want.errors);
                return Some(Block(statements));
            }
            let ghost first = parse_stmt_spec(source, here);
            match self.parse_stmt() {
                None => {
                    assert(self.recorded() =~= old(self).recorded() + want.errors);
                    return None;
                },
                Some(stmt) => {
                    let ghost more = parse_stmts_spec(source, first.rest);
                    let ghost before = statements@;
                    statements.push(stmt);
                    proof {
                        if more.value.is_some() {
                            assert(before + (seq![stmt] + more.value.unwrap()) =~= statements@
                                + more.value.unwrap());
                        }
                        assert(seen + (first.errors + more.errors) =~= (seen + first.errors) + more.errors);
                        assert(opened + seen + first.errors =~= opened + (seen + first.errors));
                        seen = seen + first.errors;
                    }
                },
            }
        }
    }

    /// Parses a function: `int`, its name, `(void)` and its body.
    pub fn parse_function(&mut self) -> (r: Option<Function<'s>>)
        ensures
            final(self).took(old(self), parse_function_spec(old(self).source_file(), old(self).remaining())),
            function_view(r) == parse_function_spec(old(self).source_file(), old(self).remaining()).value,
            final(self).remaining().len() <= old(self).remaining().len(),
            r.is_some() ==> final(self).remaining().len() < old(self).remaining().len(),
    {
        let ghost want = parse_function_spec(self.source_file(), self.remaining());
        if self.expect(&Token::Int, " to start function declaration".as_bytes()).is_none() {
            return None;
        }
        let name = match self.expect_ident(" after int type for function declaration".as_bytes()) {
            Some(name) => name,
            None => {
                assert(self.recorded() =~= old(self).recorded() + want.errors);
                return None;
            },
        };
        if self.expect(&Token::LParen, " to start function parameter list".as_bytes()).is_none() {
            assert(self.recorded() =~= old(self).recorded() + want.errors);
            return None;
        }
        if self.expect(&Token::Void, " in function parameter list".as_bytes()).is_none() {
            assert(self.recorded() =~= old(self).recorded() + want.errors);
            return None;
        }
        if self.expect(&Token::RParen, " to end function parameter list".as_bytes()).is_none() {
            assert(self.recorded() =~= old(self).recorded() + want.errors);
            return None;
        }
        let block = self.parse_block();
        assert(self.recorded() =~= old(self).recorded() + want.errors);
        match block {
            Some(body) => Some(Function { name, body }),
            None => None,
        }
    }

    /// Parses one declaration.
    pub fn parse_decl(&mut self) -> (r: Option<Decl<'s>>)
        ensures
            final(self).took(old(self), parse_decl_spec(old(self).source_file(), old(self).remaining())),
            decl_view(r) == parse_decl_spec(old(self).source_file(), old(self).remaining()).value,
            final(self).remaining().len() <= old(self).remaining().len(),
            r.is_some() ==> final(self).remaining().len() < old(self).remaining().len(),
    {
        match self.parse_function() {
            Some(function) => Some(Decl::Fun(function)),
            None => None,
        }
    }

    /// Parses every declaration up to the end of the tokens. Gives the
    /// program of those that parsed, and all diagnostics: those of lexing
    /// first, then those of parsing, each in its order.
    pub fn parse(&mut self) -> (r: (Program<'s>, AggregateError))
        ensures
            final(self).source_file() == old(self).source_file(),
            final(self).remaining().len() == 0,
            final(self).recorded().len() == 0,
            final(self).carried().len() == 0,
            r.0@ == parse_spec(old(self).source_file(), old(self).remaining()).declarations,
            r.1@ == old(self).carried() + old(self).recorded() + parse_spec(
                old(self).source_file(),
                old(self).remaining(),
            ).errors,
    {
        let ghost source = self.source_file();
        let ghost start = self.remaining();
        let ghost whole = parse_spec(source, start);
        let ghost earlier = self.recorded();
        let ghost mut seen: Seq<ErrorComponentView> = Seq::empty();
        let mut declarations: Vec<Decl<'s>> = Vec::new();
        let ghost mut found: Seq<DeclView> = Seq::empty();
        assert(earlier + seen =~= earlier);
        assert(found + whole.declarations =~= whole.declarations);
        assert(seen + whole.errors =~= whole.errors);
        while self.peek_next().is_some()
            invariant
                self.follows(old(self)),
                source == old(self).source_file(),
                whole == parse_spec(source, start),
                self.recorded() == earlier + seen,
                found == declarations@.map_values(|d: Decl<'s>| d@),
                whole.declarations == found + parse_spec(source, self.remaining()).declarations,
                whole.errors == seen + parse_spec(source, self.remaining()).errors,
            decreases self.remaining().len(),
        {
            let ghost here = self.remaining();
            let ghost first = parse_decl_spec(source, here);
            let ghost old_found = found;
            match self.parse_decl() {
                Some(decl) => {
                    declarations.push(decl);
                    proof {
                        found = found + seq![decl@];
                        assert(found =~= declarations@.map_values(|d: Decl<'s>| d@));
                    }
                },
                None => {
                    proof {
                        if first.rest.len() > 0 {
                            lemma_sync_end(first.rest, 1);
                        }
                        assert(found + Seq::<DeclView>::empty() =~= found);
                    }
                    self.post_error_sync();
                },
            }
            proof {
                let next = self.remaining();
                let more = parse_spec(source, next);
                assert(next.len() < here.len());
                assert(old_found + (found.skip(old_found.len() as int) + more.declarations) =~= found
                    + more.declarations);
                assert(found.skip(old_found.len() as int) =~= match first.value {
                    Some(decl) => seq![decl],
                    None => Seq::empty(),
                });
                assert(seen + (first.errors + more.errors) =~= (seen + first.errors) + more.errors);
                assert(earlier + seen + first.errors =~= earlier + (seen + first.errors));
                seen = seen + first.errors;
            }
        }
        proof {
            assert(found + Seq::<DeclView>::empty() =~= found);
            assert(seen + Seq::<ErrorComponentView>::empty() =~= seen);
        }
        let ghost carried = self.carried();
        let ghost recorded = self.recorded();
        assert(recorded == earlier + whole.errors);
        let mut components: Vec<ErrorComponent> = Vec::new();
        components.append(&mut self.lexer_errors.components);
        components.append(&mut self.errors.components);
        let program = Program { declarations };
        let errors = AggregateError { components };
        assert(errors@ =~= carried + recorded);
        assert(errors@ =~= carried + earlier + whole.errors);
        assert(self.recorded() =~= Seq::<ErrorComponentView>::empty());
        assert(self.carried() =~= Seq::<ErrorComponentView>::empty());
        (program, errors)
    }
}

/// Statements that parse record nothing; the first that fails records one
/// diagnostic.
pub proof fn lemma_stmts_errors(source: SourceFile, toks: Seq<Spanned<TokenView>>)
    ensures
        parse_stmts_spec(source, toks).errors.len() == (if parse_stmts_spec(source, toks).value.is_some() {
            0int
        } else {
            1int
        }),
    decreases toks.len(),
{
    if !(toks.len() > 0 && toks[0].inner == TokenView::RBrace) {
        let first = parse_stmt_spec(source, toks);
        if first.value.is_some() && first.rest.len() < toks.len() {
            lemma_stmts_errors(source, first.rest);
        }
    }
}

/// A declaration that parses records no diagnostic, and one that fails
/// records exactly one: a malformed construct is reported once.
pub proof fn lemma_one_error_per_failure(source: SourceFile, toks: Seq<Spanned<TokenView>>)
    ensures
        parse_decl_spec(source, toks).errors.len() == (if parse_decl_spec(source, toks).value.is_some() {
            0int
        } else {
            1int
        }),
{
    let a = expect_spec(source, toks, TokenView::Int, lit(" to start function declaration"));
    let b = expect_ident_spec(source, a.rest, lit(" after int type for function declaration"));
    let c = expect_spec(source, b.rest, TokenView::LParen, lit(" to start function parameter list"));
    let d = expect_spec(source, c.rest, TokenView::Void, lit(" in function parameter list"));
    let e = expect_spec(source, d.rest, TokenView::RParen, lit(" to end function parameter list"));
    let open = expect_spec(source, e.rest, TokenView::LBrace, lit(" to start function body"));
    lemma_stmts_errors(source, open.rest);
}

/// Whether `toks` spell a function that returns a literal:
/// `int <name>(void){return <value>;}`, each token at whatever span.
pub open spec fn spells_return_function(toks: Seq<Spanned<TokenView>>, name: Seq<u8>, value: VarInt) -> bool {
    &&& toks.len() == 10
    &&& toks[0].inner == TokenView::Int
    &&& toks[1].inner == TokenView::Ident(name)
    &&& toks[2].inner == TokenView::LParen
    &&& toks[3].inner == TokenView::Void
    &&& toks[4].inner == TokenView::RParen
    &&& toks[5].inner == TokenView::LBrace
    &&& toks[6].inner == TokenView::Return
    &&& toks[7].inner == TokenView::IntLit(value)
    &&& toks[8].inner == TokenView::Semicolon
    &&& toks[9].inner == TokenView::RBrace
}

/// The tokens of a function that returns a literal parse to that function,
/// without any diagnostic.
pub proof fn lemma_parse_return_function(
    source: SourceFile,
    toks: Seq<Spanned<TokenView>>,
    name: Seq<u8>,
    value: VarInt,
)
    requires
        spells_return_function(toks, name, value),
    ensures
        parse_spec(source, toks).declarations == seq![
            DeclView::Fun(
                FunctionView {
                    name,
                    body: seq![Stmt::Return(Some(Expr::Lit(LiteralExpression::Int(value))))],
                },
            ),
        ],
        parse_spec(source, toks).errors == Seq::<ErrorComponentView>::empty(),
{
    let stmt = Stmt::Return(Some(Expr::Lit(LiteralExpression::Int(value))));
    let t6 = toks.skip(6);
    let t9 = toks.skip(9);
    let t10 = toks.skip(10);
    assert(toks.skip(1).skip(1) =~= toks.skip(2));
    assert(toks.skip(2).skip(1) =~= toks.skip(3));
    assert(toks.skip(3).skip(1) =~= toks.skip(4));
    assert(toks.skip(4).skip(1) =~= toks.skip(5));
    assert(toks.skip(5).skip(1) =~= t6);
    assert(t6.skip(1) =~= toks.skip(7));
    assert(toks.skip(7).skip(1) =~= toks.skip(8));
    assert(toks.skip(8).skip(1) =~= t9);
    assert(t9.skip(1) =~= t10);
    let one = parse_stmt_spec(source, t6);
    assert(one.value == Some(stmt));
    assert(one.rest == t9);
    assert(one.errors =~= Seq::<ErrorComponentView>::empty());
    let closing = parse_stmts_spec(source, t9);
    assert(closing.value == Some(Seq::<Stmt>::empty()));
    assert(closing.rest == t10);
    let stmts = parse_stmts_spec(source, t6);
    assert(stmts.value.unwrap() =~= seq![stmt]);
    assert(stmts.rest == t10);
    assert(stmts.errors =~= Seq::<ErrorComponentView>::empty());
    let decl = parse_decl_spec(source, toks);
    assert(decl.value == Some(DeclView::Fun(FunctionView { name, body: seq![stmt] })));
    assert(decl.rest == t10);
    assert(decl.errors =~= Seq::<ErrorComponentView>::empty());
    assert(t10.len() == 0);
    let end = parse_spec(source, t10);
    assert(end.declarations =~= Seq::<DeclView>::empty());
    assert(parse_spec(source, toks).declarations =~= seq![decl.value.unwrap()]);
    assert(parse_spec(source, toks).errors =~= Seq::<ErrorComponentView>::empty());
}

/// Statements leave no more tokens than they were given.
pub proof fn lemma_stmts_rest(source: SourceFile, toks: Seq<Spanned<TokenView>>)
    ensures
        parse_stmts_spec(source, toks).rest.len() <= toks.len(),
    decreases toks.len(),
{
    if !(toks.len() > 0 && toks[0].inner == TokenView::RBrace) {
        let first = parse_stmt_spec(source, toks);
        if first.value.is_some() && first.rest.len() < toks.len() {
            lemma_stmts_rest(source, first.rest);
        }
    }
}

/// A declaration leaves no more tokens than it was given.
pub proof fn lemma_decl_rest(source: SourceFile, toks: Seq<Spanned<TokenView>>)
    ensures
        parse_decl_spec(source, toks).rest.len() <= toks.len(),
{
    let a = expect_spec(source, toks, TokenView::Int, lit(" to start function declaration"));
    let b = expect_ident_spec(source, a.rest, lit(" after int type for function declaration"));
    let c = expect_spec(source, b.rest, TokenView::LParen, lit(" to start function parameter list"));
    let d = expect_spec(source, c.rest, TokenView::Void, lit(" in function parameter list"));
    let e = expect_spec(source, d.rest, TokenView::RParen, lit(" to end function parameter list"));
    let open = expect_spec(source, e.rest, TokenView::LBrace, lit(" to start function body"));
    lemma_stmts_rest(source, open.rest);
}

/// Recovery: where a declaration fails and synchronization lands on the
/// tokens of a well-formed function, parsing gives that function and exactly
/// one diagnostic, that of the failed declaration.
pub proof fn lemma_recovery(source: SourceFile, toks: Seq<Spanned<TokenView>>, name: Seq<u8>, value: VarInt)
    requires
        toks.len() > 0,
        parse_decl_spec(source, toks).value.is_none(),
        spells_return_function(
            parse_decl_spec(source, toks).rest.skip(sync_point(parse_decl_spec(source, toks).rest)),
            name,
            value,
        ),
    ensures
        parse_spec(source, toks).declarations == seq![
            DeclView::Fun(
                FunctionView {
                    name,
                    body: seq![Stmt::Return(Some(Expr::Lit(LiteralExpression::Int(value))))],
                },
            ),
        ],
        parse_spec(source, toks).errors == parse_decl_spec(source, toks).errors,
        parse_spec(source, toks).errors.len() == 1,
{
    let first = parse_decl_spec(source, toks);
    let next = first.rest.skip(sync_point(first.rest));
    lemma_decl_rest(source, toks);
    lemma_one_error_per_failure(source, toks);
    lemma_sync_end(first.rest, 1);
    lemma_parse_return_function(source, next, name, value);
    let more = parse_spec(source, next);
    assert(Seq::<DeclView>::empty() + more.declarations =~= more.declarations);
    assert(first.errors + more.errors =~= first.errors);
}

/// Parsing is a function of the source and of what the tokens are: two runs
/// over token sequences that hold the same tokens at the same spans give the
/// same program and the same diagnostics.
pub proof fn lemma_parse_deterministic(source: SourceFile, first_run: Seq<SToken>, second_run: Seq<SToken>)
    requires
        tokens_view(first_run) == tokens_view(second_run),
    ensures
        parse_spec(source, tokens_view(first_run)).declarations == parse_spec(
            source,
            tokens_view(second_run),
        ).declarations,
        parse_spec(source, tokens_view(first_run)).errors == parse_spec(source, tokens_view(second_run)).errors,
{
}

} // verus!
