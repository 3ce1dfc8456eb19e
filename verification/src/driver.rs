//! The pipeline of one compilation unit: lex, parse, generate, emit; and the
//! stage at which a run may stop.
use vstd::prelude::*;
use crate::assembly::{program_text, ASMFunctionView, ASMProgram};
use crate::ast::{DeclView, Program};
use crate::codegen::{program_code, Codegen};
use crate::diagnostics::{any_error, fresh_component, AggregateError, ErrorComponent, ErrorComponentView};
use crate::lexer::{bytes_eq, item_view, items_view, lex, lex_spec, LexError, LexItem, SToken, TokenView};
use crate::parser::{parse_spec, tokens_view, Parser};
use crate::source::SourceFile;
use crate::utils::{lit, Spanned};

verus! {

/// The stages of the pipeline, in order. A run goes through the stage it is
/// told to stop at, and no further.
#[derive(Debug, Clone, Copy, PartialEq, Eq, Structural)]
pub enum Stage {
    Lex,
    Parse,
    Codegen,
    Assemble,
    Link,
}

impl Default for Stage {
    fn default() -> (r: Self)
        ensures
            r == Stage::Link,
    {
        Stage::Link
    }
}

/// What a run is told: the stage to stop at.
#[derive(Debug, Clone, Copy, PartialEq, Eq, Structural)]
pub struct Config {
    pub stop_at_stage: Stage,
}

impl Default for Config {
    fn default() -> (r: Self)
        ensures
            r.stop_at_stage == Stage::Link,
    {
        Config { stop_at_stage: Stage::Link }
    }
}

/// The stage that a flag selects. Its first byte, the dash, is not looked at.
pub open spec fn flag_stage(flag: Seq<u8>) -> Option<Stage> {
    let word = flag.skip(1);
    if word == lit("-lex") {
        Some(Stage::Lex)
    } else if word == lit("-parse") {
        Some(Stage::Parse)
    } else if word == lit("-codegen") {
        Some(Stage::Codegen)
    } else if word == lit("S") {
        Some(Stage::Assemble)
    } else {
        None
    }
}

/// The stage that a list of flags selects: that of the last flag that selects
/// one, and `Link` where none does.
pub open spec fn flags_stage(flags: Seq<Seq<u8>>) -> Stage
    decreases flags.len(),
{
    if flags.len() == 0 {
        Stage::Link
    } else {
        match flag_stage(flags.last()) {
            Some(stage) => stage,
            None => flags_stage(flags.drop_last()),
        }
    }
}

/// Flags as plain values.
pub open spec fn flags_view(flags: Seq<Vec<u8>>) -> Seq<Seq<u8>> {
    flags.map_values(|f: Vec<u8>| f@)
}

impl Stage {
    /// The stage that one flag selects, if it selects one.
    pub fn from_flag(flag: &[u8]) -> (r: Option<Stage>)
        requires
            flag@.len() >= 1,
        ensures
            r == flag_stage(flag@),
    {
        let word = vstd::slice::slice_subrange(flag, 1, flag.len());
        assert(word@ =~= flag@.skip(1));
        if bytes_eq(word, "-lex".as_bytes()) {
            Some(Stage::Lex)
        } else if bytes_eq(word, "-parse".as_bytes()) {
            Some(Stage::Parse)
        } else if bytes_eq(word, "-codegen".as_bytes()) {
            Some(Stage::Codegen)
        } else if bytes_eq(word, "S".as_bytes()) {
            Some(Stage::Assemble)
        } else {
            None
        }
    }
}

impl Config {
    /// The configuration that a list of flags selects.
    pub fn from_flags(flags: &Vec<Vec<u8>>) -> (r: Config)
        requires
            forall|i: int| 0 <= i < flags@.len() ==> (#[trigger] flags@[i])@.len() >= 1,
        ensures
            r.stop_at_stage == flags_stage(flags_view(flags@)),
    {
        let mut config = Config::default();
        let mut i: usize = 0;
        let ghost all = flags_view(flags@);
        assert(all.take(0) =~= Seq::<Seq<u8>>::empty());
        while i < flags.len()
            invariant
                0 <= i <= flags.len(),
                all == flags_view(flags@),
                forall|j: int| 0 <= j < flags@.len() ==> (#[trigger] flags@[j])@.len() >= 1,
                config.stop_at_stage == flags_stage(all.take(i as int)),
            decreases flags.len() - i,
        {
            assert(all.take(i + 1).drop_last() =~= all.take(i as int));
            assert(all.take(i + 1).last() == flags@[i as int]@);
            match Stage::from_flag(flags[i].as_slice()) {
                Some(stage) => {
                    config.stop_at_stage = stage;
                },
                None => {},
            }
            i = i + 1;
        }
        assert(all.take(i as int) =~= all);
        config
    }
}

/// The tokens among the items of a text, in order.
pub open spec fn token_items(items: Seq<LexItem>) -> Seq<Spanned<TokenView>>
    decreases items.len(),
{
    if items.len() == 0 {
        Seq::empty()
    } else {
        match items.last().token {
            Some(token) => token_items(items.drop_last()).push(Spanned { inner: token, span: items.last().span }),
            None => token_items(items.drop_last()),
        }
    }
}

/// The diagnostic of a lex error at `error`.
pub open spec fn lex_failure(source: SourceFile, error: LexError) -> ErrorComponentView {
    fresh_component(source, lit("Failed to lex token"), error.span)
}

/// The diagnostics of the lex errors among the items of a text, in order.
pub open spec fn lex_failures(source: SourceFile, items: Seq<LexItem>) -> Seq<ErrorComponentView>
    decreases items.len(),
{
    if items.len() == 0 {
        Seq::empty()
    } else {
        match items.last().token {
            Some(token) => lex_failures(source, items.drop_last()),
            None => lex_failures(source, items.drop_last()).push(
                lex_failure(source, LexError { span: items.last().span }),
            ),
        }
    }
}

/// Lexes the text of `source`: the tokens, and one diagnostic for each lex
/// error, both in source order.
pub fn lex_source<'s>(source: &'s SourceFile) -> (r: (Vec<SToken<'s>>, AggregateError))
    ensures
        tokens_view(r.0@) == token_items(lex_spec(source.text_bytes())),
        r.1@ == lex_failures(*source, lex_spec(source.text_bytes())),
{
    let items = lex(source.text());
    let ghost all = items_view(items@);
    let mut tokens: Vec<SToken<'s>> = Vec::new();
    let mut errors = AggregateError::new();
    let mut i: usize = 0;
    assert(all.take(0) =~= Seq::<LexItem>::empty());
    assert(tokens_view(tokens@) =~= Seq::<Spanned<TokenView>>::empty());
    while i < items.len()
        invariant
            0 <= i <= items.len(),
            all == items_view(items@),
            all == lex_spec(source.text_bytes()),
            tokens_view(tokens@) == token_items(all.take(i as int)),
            errors@ == lex_failures(*source, all.take(i as int)),
        decreases items.len() - i,
    {
        assert(all.take(i + 1).drop_last() =~= all.take(i as int));
        assert(all.take(i + 1).last() == item_view(items@[i as int]));
        let ghost tokens_before = tokens@;
        let ghost errors_before = errors@;
        match items[i] {
            Ok(token) => {
                tokens.push(token);
                assert(tokens_view(tokens@) =~= tokens_view(tokens_before).push(token@));
            },
            Err(error) => {
                let mut message: Vec<u8> = Vec::new();
                message.extend_from_slice("Failed to lex token".as_bytes());
                assert(message@ =~= lit("Failed to lex token"));
                let component = ErrorComponent::new(source.clone(), message, error.span);
                errors.components.push(component);
                assert(errors@ =~= errors_before.push(lex_failure(*source, error)));
            },
        }
        i = i + 1;
    }
    assert(all.take(i as int) =~= all);
    (tokens, errors)
}

/// What a run over one unit gives: all diagnostics, and the output of each
/// stage that the run went through.
#[derive(Debug)]
pub struct Compilation<'s> {
    pub errors: AggregateError,
    pub program: Option<Program<'s>>,
    pub assembly: Option<ASMProgram<'s>>,
    pub text: Option<Vec<u8>>,
}

/// A run's result as plain values.
pub struct CompilationView {
    pub errors: Seq<ErrorComponentView>,
    pub program: Option<Seq<DeclView>>,
    pub assembly: Option<Seq<ASMFunctionView>>,
    pub text: Option<Seq<u8>>,
}

impl<'s> View for Compilation<'s> {
    type V = CompilationView;

    open spec fn view(&self) -> CompilationView {
        CompilationView {
            errors: self.errors@,
            program: match self.program {
                Some(p) => Some(p@),
                None => None,
            },
            assembly: match self.assembly {
                Some(a) => Some(a@),
                None => None,
            },
            text: match self.text {
                Some(t) => Some(t@),
                None => None,
            },
        }
    }
}

/// The result of a run over `source` that stops at `stage`. Lexing alone
/// gives the diagnostics of lexing. Parsing gives the program and all
/// diagnostics; where one of them is an error, the run ends there. Code
/// generation gives the assembly, and emission its text.
pub open spec fn compile_spec(source: SourceFile, stage: Stage) -> CompilationView {
    let items = lex_spec(source.text_bytes());
    let lexed = lex_failures(source, items);
    let parsed = parse_spec(source, token_items(items));
    let errors = lexed + parsed.errors;
    let code = program_code(parsed.declarations);
    if stage == Stage::Lex {
        CompilationView { errors: lexed, program: None, assembly: None, text: None }
    } else if stage == Stage::Parse || any_error(errors) {
        CompilationView { errors, program: Some(parsed.declarations), assembly: None, text: None }
    } else if stage == Stage::Codegen {
        CompilationView { errors, program: Some(parsed.declarations), assembly: Some(code), text: None }
    } else {
        CompilationView {
            errors,
            program: Some(parsed.declarations),
            assembly: Some(code),
            text: Some(program_text(code)),
        }
    }
}

/// A run whose diagnostics hold an error gives neither assembly nor text,
/// at whatever stage it was told to stop.
pub proof fn lemma_errors_stop_the_run(source: SourceFile, stage: Stage)
    requires
        any_error(compile_spec(source, stage).errors),
    ensures
        compile_spec(source, stage).assembly.is_none(),
        compile_spec(source, stage).text.is_none(),
{
}

/// A run goes no further than its stage: no program before parsing, no
/// assembly before code generation, no text before emission.
pub proof fn lemma_stage_bounds_the_run(source: SourceFile, stage: Stage)
    ensures
        stage == Stage::Lex ==> compile_spec(source, stage).program.is_none(),
        stage == Stage::Lex || stage == Stage::Parse ==> compile_spec(source, stage).assembly.is_none(),
        stage == Stage::Lex || stage == Stage::Parse || stage == Stage::Codegen ==> compile_spec(
            source,
            stage,
        ).text.is_none(),
{
}

/// The pipeline, set up to stop at a stage.
pub struct Driver {
    pub config: Config,
}

impl Driver {
    /// A driver with the given configuration.
    pub fn new(config: Config) -> (r: Self)
        ensures
            r.config == config,
    {
        Self { config }
    }

    /// Runs the pipeline over one unit, through the stage that the
    /// configuration names.
    pub fn compile<'s>(&self, source: &'s SourceFile) -> (r: Compilation<'s>)
        ensures
            r@ == compile_spec(*source, self.config.stop_at_stage),
    {
        let stage = self.config.stop_at_stage;
        let (tokens, lexed) = lex_source(source);
        if stage == Stage::Lex {
            return Compilation { errors: lexed, program: None, assembly: None, text: None };
        }
        let ghost lexed_view = lexed@;
        let mut parser = Parser::new(source.clone(), tokens, lexed);
        let (program, errors) = parser.parse();
        assert(errors@ =~= lexed_view + parse_spec(*source, token_items(lex_spec(source.text_bytes()))).errors);
        if stage == Stage::Parse || errors.has_error() {
            return Compilation { errors, program: Some(program), assembly: None, text: None };
        }
        let codegen = Codegen::new();
        let assembly = codegen.codegen_program(&program);
        if stage == Stage::Codegen {
            return Compilation { errors, program: Some(program), assembly: Some(assembly), text: None };
        }
        let text = assembly.to_text();
        Compilation { errors, program: Some(program), assembly: Some(assembly), text: Some(text) }
    }
}

} // verus!
