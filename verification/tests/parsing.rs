use cccc::ast::{Block, Decl, Expr, Function, LiteralExpression, Program, Stmt};
use cccc::diagnostics::{AggregateError, ErrorLevel};
use cccc::driver::lex_source;
use cccc::lexer::Token;
use cccc::parser::Parser;
use cccc::source::SourceFile;
use cccc::utils::{Span, Spanned, VarInt};

fn file(text: &str) -> SourceFile {
    SourceFile::new(b"unit.c".to_vec(), text.as_bytes().to_vec())
}

fn parser_over(source: &SourceFile) -> Parser<'_> {
    let (tokens, lexed) = lex_source(source);
    Parser::new(source.clone(), tokens, lexed)
}

fn returning(name: &'static [u8], value: Option<u64>) -> Decl<'static> {
    let expr = value.map(|v| Expr::Lit(LiteralExpression::Int(VarInt::Pos(v))));
    Decl::Fun(Function { name, body: Block(vec![Stmt::Return(expr)]) })
}

#[test]
fn a_function_parses() {
    let source = file("int main(void){return 7;}");
    let (program, errors) = parser_over(&source).parse();
    assert_eq!(program, Program { declarations: vec![returning(b"main", Some(7))] });
    assert!(errors.is_empty());
    assert!(!errors.has_error());
}

#[test]
fn a_return_needs_no_value() {
    let source = file("int main(void){return;}");
    let (program, errors) = parser_over(&source).parse();
    assert_eq!(program, Program { declarations: vec![returning(b"main", None)] });
    assert!(errors.is_empty());
}

#[test]
fn no_tokens_give_an_empty_program() {
    let source = file(" \n\t ");
    let (program, errors) = parser_over(&source).parse();
    assert_eq!(program, Program { declarations: vec![] });
    assert!(errors.is_empty());
}

#[test]
fn declarations_keep_their_order() {
    let source = file("int a(void){return 1;}\nint b(void){}\nint c(void){return 3;return;}");
    let (program, errors) = parser_over(&source).parse();
    assert!(errors.is_empty());
    assert_eq!(
        program,
        Program {
            declarations: vec![
                returning(b"a", Some(1)),
                Decl::Fun(Function { name: b"b", body: Block(vec![]) }),
                Decl::Fun(Function {
                    name: b"c",
                    body: Block(vec![
                        Stmt::Return(Some(Expr::Lit(LiteralExpression::Int(VarInt::Pos(3))))),
                        Stmt::Return(None),
                    ]),
                }),
            ],
        }
    );
}

#[test]
fn parsing_twice_gives_the_same() {
    let source = file("int 5; int main(void){return 0;} int f(void){return x;} @");
    let (first_program, first_errors) = parser_over(&source).parse();
    let (second_program, second_errors) = parser_over(&source).parse();
    assert_eq!(first_program, second_program);
    assert_eq!(first_errors, second_errors);
    assert!(!first_errors.is_empty());
}

#[test]
fn one_malformed_declaration_gives_one_error() {
    let source = file("int 5; int main(void){return 0;}");
    let (program, errors) = parser_over(&source).parse();
    assert_eq!(program, Program { declarations: vec![returning(b"main", Some(0))] });
    assert_eq!(errors.components.len(), 1);
    assert!(errors.has_error());
    let error = &errors.components[0];
    assert_eq!(error.level, ErrorLevel::Error);
    assert_eq!(error.short_message, b"Expected identifier after int type for function declaration".to_vec());
    assert_eq!(error.long_message, Vec::<u8>::new());
    assert_eq!(error.highlight, Span { start: 4, end: 5 });
    assert_eq!(error.highlight_message, Some(b"found `5`".to_vec()));
    assert_eq!(error.source, source);
}

#[test]
fn recovery_resumes_behind_a_semicolon() {
    let source = file("foo bar ; int main(void){return 1;}");
    let (program, errors) = parser_over(&source).parse();
    assert_eq!(program, Program { declarations: vec![returning(b"main", Some(1))] });
    assert_eq!(errors.components.len(), 1);
    assert_eq!(errors.components[0].short_message, b"Expected `int` to start function declaration".to_vec());
    assert_eq!(errors.components[0].highlight, Span { start: 0, end: 3 });
    assert_eq!(errors.components[0].highlight_message, Some(b"found `foo`".to_vec()));
}

#[test]
fn recovery_resumes_before_int() {
    let source = file("foo ( int main(void){return 1;}");
    let (program, errors) = parser_over(&source).parse();
    assert_eq!(program, Program { declarations: vec![returning(b"main", Some(1))] });
    assert_eq!(errors.components.len(), 1);
}

#[test]
fn recovery_resumes_before_return() {
    let source = file("x return 1; int f(void){return 2;}");
    let (program, errors) = parser_over(&source).parse();
    assert_eq!(program, Program { declarations: vec![returning(b"f", Some(2))] });
    assert_eq!(errors.components.len(), 2);
    assert_eq!(errors.components[0].highlight, Span { start: 0, end: 1 });
    assert_eq!(errors.components[1].highlight, Span { start: 2, end: 8 });
    assert_eq!(errors.components[1].highlight_message, Some(b"found `return`".to_vec()));
}

#[test]
fn an_unknown_statement_is_an_error_not_a_crash() {
    let source = file("int main(void){return foo;}");
    let (program, errors) = parser_over(&source).parse();
    assert_eq!(program, Program { declarations: vec![] });
    assert_eq!(errors.components[0].short_message, b"Expected `;` to terminate return".to_vec());
    assert_eq!(errors.components[0].highlight, Span { start: 22, end: 25 });
    let source = file("int main(void){x;}");
    let (program, errors) = parser_over(&source).parse();
    assert_eq!(program, Program { declarations: vec![] });
    assert_eq!(errors.components[0].short_message, b"Expected `return` as the sole statement".to_vec());
}

#[test]
fn the_end_of_input_is_reported_at_the_end_of_the_text() {
    let source = file("int main(void){");
    let (program, errors) = parser_over(&source).parse();
    assert_eq!(program, Program { declarations: vec![] });
    assert_eq!(errors.components.len(), 1);
    assert_eq!(errors.components[0].short_message, b"Expected `return` as the sole statement".to_vec());
    assert_eq!(errors.components[0].highlight, Span { start: 15, end: 15 });
    assert_eq!(errors.components[0].highlight_message, Some(b"found end of input".to_vec()));
}

#[test]
fn each_expectation_names_its_context() {
    let cases: [(&str, &[u8]); 6] = [
        ("int main void", b"Expected `(` to start function parameter list"),
        ("int main(int", b"Expected `void` in function parameter list"),
        ("int main(void;", b"Expected `)` to end function parameter list"),
        ("int main(void);", b"Expected `{` to start function body"),
        ("int main(void){return 1}", b"Expected `;` to terminate return"),
        ("main", b"Expected `int` to start function declaration"),
    ];
    for (text, message) in cases {
        let source = file(text);
        let (_, errors) = parser_over(&source).parse();
        assert_eq!(errors.components[0].short_message, message.to_vec(), "{}", text);
    }
}

#[test]
fn lexer_errors_come_first() {
    let source = file("int 5; @ int main(void){return 0;} #");
    let (program, errors) = parser_over(&source).parse();
    assert_eq!(program, Program { declarations: vec![returning(b"main", Some(0))] });
    assert_eq!(errors.components.len(), 3);
    assert_eq!(errors.components[0].short_message, b"Failed to lex token".to_vec());
    assert_eq!(errors.components[0].highlight, Span { start: 7, end: 8 });
    assert_eq!(errors.components[1].short_message, b"Failed to lex token".to_vec());
    assert_eq!(errors.components[1].highlight, Span { start: 35, end: 36 });
    assert_eq!(errors.components[2].highlight, Span { start: 4, end: 5 });
}

#[test]
fn advance_and_put_back() {
    let source = file("int main");
    let mut parser = parser_over(&source);
    let first = parser.advance().unwrap();
    assert_eq!(first, Spanned { inner: Token::Int, span: Span { start: 0, end: 3 } });
    assert_eq!(parser.peek_next().unwrap().inner, Token::Ident(b"main"));
    parser.put_back(first);
    assert_eq!(parser.peek_next(), Some(first));
    assert_eq!(parser.advance(), Some(first));
    let second = parser.advance().unwrap();
    assert_eq!(second.inner, Token::Ident(b"main"));
    assert_eq!(parser.advance(), None);
    parser.put_back(second);
    parser.put_back(first);
    assert_eq!(parser.advance(), Some(first));
    assert_eq!(parser.advance(), Some(second));
    assert_eq!(parser.advance(), None);
}

#[test]
fn consume_if_eq_takes_only_the_wanted_token() {
    let source = file("{ }");
    let mut parser = parser_over(&source);
    assert!(!parser.consume_if_eq(&Token::RBrace));
    assert!(parser.consume_if_eq(&Token::LBrace));
    assert!(parser.consume_if_eq(&Token::RBrace));
    assert!(!parser.consume_if_eq(&Token::RBrace));
    let (_, errors) = parser.parse();
    assert!(errors.is_empty());
}

#[test]
fn expect_records_one_error_and_takes_nothing() {
    let source = file("void");
    let mut parser = parser_over(&source);
    assert_eq!(parser.expect(&Token::Int, b" here"), None);
    assert_eq!(parser.expect_ident(b" there"), None);
    let found = parser.expect(&Token::Void, b" at last").unwrap();
    assert_eq!(found.inner, Token::Void);
    assert_eq!(parser.expect(&Token::Void, b""), None);
    let (_, errors) = parser.parse();
    assert_eq!(errors.components.len(), 3);
    assert_eq!(errors.components[0].short_message, b"Expected `int` here".to_vec());
    assert_eq!(errors.components[0].highlight_message, Some(b"found `void`".to_vec()));
    assert_eq!(errors.components[1].short_message, b"Expected identifier there".to_vec());
    assert_eq!(errors.components[2].short_message, b"Expected `void`".to_vec());
    assert_eq!(errors.components[2].highlight, Span { start: 4, end: 4 });
}

#[test]
fn expect_ident_gives_the_name() {
    let source = file("main");
    let mut parser = parser_over(&source);
    assert_eq!(parser.expect_ident(b""), Some(&b"main"[..]));
    assert_eq!(parser.advance(), None);
}

#[test]
fn post_error_sync_skips_to_a_boundary() {
    let source = file("a b ; c d");
    let mut parser = parser_over(&source);
    parser.post_error_sync();
    assert_eq!(parser.advance().unwrap().inner, Token::Ident(b"c"));
    let source = file("a b int c");
    let mut parser = parser_over(&source);
    parser.post_error_sync();
    assert_eq!(parser.advance().unwrap().inner, Token::Int);
    let source = file("return return");
    let mut parser = parser_over(&source);
    parser.post_error_sync();
    assert_eq!(parser.advance().unwrap().span, Span { start: 7, end: 13 });
    let source = file("a b c");
    let mut parser = parser_over(&source);
    parser.post_error_sync();
    assert_eq!(parser.advance(), None);
    let source = file("");
    let mut parser = parser_over(&source);
    parser.post_error_sync();
    assert_eq!(parser.advance(), None);
}

#[test]
fn the_parts_of_a_function_parse_alone() {
    let source = file("return 5; {return;} int f(void){}");
    let mut parser = parser_over(&source);
    assert_eq!(parser.parse_stmt(), Some(Stmt::Return(Some(Expr::Lit(LiteralExpression::Int(VarInt::Pos(5)))))));
    assert_eq!(parser.parse_block(), Some(Block(vec![Stmt::Return(None)])));
    assert_eq!(parser.parse_decl(), Some(Decl::Fun(Function { name: b"f", body: Block(vec![]) })));
    assert_eq!(parser.parse_function(), None);
    let (_, errors) = parser.parse();
    assert_eq!(errors.components.len(), 1);
}

#[test]
fn a_parser_starts_with_the_diagnostics_of_lexing() {
    let source = file("");
    let mut parser = Parser::new(source.clone(), vec![], AggregateError::new());
    let (program, errors) = parser.parse();
    assert_eq!(program.declarations.len(), 0);
    assert!(errors.is_empty());
}
