use cccc::lexer::{bytes_eq, lex, LexError, Lexer, SToken, Token};
use cccc::utils::{Span, Spanned, VarInt};

fn tok(inner: Token<'static>, start: usize, end: usize) -> Result<SToken<'static>, LexError> {
    Ok(Spanned { inner, span: Span { start, end } })
}

fn bad(start: usize, end: usize) -> Result<SToken<'static>, LexError> {
    Err(LexError { span: Span { start, end } })
}

#[test]
fn whitespace_gives_no_items() {
    assert_eq!(lex(b""), vec![]);
    assert_eq!(lex(b" "), vec![]);
    assert_eq!(lex(b" \t\r\n \n\n\t"), vec![]);
}

#[test]
fn a_stray_byte_gives_one_error_over_that_byte() {
    assert_eq!(lex(b"@"), vec![bad(0, 1)]);
    assert_eq!(lex(b"-"), vec![bad(0, 1)]);
    assert_eq!(lex(&[0x0b]), vec![bad(0, 1)]);
    assert_eq!(lex(&[0xff]), vec![bad(0, 1)]);
    assert_eq!(lex(&[0x00]), vec![bad(0, 1)]);
}

#[test]
fn lexing_resumes_after_an_error() {
    assert_eq!(lex(b"  @ int"), vec![bad(2, 3), tok(Token::Int, 4, 7)]);
    assert_eq!(lex(b"a#b"), vec![tok(Token::Ident(b"a"), 0, 1), bad(1, 2), tok(Token::Ident(b"b"), 2, 3)]);
    assert_eq!(lex(b"@@"), vec![bad(0, 1), bad(1, 2)]);
}

#[test]
fn keywords_win_over_identifiers_of_the_same_text() {
    assert_eq!(
        lex(b"return void int"),
        vec![tok(Token::Return, 0, 6), tok(Token::Void, 7, 11), tok(Token::Int, 12, 15)]
    );
    assert_eq!(
        lex(b"returnx int3 _int Return"),
        vec![
            tok(Token::Ident(b"returnx"), 0, 7),
            tok(Token::Ident(b"int3"), 8, 12),
            tok(Token::Ident(b"_int"), 13, 17),
            tok(Token::Ident(b"Return"), 18, 24),
        ]
    );
}

#[test]
fn punctuation_is_one_byte_each() {
    assert_eq!(
        lex(b"(){};"),
        vec![
            tok(Token::LParen, 0, 1),
            tok(Token::RParen, 1, 2),
            tok(Token::LBrace, 2, 3),
            tok(Token::RBrace, 3, 4),
            tok(Token::Semicolon, 4, 5),
        ]
    );
}

#[test]
fn radix_prefixes_select_the_base() {
    assert_eq!(lex(b"0x1F"), vec![tok(Token::IntLit(VarInt::Pos(31)), 0, 4)]);
    assert_eq!(lex(b"0o17"), vec![tok(Token::IntLit(VarInt::Pos(15)), 0, 4)]);
    assert_eq!(lex(b"0p101"), vec![tok(Token::IntLit(VarInt::Pos(5)), 0, 5)]);
    assert_eq!(lex(b"0xff_ff"), vec![tok(Token::IntLit(VarInt::Pos(65535)), 0, 7)]);
    assert_eq!(lex(b"42"), vec![tok(Token::IntLit(VarInt::Pos(42)), 0, 2)]);
    assert_eq!(lex(b"1_000"), vec![tok(Token::IntLit(VarInt::Pos(1000)), 0, 5)]);
    assert_eq!(lex(b"0"), vec![tok(Token::IntLit(VarInt::Pos(0)), 0, 1)]);
}

#[test]
fn the_binary_prefix_is_p_not_b() {
    assert_eq!(lex(b"0p11"), vec![tok(Token::IntLit(VarInt::Pos(3)), 0, 4)]);
    assert_eq!(lex(b"0b11"), vec![bad(0, 4)]);
}

#[test]
fn a_literal_that_does_not_read_is_one_error_over_the_literal() {
    assert_eq!(lex(b"0o9"), vec![bad(0, 3)]);
    assert_eq!(lex(b"0p2"), vec![bad(0, 3)]);
    assert_eq!(lex(b"12ab;"), vec![bad(0, 4), tok(Token::Semicolon, 4, 5)]);
    assert_eq!(lex(b"18446744073709551616"), vec![bad(0, 20)]);
    assert_eq!(lex(b"18446744073709551615"), vec![tok(Token::IntLit(VarInt::Pos(u64::MAX)), 0, 20)]);
}

#[test]
fn a_prefix_without_a_digit_is_no_prefix() {
    assert_eq!(lex(b"0xg"), vec![tok(Token::IntLit(VarInt::Pos(0)), 0, 1), tok(Token::Ident(b"xg"), 1, 3)]);
    assert_eq!(lex(b"0x"), vec![tok(Token::IntLit(VarInt::Pos(0)), 0, 1), tok(Token::Ident(b"x"), 1, 2)]);
    assert_eq!(lex(b"0x_1"), vec![tok(Token::IntLit(VarInt::Pos(0)), 0, 1), tok(Token::Ident(b"x_1"), 1, 4)]);
    assert_eq!(lex(b"1x2"), vec![tok(Token::IntLit(VarInt::Pos(1)), 0, 1), tok(Token::Ident(b"x2"), 1, 3)]);
}

#[test]
fn a_whole_function_lexes() {
    assert_eq!(
        lex(b"int main(void){return 7;}"),
        vec![
            tok(Token::Int, 0, 3),
            tok(Token::Ident(b"main"), 4, 8),
            tok(Token::LParen, 8, 9),
            tok(Token::Void, 9, 13),
            tok(Token::RParen, 13, 14),
            tok(Token::LBrace, 14, 15),
            tok(Token::Return, 15, 21),
            tok(Token::IntLit(VarInt::Pos(7)), 22, 23),
            tok(Token::Semicolon, 23, 24),
            tok(Token::RBrace, 24, 25),
        ]
    );
}

#[test]
fn the_lexer_hands_out_items_one_by_one() {
    let mut lexer = Lexer::new(b" int\t? ");
    assert_eq!(lexer.next(), Some(tok(Token::Int, 1, 4)));
    assert_eq!(lexer.next(), Some(bad(5, 6)));
    assert_eq!(lexer.next(), None);
    assert_eq!(lexer.next(), None);
}

#[test]
fn token_text_is_the_source_text() {
    assert_eq!(Token::Return.to_text(), b"return".to_vec());
    assert_eq!(Token::Void.to_text(), b"void".to_vec());
    assert_eq!(Token::Int.to_text(), b"int".to_vec());
    assert_eq!(Token::IntLit(VarInt::Pos(31)).to_text(), b"31".to_vec());
    assert_eq!(Token::IntLit(VarInt::Neg(-3)).to_text(), b"-3".to_vec());
    assert_eq!(Token::Ident(b"main").to_text(), b"main".to_vec());
    assert_eq!(Token::LParen.to_text(), b"(".to_vec());
    assert_eq!(Token::RParen.to_text(), b")".to_vec());
    assert_eq!(Token::LBrace.to_text(), b"{".to_vec());
    assert_eq!(Token::RBrace.to_text(), b"}".to_vec());
    assert_eq!(Token::Semicolon.to_text(), b";".to_vec());
}

#[test]
fn same_compares_tokens() {
    assert!(Token::Int.same(&Token::Int));
    assert!(!Token::Int.same(&Token::Void));
    assert!(Token::Ident(b"a").same(&Token::Ident(b"a")));
    assert!(!Token::Ident(b"a").same(&Token::Ident(b"b")));
    assert!(!Token::Ident(b"int").same(&Token::Int));
    assert!(Token::IntLit(VarInt::Pos(1)).same(&Token::IntLit(VarInt::Pos(1))));
    assert!(!Token::IntLit(VarInt::Pos(1)).same(&Token::IntLit(VarInt::Neg(1))));
}

#[test]
fn bytes_eq_compares_bytes() {
    assert!(bytes_eq(b"", b""));
    assert!(bytes_eq(b"abc", b"abc"));
    assert!(!bytes_eq(b"abc", b"abd"));
    assert!(!bytes_eq(b"abc", b"ab"));
}
