#![allow(unused_imports)]
use dyne::lexer::{tokenize, Token, TokenKind};
use dyne::source::Span;

fn kinds(source: &str) -> Vec<TokenKind> {
    tokenize(source).unwrap().into_iter().map(|t| t.kind).collect()
}

#[test]
fn empty_source() {
    assert_eq!(kinds(""), vec![TokenKind::Eof]);
}

#[test]
fn whitespace_only() {
    assert_eq!(kinds("   \t  "), vec![TokenKind::Eof]);
}

#[test]
fn single_newline() {
    assert_eq!(kinds("\n"), vec![TokenKind::Newline, TokenKind::Eof]);
}

#[test]
fn consecutive_newlines_collapsed() {
    assert_eq!(
        kinds("\n\n\n"),
        vec![TokenKind::Newline, TokenKind::Eof]
    );
}

#[test]
fn line_comment_ignored() {
    assert_eq!(
        kinds("// a comment\n"),
        vec![TokenKind::Newline, TokenKind::Eof]
    );
}

#[test]
fn single_char_operators() {
    assert_eq!(
        kinds("+ - * / ^"),
        vec![
            TokenKind::Plus, TokenKind::Minus, TokenKind::Star,
            TokenKind::Slash, TokenKind::Caret, TokenKind::Eof,
        ]
    );
}

#[test]
fn comparison_operators() {
    assert_eq!(
        kinds("= == != < > <= >="),
        vec![
            TokenKind::Eq, TokenKind::EqEq, TokenKind::Neq,
            TokenKind::Lt, TokenKind::Gt, TokenKind::Le, TokenKind::Ge,
            TokenKind::Eof,
        ]
    );
}

#[test]
fn delimiters() {
    assert_eq!(
        kinds("( ) [ ] { } : , ."),
        vec![
            TokenKind::LParen, TokenKind::RParen,
            TokenKind::LBracket, TokenKind::RBracket,
            TokenKind::LBrace, TokenKind::RBrace,
            TokenKind::Colon, TokenKind::Comma, TokenKind::Dot,
            TokenKind::Eof,
        ]
    );
}

#[test]
fn arrow_operator() {
    assert_eq!(
        kinds("-> -"),
        vec![TokenKind::Arrow, TokenKind::Minus, TokenKind::Eof]
    );
}

#[test]
fn keyword_lookup() {
    assert_eq!(TokenKind::keyword("let"), Some(TokenKind::Let));
    assert_eq!(TokenKind::keyword("function"), Some(TokenKind::Function));
    assert_eq!(TokenKind::keyword("foo"), None);
}

#[test]
fn token_construction() {
    let t = Token {
        kind: TokenKind::Int(42),
        span: Span::new(0, 2),
    };
    assert_eq!(t.kind, TokenKind::Int(42));
}

