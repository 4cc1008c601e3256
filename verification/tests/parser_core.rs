#![allow(unused_imports)]
use dyne::lexer::{tokenize, TokenKind};
use dyne::parser::Parser;

#[test]
fn peek_and_advance() {
    let toks = tokenize("let x").unwrap();
    let mut p = Parser::new(toks);
    assert!(matches!(p.peek_kind(), TokenKind::Let));
    p.advance();
    assert!(matches!(p.peek_kind(), TokenKind::Ident(n) if n == "x"));
}

#[test]
fn expect_error_message() {
    let toks = tokenize("let").unwrap();
    let mut p = Parser::new(toks);
    p.advance();
    let err = p.expect(&TokenKind::Eq, "'='").unwrap_err();
    assert!(err.message.contains("expected '='"));
}

#[test]
fn consume_newlines_skips() {
    let toks = tokenize("\n\nlet").unwrap();
    let mut p = Parser::new(toks);
    p.consume_newlines();
    assert!(matches!(p.peek_kind(), TokenKind::Let));
}


#[test]
fn blank_token_stream_parses_to_an_empty_program() {
    let toks = tokenize("\n\n\n").unwrap();
    let prog = dyne::parser::parse(toks).unwrap();
    assert!(prog.items.is_empty());
    let toks = tokenize("").unwrap();
    let (prog, next) = dyne::parser::parse_with_node_offset(toks, 7).unwrap();
    assert!(prog.items.is_empty());
    assert_eq!(next, 8);
}

#[test]
fn plain_let_stream_parses_to_one_let_item() {
    let toks = tokenize("let x: Int = 1\n\n").unwrap();
    let prog = dyne::parser::parse(toks).unwrap();
    assert_eq!(prog.items.len(), 1);
    assert!(matches!(&prog.items[0], dyne::ast::Item::Let(l) if l.name == "x"));
}
