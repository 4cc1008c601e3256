#![allow(unused_imports)]
use dyne::ast::{BinOp, Expr, ExprKind, Pattern, PatternKind, StmtKind, UnaryOp};
use dyne::lexer::{tokenize, TokenKind};
use dyne::parser::expr::{parse_expr, parse_pattern};
use dyne::parser::Parser;

fn parse(source: &str) -> Expr {
    let toks = tokenize(source).unwrap();
    let mut p = Parser::new(toks);
    parse_expr(&mut p).unwrap()
}

fn parse_pat(source: &str) -> Pattern {
    let toks = tokenize(source).unwrap();
    let mut p = Parser::new(toks);
    parse_pattern(&mut p).unwrap()
}

#[test]
fn int_literal() {
    assert_eq!(parse("42").kind, ExprKind::IntLit(42));
}

#[test]
fn float_literal() {
    assert!(matches!(parse("3.14").kind, ExprKind::FloatLit(_)));
}

#[test]
fn string_literal() {
    assert_eq!(parse(r#""hello""#).kind, ExprKind::StrLit("hello".into()));
}

#[test]
fn bool_literals() {
    assert_eq!(parse("true").kind, ExprKind::BoolLit(true));
    assert_eq!(parse("false").kind, ExprKind::BoolLit(false));
}

#[test]
fn identifier() {
    assert_eq!(parse("x").kind, ExprKind::Ident("x".into()));
}

#[test]
fn parenthesized() {
    assert_eq!(parse("(42)").kind, ExprKind::IntLit(42));
}

#[test]
fn vector_literal() {
    match parse("[1.0, 2.0, 3.0]").kind {
        ExprKind::VecLit(v) => assert_eq!(v.len(), 3),
        _ => panic!("expected VecLit"),
    }
}

#[test]
fn matrix_literal() {
    match parse("[[1.0, 0.0], [0.0, 1.0]]").kind {
        ExprKind::MatLit(m) => {
            assert_eq!(m.len(), 2);
            assert_eq!(m[0].len(), 2);
        }
        _ => panic!("expected MatLit"),
    }
}

#[test]
fn multi_line_vector_literal() {
    let src = "[\n  1.0,\n  2.0,\n  3.0\n]";
    match parse(src).kind {
        ExprKind::VecLit(v) => assert_eq!(v.len(), 3),
        other => panic!("expected VecLit, got {other:?}"),
    }
}

#[test]
fn multi_line_matrix_literal() {
    let src = "[\n  [1.0, 0.0, 0.0],\n  [0.0, 1.0, 0.0],\n  [0.0, 0.0, 1.0]\n]";
    match parse(src).kind {
        ExprKind::MatLit(m) => {
            assert_eq!(m.len(), 3);
            assert_eq!(m[0].len(), 3);
        }
        other => panic!("expected MatLit, got {other:?}"),
    }
}

#[test]
fn trailing_comma_vector_literal() {
    match parse("[1.0, 2.0, 3.0,]").kind {
        ExprKind::VecLit(v) => assert_eq!(v.len(), 3),
        other => panic!("expected VecLit, got {other:?}"),
    }
}

#[test]
fn trailing_comma_matrix_rows() {
    match parse("[[1, 2], [3, 4],]").kind {
        ExprKind::MatLit(m) => assert_eq!(m.len(), 2),
        other => panic!("expected MatLit, got {other:?}"),
    }
}

#[test]
fn trailing_comma_inside_matrix_row() {
    match parse("[[1, 2,], [3, 4,]]").kind {
        ExprKind::MatLit(m) => {
            assert_eq!(m.len(), 2);
            assert_eq!(m[0].len(), 2);
        }
        other => panic!("expected MatLit, got {other:?}"),
    }
}

#[test]
fn multi_line_with_trailing_comma_combined() {
    let src = "[\n  1.0,\n  2.0,\n  3.0,\n]";
    match parse(src).kind {
        ExprKind::VecLit(v) => assert_eq!(v.len(), 3),
        other => panic!("expected VecLit, got {other:?}"),
    }
}

#[test]
fn addition() {
    let e = parse("1 + 2");
    match e.kind {
        ExprKind::BinOp(BinOp::Add, _, _) => {}
        _ => panic!("expected Add"),
    }
}

#[test]
fn precedence_mul_over_add() {
    let e = parse("1 + 2 * 3");
    match e.kind {
        ExprKind::BinOp(BinOp::Add, lhs, rhs) => {
            assert_eq!(lhs.kind, ExprKind::IntLit(1));
            match rhs.kind {
                ExprKind::BinOp(BinOp::Mul, _, _) => {}
                _ => panic!("expected Mul on right"),
            }
        }
        _ => panic!("expected Add at root"),
    }
}

#[test]
fn pow_right_associative() {
    let e = parse("2 ^ 3 ^ 2");
    match e.kind {
        ExprKind::BinOp(BinOp::Pow, lhs, rhs) => {
            assert_eq!(lhs.kind, ExprKind::IntLit(2));
            match rhs.kind {
                ExprKind::BinOp(BinOp::Pow, _, _) => {}
                _ => panic!("expected nested Pow on right"),
            }
        }
        _ => panic!("expected Pow at root"),
    }
}

#[test]
fn unary_neg() {
    let e = parse("-x");
    match e.kind {
        ExprKind::UnaryOp(UnaryOp::Neg, _) => {}
        _ => panic!("expected Neg"),
    }
}

#[test]
fn neg_binds_below_pow() {
    let e = parse("-x^2");
    match e.kind {
        ExprKind::UnaryOp(UnaryOp::Neg, inner) => {
            assert!(matches!(inner.kind, ExprKind::BinOp(BinOp::Pow, _, _)));
        }
        _ => panic!("expected Neg(Pow), got {:?}", e.kind),
    }
}

#[test]
fn neg_with_pow_chain() {
    let e = parse("-2^3^4");
    match e.kind {
        ExprKind::UnaryOp(UnaryOp::Neg, inner) => match inner.kind {
            ExprKind::BinOp(BinOp::Pow, lhs, rhs) => {
                assert_eq!(lhs.kind, ExprKind::IntLit(2));
                assert!(matches!(rhs.kind, ExprKind::BinOp(BinOp::Pow, _, _)));
            }
            _ => panic!("expected outer Pow inside Neg"),
        },
        _ => panic!("expected Neg(Pow), got {:?}", e.kind),
    }
}

#[test]
fn neg_binds_above_mul() {
    let e = parse("-x * y");
    match e.kind {
        ExprKind::BinOp(BinOp::Mul, lhs, _) => {
            assert!(matches!(lhs.kind, ExprKind::UnaryOp(UnaryOp::Neg, _)));
        }
        _ => panic!("expected Mul at root, got {:?}", e.kind),
    }
}

#[test]
fn neg_call_remains_postfix() {
    let e = parse("-f(x)");
    match e.kind {
        ExprKind::UnaryOp(UnaryOp::Neg, inner) => {
            assert!(matches!(inner.kind, ExprKind::Call(_, _)));
        }
        _ => panic!("expected Neg(Call), got {:?}", e.kind),
    }
}

#[test]
fn unary_not() {
    let e = parse("not true");
    match e.kind {
        ExprKind::UnaryOp(UnaryOp::Not, _) => {}
        _ => panic!("expected Not"),
    }
}

#[test]
fn not_binds_below_comparison() {
    let e = parse("not 1 == 2");
    match e.kind {
        ExprKind::UnaryOp(UnaryOp::Not, inner) => {
            assert!(matches!(inner.kind, ExprKind::BinOp(BinOp::Eq, _, _)));
        }
        _ => panic!("expected Not(Eq), got {:?}", e.kind),
    }
}

#[test]
fn not_binds_below_arithmetic() {
    let e = parse("not 1 + 2");
    match e.kind {
        ExprKind::UnaryOp(UnaryOp::Not, inner) => {
            assert!(matches!(inner.kind, ExprKind::BinOp(BinOp::Add, _, _)));
        }
        _ => panic!("expected Not(Add), got {:?}", e.kind),
    }
}

#[test]
fn not_with_logical_and() {
    let e = parse("a or not b and c");
    match e.kind {
        ExprKind::BinOp(BinOp::Or, _, rhs) => match rhs.kind {
            ExprKind::BinOp(BinOp::And, lhs2, _) => {
                assert!(matches!(lhs2.kind, ExprKind::UnaryOp(UnaryOp::Not, _)));
            }
            _ => panic!("expected And on rhs of Or"),
        },
        _ => panic!("expected Or at root, got {:?}", e.kind),
    }
}

#[test]
fn logical_precedence() {
    let e = parse("a and b or c");
    match e.kind {
        ExprKind::BinOp(BinOp::Or, lhs, _) => match lhs.kind {
            ExprKind::BinOp(BinOp::And, _, _) => {}
            _ => panic!("expected And inside Or"),
        },
        _ => panic!("expected Or at root"),
    }
}

#[test]
fn function_call() {
    let e = parse("f(1, 2)");
    match e.kind {
        ExprKind::Call(callee, args) => {
            assert_eq!(callee.kind, ExprKind::Ident("f".into()));
            assert_eq!(args.len(), 2);
        }
        _ => panic!("expected Call"),
    }
}

#[test]
fn function_call_multi_line_args() {
    let e = parse("f(\n  1,\n  2,\n  3\n)");
    match e.kind {
        ExprKind::Call(_, args) => assert_eq!(args.len(), 3),
        other => panic!("expected Call, got {other:?}"),
    }
}

#[test]
fn function_call_trailing_comma() {
    let e = parse("f(1, 2,)");
    match e.kind {
        ExprKind::Call(_, args) => assert_eq!(args.len(), 2),
        other => panic!("expected Call, got {other:?}"),
    }
}

#[test]
fn function_call_multi_line_with_trailing_comma() {
    let e = parse("f(\n  1,\n  2,\n)");
    match e.kind {
        ExprKind::Call(_, args) => assert_eq!(args.len(), 2),
        other => panic!("expected Call, got {other:?}"),
    }
}

#[test]
fn indexing() {
    let e = parse("a[0]");
    match e.kind {
        ExprKind::Index(obj, idx) => {
            assert_eq!(obj.kind, ExprKind::Ident("a".into()));
            assert_eq!(idx.kind, ExprKind::IntLit(0));
        }
        _ => panic!("expected Index"),
    }
}

#[test]
fn field_access() {
    let e = parse("p.q");
    match e.kind {
        ExprKind::FieldAccess(obj, field) => {
            assert_eq!(obj.kind, ExprKind::Ident("p".into()));
            assert_eq!(field, "q");
        }
        _ => panic!("expected FieldAccess"),
    }
}

#[test]
fn chained_postfix() {
    let e = parse("a.b[0](x)");
    if let ExprKind::Call(callee, _) = e.kind {
        if let ExprKind::Index(obj, _) = callee.kind {
            if let ExprKind::FieldAccess(inner, field) = obj.kind {
                assert_eq!(inner.kind, ExprKind::Ident("a".into()));
                assert_eq!(field, "b");
                return;
            }
        }
    }
    panic!("chained postfix structure mismatch");
}

#[test]
fn if_then_else_end() {
    let source = "if x > 0 then\n  return 1\nelse\n  return -1\nend";
    let toks = tokenize(source).unwrap();
    let mut p = Parser::new(toks);
    let e = parse_expr(&mut p).unwrap();
    match e.kind {
        ExprKind::If(ie) => {
            assert!(ie.else_block.is_some());
            assert_eq!(ie.elseifs.len(), 0);
        }
        _ => panic!("expected If"),
    }
}

#[test]
fn if_with_elseif() {
    let source =
        "if x > 0 then\n  return 1\nelseif x == 0 then\n  return 0\nelse\n  return -1\nend";
    let toks = tokenize(source).unwrap();
    let mut p = Parser::new(toks);
    let e = parse_expr(&mut p).unwrap();
    if let ExprKind::If(ie) = e.kind {
        assert_eq!(ie.elseifs.len(), 1);
    } else {
        panic!("expected If");
    }
}

#[test]
fn struct_lit_simple() {
    let e = parse("Point { x: 1.0, y: 2.0 }");
    match e.kind {
        ExprKind::StructLit(name, fields) => {
            assert_eq!(name, "Point");
            assert_eq!(fields.len(), 2);
            assert_eq!(fields[0].0, "x");
            assert_eq!(fields[1].0, "y");
        }
        other => panic!("expected StructLit, got {other:?}"),
    }
}

#[test]
fn struct_lit_empty() {
    let e = parse("Marker {}");
    match e.kind {
        ExprKind::StructLit(name, fields) => {
            assert_eq!(name, "Marker");
            assert!(fields.is_empty());
        }
        other => panic!("expected StructLit, got {other:?}"),
    }
}

#[test]
fn struct_lit_multi_line() {
    let e = parse("State {\n  q: [1.0, 0.0, 0.0],\n  p: [0.0, 1.0, 0.0],\n  t: 0.0,\n}");
    match e.kind {
        ExprKind::StructLit(_, fields) => assert_eq!(fields.len(), 3),
        other => panic!("expected StructLit, got {other:?}"),
    }
}

#[test]
fn struct_lit_used_in_let() {
    let toks = tokenize("let s: State = State { q: 1.0, p: 0.0 }").unwrap();
    let mut parser = Parser::new(toks);
    let prog = dyne::parser::stmt::parse_program(&mut parser).unwrap();
    assert_eq!(prog.items.len(), 1);
}

#[test]
fn lbrace_after_non_ident_does_not_form_struct_lit() {
    let toks = tokenize("f() { x: 1 }").unwrap();
    let mut p = Parser::new(toks);
    let e = parse_expr(&mut p).unwrap();
    assert!(matches!(e.kind, ExprKind::Call(_, _)));
    assert!(matches!(p.peek_kind(), TokenKind::LBrace));
}

#[test]
fn struct_lit_non_ident_field_rejected() {
    let toks = tokenize("Point { 1: x }").unwrap();
    let mut p = Parser::new(toks);
    let err = parse_expr(&mut p).unwrap_err();
    assert!(err.message.contains("expected field name"));
}

#[test]
fn match_simple() {
    let e = parse("match x\n  case Some(v) then\n    v\n  case None then\n    0\nend");
    match e.kind {
        ExprKind::Match(scrutinee, arms) => {
            assert!(matches!(scrutinee.kind, ExprKind::Ident(_)));
            assert_eq!(arms.len(), 2);
        }
        other => panic!("expected Match, got {other:?}"),
    }
}

#[test]
fn match_with_wildcard() {
    let e = parse("match x\n  case 0 then\n    1\n  case _ then\n    0\nend");
    if let ExprKind::Match(_, arms) = e.kind {
        assert_eq!(arms.len(), 2);
        assert!(matches!(
            arms[0].pattern.kind,
            dyne::ast::PatternKind::IntLit(0)
        ));
        assert!(matches!(
            arms[1].pattern.kind,
            dyne::ast::PatternKind::Wildcard
        ));
    } else {
        panic!("expected Match");
    }
}

#[test]
fn match_with_int_literal_payload_arm() {
    let e = parse(
        "match x\n  case Some(0) then\n    1\n  case Some(n) then\n    n\n  case None then\n    0\nend",
    );
    if let ExprKind::Match(_, arms) = e.kind {
        assert_eq!(arms.len(), 3);
    } else {
        panic!("expected Match");
    }
}

#[test]
fn match_zero_arms_rejected() {
    let toks = tokenize("match x\nend").unwrap();
    let mut p = Parser::new(toks);
    let err = parse_expr(&mut p).unwrap_err();
    assert!(err.message.contains("at least one"));
}

#[test]
fn match_arm_multi_statement_body() {
    let src = "match x\n  case Some(v) then\n    let r: Int = v + 1\n    r\n  case None then\n    0\nend";
    let e = parse(src);
    if let ExprKind::Match(_, arms) = e.kind {
        assert_eq!(arms[0].body.stmts.len(), 2);
        assert_eq!(arms[1].body.stmts.len(), 1);
    } else {
        panic!("expected Match");
    }
}

#[test]
fn match_used_in_let_init() {
    let src = "let n: Int = match opt\n  case Some(v) then v\n  case None then 0\nend";
    let toks = tokenize(src).unwrap();
    let mut parser = Parser::new(toks);
    let prog = dyne::parser::stmt::parse_program(&mut parser).unwrap();
    assert_eq!(prog.items.len(), 1);
}

#[test]
fn match_missing_case_keyword_rejected() {
    let toks = tokenize("match x\n  Some(v) then\n    v\nend").unwrap();
    let mut p = Parser::new(toks);
    let err = parse_expr(&mut p).unwrap_err();
    assert!(err.message.contains("'case'"));
}

#[test]
fn match_missing_then_keyword_rejected() {
    let toks = tokenize("match x\n  case Some(v)\n    v\nend").unwrap();
    let mut p = Parser::new(toks);
    let err = parse_expr(&mut p).unwrap_err();
    assert!(err.message.contains("'then'"));
}

#[test]
fn match_eof_inside_expression_rejected() {
    let toks = tokenize("match x\n").unwrap();
    let mut p = Parser::new(toks);
    let err = parse_expr(&mut p).unwrap_err();
    assert!(
        err.message
            .contains("unexpected end of input inside match expression")
    );
}

#[test]
fn match_eof_inside_arm_body_rejected() {
    let toks = tokenize("match x\n  case _ then\n").unwrap();
    let mut p = Parser::new(toks);
    let err = parse_expr(&mut p).unwrap_err();
    assert!(
        err.message
            .contains("unexpected end of input inside match arm body")
    );
}


#[test]
fn pattern_wildcard() {
    let p = parse_pat("_");
    assert!(matches!(p.kind, dyne::ast::PatternKind::Wildcard));
}

#[test]
fn pattern_ident_binding() {
    let p = parse_pat("x");
    match p.kind {
        dyne::ast::PatternKind::Ident(name) => assert_eq!(name, "x"),
        other => panic!("expected Ident, got {other:?}"),
    }
}

#[test]
fn pattern_no_payload_variant_parses_as_ident() {
    let p = parse_pat("None");
    match p.kind {
        dyne::ast::PatternKind::Ident(name) => assert_eq!(name, "None"),
        other => panic!("expected Ident, got {other:?}"),
    }
}

#[test]
fn pattern_variant_one_payload() {
    let p = parse_pat("Some(x)");
    match p.kind {
        dyne::ast::PatternKind::Variant(name, payload) => {
            assert_eq!(name, "Some");
            assert_eq!(payload.len(), 1);
            assert!(matches!(payload[0].kind, dyne::ast::PatternKind::Ident(_)));
        }
        other => panic!("expected Variant, got {other:?}"),
    }
}

#[test]
fn pattern_variant_multi_payload() {
    let p = parse_pat("Total(a, b)");
    match p.kind {
        dyne::ast::PatternKind::Variant(name, payload) => {
            assert_eq!(name, "Total");
            assert_eq!(payload.len(), 2);
        }
        other => panic!("expected Variant, got {other:?}"),
    }
}

#[test]
fn pattern_nested_variant() {
    let p = parse_pat("Ok(Some(x))");
    match p.kind {
        dyne::ast::PatternKind::Variant(name, payload) => {
            assert_eq!(name, "Ok");
            assert_eq!(payload.len(), 1);
            assert!(matches!(
                payload[0].kind,
                dyne::ast::PatternKind::Variant(_, _)
            ));
        }
        other => panic!("expected Variant, got {other:?}"),
    }
}

#[test]
fn pattern_variant_multi_line_payload() {
    let p = parse_pat("Total(\n  a,\n  b,\n)");
    match p.kind {
        dyne::ast::PatternKind::Variant(_, payload) => assert_eq!(payload.len(), 2),
        other => panic!("expected Variant, got {other:?}"),
    }
}

#[test]
fn pattern_int_literal() {
    let p = parse_pat("42");
    assert_eq!(p.kind, dyne::ast::PatternKind::IntLit(42));
}

#[test]
fn pattern_int_literal_negative() {
    let p = parse_pat("-1");
    assert_eq!(p.kind, dyne::ast::PatternKind::IntLit(-1));
}

#[test]
fn pattern_bool_literal_true() {
    let p = parse_pat("true");
    assert_eq!(p.kind, dyne::ast::PatternKind::BoolLit(true));
}

#[test]
fn pattern_bool_literal_false() {
    let p = parse_pat("false");
    assert_eq!(p.kind, dyne::ast::PatternKind::BoolLit(false));
}

#[test]
fn pattern_string_literal() {
    let p = parse_pat(r#""hello""#);
    assert_eq!(p.kind, dyne::ast::PatternKind::StrLit("hello".into()));
}

#[test]
fn pattern_variant_with_int_literal_payload() {
    let p = parse_pat("Some(0)");
    match p.kind {
        dyne::ast::PatternKind::Variant(name, payload) => {
            assert_eq!(name, "Some");
            assert_eq!(payload[0].kind, dyne::ast::PatternKind::IntLit(0));
        }
        other => panic!("expected Variant, got {other:?}"),
    }
}

#[test]
fn pattern_float_literal_rejected() {
    let toks = tokenize("3.14").unwrap();
    let mut p = Parser::new(toks);
    let err = parse_pattern(&mut p).unwrap_err();
    assert!(err.message.contains("floating-point"));
}

#[test]
fn pattern_negative_float_rejected() {
    let toks = tokenize("-3.14").unwrap();
    let mut p = Parser::new(toks);
    let err = parse_pattern(&mut p).unwrap_err();
    assert!(err.message.contains("floating-point"));
}

#[test]
fn pattern_minus_followed_by_non_int_rejected() {
    let toks = tokenize("-x").unwrap();
    let mut p = Parser::new(toks);
    let err = parse_pattern(&mut p).unwrap_err();
    assert!(err.message.contains("expected integer literal after '-'"));
}

#[test]
fn match_arm_body_span_does_not_include_next_case() {
    let src = "match x\n  case 0 then 1\n  case _ then 0\nend";
    let toks = tokenize(src).unwrap();
    let mut p = Parser::new(toks);
    let e = parse_expr(&mut p).unwrap();
    let ExprKind::Match(_, arms) = e.kind else {
        panic!("expected Match");
    };
    let body_text = &src[arms[0].body.span.start..arms[0].body.span.end];
    assert!(
        !body_text.contains("case"),
        "arm[0].body.span overshot into next case: {body_text:?}"
    );
}

#[test]
fn pattern_unsupported_token_rejected() {
    let toks = tokenize("+").unwrap();
    let mut p = Parser::new(toks);
    let err = parse_pattern(&mut p).unwrap_err();
    assert!(err.message.contains("expected pattern"));
}

#[test]
fn match_arm_body_two_stmts_on_one_line_rejected() {
    let toks = tokenize("match x\n  case _ then 1 1\nend").unwrap();
    let mut p = Parser::new(toks);
    let err = parse_expr(&mut p).unwrap_err();
    assert!(
        err.message
            .contains("expected newline after match arm statement")
    );
}

#[test]
fn pattern_variant_empty_payload_rejected() {
    let toks = tokenize("Foo()").unwrap();
    let mut p = Parser::new(toks);
    let err = parse_pattern(&mut p).unwrap_err();
    assert!(err.message.contains("empty payload list"));
}

#[test]
fn last_match_arm_body_span_does_not_include_end() {
    let src = "match x\n  case _ then 0\nend";
    let toks = tokenize(src).unwrap();
    let mut p = Parser::new(toks);
    let e = parse_expr(&mut p).unwrap();
    let ExprKind::Match(_, arms) = e.kind else {
        panic!("expected Match");
    };
    let body_text = &src[arms[0].body.span.start..arms[0].body.span.end];
    assert!(
        !body_text.contains("end"),
        "last arm body span includes 'end': {body_text:?}"
    );
}


fn parse_expr_of(src: &str) -> (Expr, bool) {
    let mut p = Parser::new(tokenize(src).unwrap());
    let e = parse_expr(&mut p).unwrap();
    let at_end = matches!(p.peek_kind(), TokenKind::Eof);
    (e, at_end)
}

#[test]
fn parenthesized_name_and_empty_vector_parse() {
    let (e, _) = parse_expr_of("(x)");
    assert!(matches!(e.kind, ExprKind::Ident(ref n) if n == "x"));
    let (e, _) = parse_expr_of("[]");
    assert!(matches!(e.kind, ExprKind::VecLit(ref es) if es.is_empty()));
}

#[test]
fn postfix_chain_ends_in_its_last_form() {
    let (e, at_end) = parse_expr_of("a.b[0](1)");
    assert!(matches!(e.kind, ExprKind::Call(_, ref args) if args.len() == 1));
    assert!(at_end);
    let (e, _) = parse_expr_of("a(1).b");
    assert!(matches!(e.kind, ExprKind::FieldAccess(_, ref f) if f == "b"));
}

#[test]
fn single_binder_variant_pattern_parses() {
    let mut p = Parser::new(tokenize("Some(x)").unwrap());
    let q = parse_pattern(&mut p).unwrap();
    match q.kind {
        PatternKind::Variant(n, subs) => {
            assert_eq!(n, "Some");
            assert_eq!(subs.len(), 1);
            assert!(matches!(subs[0].kind, PatternKind::Ident(ref x) if x == "x"));
        }
        _ => panic!("expected a variant pattern"),
    }
}

#[test]
fn plain_if_with_empty_branch_parses() {
    let (e, at_end) = parse_expr_of("if true then\nend");
    match e.kind {
        ExprKind::If(ie) => {
            assert!(ie.elseifs.is_empty());
            assert!(ie.else_block.is_none());
            assert!(ie.then_block.stmts.is_empty());
        }
        _ => panic!("expected an if expression"),
    }
    assert!(at_end);
}

#[test]
fn one_line_match_with_one_arm_parses() {
    let (e, at_end) = parse_expr_of("match m case x then end");
    assert!(matches!(e.kind, ExprKind::Match(_, ref arms) if arms.len() == 1));
    assert!(at_end);
}
