#![allow(unused_imports)]
use dyne::ast::{Type, TypeArg, TypeKind, UnitExprKind};
use dyne::lexer::tokenize;
use dyne::parser::types::parse_type;
use dyne::parser::Parser;

fn parse(source: &str) -> Type {
    let toks = tokenize(source).unwrap();
    let mut p = Parser::new(toks);
    parse_type(&mut p).unwrap()
}

#[test]
fn named_type() {
    let t = parse("Scalar");
    assert!(matches!(t.kind, TypeKind::Named(ref n) if n == "Scalar"));
}

#[test]
fn vec_with_int_arg() {
    let t = parse("Vec<3>");
    if let TypeKind::Generic(name, args) = t.kind {
        assert_eq!(name, "Vec");
        assert_eq!(args.len(), 1);
        assert!(matches!(args[0], dyne::ast::TypeArg::Int(3)));
    } else {
        panic!("expected Generic");
    }
}

#[test]
fn mat_with_two_ints() {
    let t = parse("Mat<2, 3>");
    if let TypeKind::Generic(name, args) = t.kind {
        assert_eq!(name, "Mat");
        assert_eq!(args.len(), 2);
    } else {
        panic!("expected Generic");
    }
}

#[test]
fn scalar_with_simple_unit() {
    let t = parse("Scalar<kg>");
    if let TypeKind::Generic(name, args) = t.kind {
        assert_eq!(name, "Scalar");
        assert_eq!(args.len(), 1);
        match &args[0] {
            dyne::ast::TypeArg::Type(inner) => {
                assert!(matches!(inner.kind, TypeKind::Named(ref n) if n == "kg"));
            }
            _ => panic!("expected Type for bare ident, got {:?}", args[0]),
        }
    } else {
        panic!("expected Generic");
    }
}

#[test]
fn scalar_with_compound_unit() {
    let t = parse("Scalar<kg*m/s^2>");
    if let TypeKind::Generic(name, args) = t.kind {
        assert_eq!(name, "Scalar");
        assert!(matches!(args[0], dyne::ast::TypeArg::Unit(_)));
    } else {
        panic!("expected Generic");
    }
}

#[test]
fn vec_with_unit() {
    let t = parse("Vec<3, m/s>");
    if let TypeKind::Generic(_, args) = t.kind {
        assert_eq!(args.len(), 2);
        assert!(matches!(args[0], dyne::ast::TypeArg::Int(3)));
        assert!(matches!(args[1], dyne::ast::TypeArg::Unit(_)));
    }
}

#[test]
fn function_type() {
    let t = parse("Fn(Scalar, Scalar) -> Scalar");
    if let TypeKind::Function(params, ret) = t.kind {
        assert_eq!(params.len(), 2);
        assert!(matches!(ret.kind, TypeKind::Named(ref n) if n == "Scalar"));
    } else {
        panic!("expected Function");
    }
}

#[test]
fn fn_type_params_accept_newlines_around_items() {
    let t = parse("Fn(\n  Scalar,\n  Scalar,\n) -> Scalar");
    if let TypeKind::Function(params, ret) = t.kind {
        assert_eq!(params.len(), 2);
        assert!(matches!(ret.kind, TypeKind::Named(ref n) if n == "Scalar"));
    } else {
        panic!("expected Function");
    }
}

