//! Type AST nodes.

use vstd::prelude::*;
use crate::ids::NodeId;
use crate::source::Span;

verus! {

#[derive(Debug, PartialEq)]
pub struct Type {
    pub kind: TypeKind,
    pub span: Span,
    pub id: NodeId,
}

#[derive(Debug, PartialEq)]
pub enum TypeKind {
    Named(String),
    Generic(String, Vec<TypeArg>),
    Function(Vec<Type>, Box<Type>),
}

#[derive(Debug, PartialEq)]
pub enum TypeArg {
    Type(Type),
    Int(i64),
    Unit(UnitExpr),
}

#[derive(Debug, PartialEq)]
pub struct UnitExpr {
    pub kind: UnitExprKind,
    pub span: Span,
    pub id: NodeId,
}

#[derive(Debug, PartialEq)]
pub enum UnitExprKind {
    Atom(String),
    Mul(Box<UnitExpr>, Box<UnitExpr>),
    Div(Box<UnitExpr>, Box<UnitExpr>),
    Pow(Box<UnitExpr>, i64),
}

} // verus!
