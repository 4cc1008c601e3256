//! Top-level items and their supporting types.

use vstd::prelude::*;
use crate::ast::expr::Expr;
use crate::ast::stmt::{Block, LetStmt};
use crate::ast::ty::Type;
use crate::ids::NodeId;
use crate::source::Span;

verus! {

#[derive(Debug, PartialEq)]
pub struct Program {
    pub items: Vec<Item>,
    pub span: Span,
    pub id: NodeId,
}

#[derive(Debug, PartialEq)]
pub enum Item {
    Import(ImportItem),
    Function(FunctionDef),
    Let(LetStmt),
    Struct(StructDef),
    Enum(EnumDef),
}

#[derive(Debug, PartialEq)]
pub struct ImportItem {
    pub path: Vec<String>,
    pub span: Span,
}

#[derive(Debug, PartialEq)]
pub struct FunctionDef {
    pub name: String,
    pub params: Vec<Param>,
    pub return_ty: Type,
    pub body: Block,
    pub span: Span,
    pub id: NodeId,
}

#[derive(Debug, PartialEq)]
pub struct Param {
    pub name: String,
    pub ty: Type,
    pub span: Span,
    pub id: NodeId,
}

#[derive(Debug, PartialEq)]
pub struct LambdaExpr {
    pub params: Vec<Param>,
    pub return_ty: Option<Type>,
    pub body: LambdaBody,
}

#[derive(Debug, PartialEq)]
pub enum LambdaBody {
    Expr(Box<Expr>),
    Block(Block),
}

#[derive(Debug, PartialEq)]
pub struct StructDef {
    pub name: String,
    pub fields: Vec<StructField>,
    pub span: Span,
    pub id: NodeId,
}

#[derive(Debug, PartialEq)]
pub struct StructField {
    pub name: String,
    pub ty: Type,
    pub span: Span,
    pub id: NodeId,
}

#[derive(Debug, PartialEq)]
pub struct EnumDef {
    pub name: String,
    pub type_params: Vec<String>,
    pub variants: Vec<EnumVariant>,
    pub span: Span,
    pub id: NodeId,
}

#[derive(Debug, PartialEq)]
pub struct EnumVariant {
    pub name: String,
    pub payload: Vec<Type>,
    pub span: Span,
    pub id: NodeId,
}

#[derive(Debug, PartialEq)]
pub struct MatchArm {
    pub pattern: Pattern,
    pub body: Block,
    pub span: Span,
}

#[derive(Debug, PartialEq)]
pub struct Pattern {
    pub kind: PatternKind,
    pub span: Span,
    pub id: NodeId,
}

#[derive(Debug, PartialEq)]
pub enum PatternKind {
    Wildcard,
    Ident(String),
    Variant(String, Vec<Pattern>),
    IntLit(i64),
    BoolLit(bool),
    StrLit(String),
}

} // verus!
