//! Expression AST nodes.

use vstd::prelude::*;
use crate::ast::item::{LambdaExpr, MatchArm};
use crate::ast::stmt::Block;
use crate::ids::NodeId;
use crate::source::Span;

verus! {

#[derive(Debug, PartialEq)]
pub struct Expr {
    pub kind: ExprKind,
    pub span: Span,
    pub id: NodeId,
}

/// Expression forms. A floating-point literal keeps its source spelling
/// (e.g. `"3.14"`, `"1.0e-10"`); the front end only ever needs its type.
#[derive(Debug, PartialEq)]
pub enum ExprKind {
    IntLit(i64),
    FloatLit(String),
    StrLit(String),
    BoolLit(bool),
    VecLit(Vec<Expr>),
    MatLit(Vec<Vec<Expr>>),
    Ident(String),
    BinOp(BinOp, Box<Expr>, Box<Expr>),
    UnaryOp(UnaryOp, Box<Expr>),
    Call(Box<Expr>, Vec<Expr>),
    Index(Box<Expr>, Box<Expr>),
    FieldAccess(Box<Expr>, String),
    Lambda(LambdaExpr),
    StructLit(String, Vec<(String, Expr)>),
    If(IfExpr),
    Match(Box<Expr>, Vec<MatchArm>),
    Block(Block),
}

#[derive(Debug, Clone, Copy, PartialEq, Eq, Structural)]
pub enum BinOp {
    Add,
    Sub,
    Mul,
    Div,
    Pow,
    Eq,
    Neq,
    Lt,
    Gt,
    Le,
    Ge,
    And,
    Or,
}

#[derive(Debug, Clone, Copy, PartialEq, Eq, Structural)]
pub enum UnaryOp {
    Neg,
    Not,
}

#[derive(Debug, PartialEq)]
pub struct IfExpr {
    pub cond: Box<Expr>,
    pub then_block: Block,
    pub elseifs: Vec<(Expr, Block)>,
    pub else_block: Option<Block>,
}

} // verus!
