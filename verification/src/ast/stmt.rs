//! Statement AST nodes.

use vstd::prelude::*;
use crate::ast::expr::Expr;
use crate::ast::ty::Type;
use crate::ids::NodeId;
use crate::source::Span;

verus! {

#[derive(Debug, PartialEq)]
pub struct Block {
    pub stmts: Vec<Stmt>,
    pub span: Span,
    pub id: NodeId,
}

#[derive(Debug, PartialEq)]
pub struct Stmt {
    pub kind: StmtKind,
    pub span: Span,
    pub id: NodeId,
}

#[derive(Debug, PartialEq)]
pub enum StmtKind {
    Let(LetStmt),
    Assign(String, Expr),
    Expr(Expr),
    Return(Option<Expr>),
    For(ForStmt),
    While(WhileStmt),
}

#[derive(Debug, PartialEq)]
pub struct LetStmt {
    pub name: String,
    pub ty: Type,
    pub init: Expr,
}

/// A `for` loop. Each variant carries parser-minted binding NodeIds for its
/// loop variable(s); the resolver keys each loop variable's DefId by them.
#[derive(Debug, PartialEq)]
pub enum ForStmt {
    Range { var: String, var_id: NodeId, start: Expr, end: Expr, body: Block },
    Iter { var: String, var_id: NodeId, iter: Expr, body: Block },
    IterKV { key: String, key_id: NodeId, value: String, value_id: NodeId, iter: Expr, body: Block },
}

#[derive(Debug, PartialEq)]
pub struct WhileStmt {
    pub cond: Expr,
    pub body: Block,
}

} // verus!
