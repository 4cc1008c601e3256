//! Abstract syntax tree.

pub mod expr;
pub mod item;
pub mod node_ids;
pub mod stmt;
pub mod ty;

pub use expr::{BinOp, Expr, ExprKind, IfExpr, UnaryOp};
pub use item::{
    EnumDef, EnumVariant, FunctionDef, ImportItem, Item, LambdaBody, LambdaExpr, MatchArm, Param,
    Pattern, PatternKind, Program, StructDef, StructField,
};
pub use stmt::{Block, ForStmt, LetStmt, Stmt, StmtKind, WhileStmt};
pub use ty::{Type, TypeArg, TypeKind, UnitExpr, UnitExprKind};
