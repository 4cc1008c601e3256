use dyne::ast::{BinOp, Expr, ExprKind, LetStmt, Program, Stmt, StmtKind, Type, TypeKind};
use dyne::ids::NodeId;
use dyne::source::Span;

#[test]
fn construct_int_lit() {
    let e = Expr {
        kind: ExprKind::IntLit(42),
        span: Span::new(0, 2),
        id: NodeId(0),
    };
    assert_eq!(e.kind, ExprKind::IntLit(42));
}

#[test]
fn construct_binop() {
    let lhs = Expr { kind: ExprKind::IntLit(1), span: Span::new(0, 1), id: NodeId(0) };
    let rhs = Expr { kind: ExprKind::IntLit(2), span: Span::new(4, 5), id: NodeId(1) };
    let e = Expr {
        kind: ExprKind::BinOp(BinOp::Add, Box::new(lhs), Box::new(rhs)),
        span: Span::new(0, 5),
        id: NodeId(2),
    };
    match e.kind {
        ExprKind::BinOp(BinOp::Add, _, _) => {}
        _ => panic!("expected BinOp::Add"),
    }
}

#[test]
fn construct_let_stmt() {
    let stmt = Stmt {
        kind: StmtKind::Let(LetStmt {
            name: "x".into(),
            ty: Type {
                kind: TypeKind::Named("Scalar".into()),
                span: Span::new(0, 6),
                id: NodeId(0),
            },
            init: Expr {
                kind: ExprKind::FloatLit("1.0".into()),
                span: Span::new(10, 13),
                id: NodeId(1),
            },
        }),
        span: Span::new(0, 13),
        id: NodeId(2),
    };
    if let StmtKind::Let(l) = &stmt.kind {
        assert_eq!(l.name, "x");
    } else {
        panic!("expected Let");
    }
}

#[test]
fn item_empty_program() {
    let p = Program {
        items: vec![],
        span: Span::new(0, 0),
        id: NodeId(0),
    };
    assert_eq!(p.items.len(), 0);
}
