use dyne::ast::{EnumDef, EnumVariant, Type, TypeArg, TypeKind, UnitExpr, UnitExprKind};
use dyne::ids::NodeId;
use dyne::source::Span;

#[test]
fn named_scalar() {
    let t = Type {
        kind: TypeKind::Named("Scalar".into()),
        span: Span::new(0, 6),
        id: NodeId(0),
    };
    assert!(matches!(t.kind, TypeKind::Named(ref n) if n == "Scalar"));
}

#[test]
fn vec3_generic() {
    let t = Type {
        kind: TypeKind::Generic(
            "Vec".into(),
            vec![TypeArg::Int(3)],
        ),
        span: Span::new(0, 6),
        id: NodeId(0),
    };
    if let TypeKind::Generic(name, args) = &t.kind {
        assert_eq!(name, "Vec");
        assert_eq!(args.len(), 1);
        assert!(matches!(args[0], TypeArg::Int(3)));
    }
}

#[test]
fn scalar_with_unit() {
    let unit = UnitExpr {
        kind: UnitExprKind::Atom("kg".into()),
        span: Span::new(7, 9),
        id: NodeId(0),
    };
    let t = Type {
        kind: TypeKind::Generic(
            "Scalar".into(),
            vec![TypeArg::Unit(unit)],
        ),
        span: Span::new(0, 10),
        id: NodeId(0),
    };
    if let TypeKind::Generic(name, args) = &t.kind {
        assert_eq!(name, "Scalar");
        assert!(matches!(args[0], TypeArg::Unit(_)));
    }
}

#[test]
fn enum_with_variants() {
    let e = EnumDef {
        name: "Option".into(),
        type_params: vec!["T".into()],
        variants: vec![
            EnumVariant {
                name: "Some".into(),
                payload: vec![],
                span: Span::new(0, 4),
                id: NodeId(1),
            },
            EnumVariant {
                name: "None".into(),
                payload: vec![],
                span: Span::new(5, 9),
                id: NodeId(2),
            },
        ],
        span: Span::new(0, 10),
        id: NodeId(0),
    };
    assert_eq!(e.variants.len(), 2);
}

