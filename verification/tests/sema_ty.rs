use dyne::ids::DefId;
use dyne::sema::diag::{dimension_mismatch, not_callable};
use dyne::sema::dimension::Dimension;
use dyne::sema::resolve::{DefKind, DefinitionInfo, DefinitionTable};
use dyne::sema::ty::Ty;
use dyne::source::Span;

#[test]
fn ty_param_variant_compiles() {
    let _t = Ty::Param(0);
    let _u = Ty::Function(
        vec![Ty::Param(0)],
        Box::new(Ty::Enum(DefId(0), vec![Ty::Param(0)])),
    );
}

#[test]
fn dimension_mismatch_scalar_add_kg_vs_m() {
    let defs = DefinitionTable::new();
    let lhs = Ty::Scalar(Dimension([0, 1, 0, 0, 0, 0, 0]));
    let rhs = Ty::Scalar(Dimension([1, 0, 0, 0, 0, 0, 0]));
    let diag = dimension_mismatch(&defs, "+", Span::new(0, 1), &lhs, Span::new(4, 5), &rhs);
    assert_eq!(
        diag.message,
        "dimension mismatch in '+': left side has Scalar<kg>, but right side has Scalar<m>"
    );
    assert_eq!(diag.span, Span::new(0, 5));
    assert_eq!(diag.labels.len(), 2);
}

#[test]
fn dimension_mismatch_vec_dim_inconsistent() {
    let defs = DefinitionTable::new();
    let lhs = Ty::Vec(3, Dimension([1, 0, 0, 0, 0, 0, 0]));
    let rhs = Ty::Vec(3, Dimension([0, 1, 0, 0, 0, 0, 0]));
    let diag = dimension_mismatch(&defs, "-", Span::new(0, 1), &lhs, Span::new(4, 5), &rhs);
    assert_eq!(
        diag.message,
        "dimension mismatch in '-': left side has Vec<3, m>, but right side has Vec<3, kg>"
    );
    assert_eq!(diag.span, Span::new(0, 5));
    assert_eq!(diag.labels.len(), 2);
}

#[test]
fn dimension_mismatch_mat_against_dim_scalar() {
    let defs = DefinitionTable::new();
    let lhs = Ty::Mat(3, 3);
    let rhs = Ty::Scalar(Dimension([1, 0, -1, 0, 0, 0, 0]));
    let diag = dimension_mismatch(&defs, "*", Span::new(0, 1), &lhs, Span::new(4, 5), &rhs);
    assert_eq!(
        diag.message,
        "dimension mismatch in '*': left side has Mat<3, 3>, but right side has Scalar<m*s^-1>"
    );
    assert_eq!(diag.span, Span::new(0, 5));
    assert_eq!(diag.labels.len(), 2);
}

#[test]
fn format_ty_renders_enum_name_with_args() {

    let mut defs = DefinitionTable::new();
    defs.insert(
        DefId(3),
        DefinitionInfo {
            kind: DefKind::Enum,
            span: Span::new(0, 1),
            name: "Result".into(),
            type_params: vec!["T".into(), "E".into()],
        },
    );
    let ty = Ty::Enum(DefId(3), vec![Ty::Int, Ty::String]);
    let d = not_callable(&defs, Span::new(0, 1), &ty);
    assert_eq!(d.message, "type `Result<Int, String>` is not callable");
}

