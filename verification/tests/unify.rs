use dyne::sema::ty::Ty;
use dyne::sema::unify::Table;

#[test]
fn fresh_returns_distinct_ids() {
    let mut t = Table::new();
    assert_ne!(t.fresh(), t.fresh());
}

#[test]
fn unify_var_with_concrete_resolves() {
    let mut t = Table::new();
    let v = t.fresh();
    t.unify(&Ty::Var(v), &Ty::Int).unwrap();
    assert_eq!(t.resolve(&Ty::Var(v)), Ty::Int);
}

#[test]
fn unify_two_vars_chains() {
    let mut t = Table::new();
    let a = t.fresh();
    let b = t.fresh();
    t.unify(&Ty::Var(a), &Ty::Var(b)).unwrap();
    t.unify(&Ty::Var(b), &Ty::Bool).unwrap();
    assert_eq!(t.resolve(&Ty::Var(a)), Ty::Bool);
}

#[test]
fn unify_concrete_mismatch_errors() {
    let mut t = Table::new();
    assert!(t.unify(&Ty::Int, &Ty::Bool).is_err());
}

#[test]
fn unify_error_with_anything_succeeds() {
    let mut t = Table::new();
    t.unify(&Ty::Error, &Ty::Int).unwrap();
    t.unify(&Ty::Int, &Ty::Error).unwrap();
}

#[test]
fn unify_var_with_itself_is_no_op() {
    let mut t = Table::new();
    let v = t.fresh();
    t.unify(&Ty::Var(v), &Ty::Var(v)).unwrap();
    assert_eq!(t.resolve(&Ty::Var(v)), Ty::Var(v));
}

#[test]
fn unify_var_with_param_errors_without_polluting_table() {
    let mut t = Table::new();
    let v = t.fresh();
    assert!(t.unify(&Ty::Var(v), &Ty::Param(0)).is_err());
    assert_eq!(t.resolve(&Ty::Var(v)), Ty::Var(v));
    let w = t.fresh();
    assert!(t.unify(&Ty::Param(0), &Ty::Var(w)).is_err());
    assert_eq!(t.resolve(&Ty::Var(w)), Ty::Var(w));
}

