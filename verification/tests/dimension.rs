use dyne::ast::{UnitExpr, UnitExprKind};
use dyne::ids::NodeId;
use dyne::sema::dimension::{eval_unit_expr, Dimension, OverflowError, UnitRegistry};
use dyne::source::Span;

fn synthetic_span() -> Span {
    Span::new(0, 0)
}

fn unit_atom(name: &str) -> UnitExpr {
    UnitExpr { kind: UnitExprKind::Atom(name.into()), span: synthetic_span(), id: NodeId(0) }
}

fn unit_mul(a: UnitExpr, b: UnitExpr) -> UnitExpr {
    UnitExpr { kind: UnitExprKind::Mul(Box::new(a), Box::new(b)), span: synthetic_span(), id: NodeId(0) }
}

fn unit_div(a: UnitExpr, b: UnitExpr) -> UnitExpr {
    UnitExpr { kind: UnitExprKind::Div(Box::new(a), Box::new(b)), span: synthetic_span(), id: NodeId(0) }
}

fn unit_pow(base: UnitExpr, n: i64) -> UnitExpr {
    UnitExpr { kind: UnitExprKind::Pow(Box::new(base), n), span: synthetic_span(), id: NodeId(0) }
}

#[test]
fn dimension_mul_pointwise_adds_elements() {
    let kg = Dimension([0, 1, 0, 0, 0, 0, 0]);
    let m_per_s = Dimension([1, 0, -1, 0, 0, 0, 0]);
    let result = kg.mul(m_per_s).unwrap();
    assert_eq!(result, Dimension([1, 1, -1, 0, 0, 0, 0]));
}

#[test]
fn dimension_mul_overflow_returns_err() {
    let big = Dimension([100, 0, 0, 0, 0, 0, 0]);
    let bigger = Dimension([50, 0, 0, 0, 0, 0, 0]);
    assert_eq!(big.mul(bigger), Err(OverflowError));
}

#[test]
fn dimension_div_pointwise_subtracts_elements() {
    let m = Dimension([1, 0, 0, 0, 0, 0, 0]);
    let s = Dimension([0, 0, 1, 0, 0, 0, 0]);
    let result = m.div(s).unwrap();
    assert_eq!(result, Dimension([1, 0, -1, 0, 0, 0, 0]));
}

#[test]
fn dimension_div_underflow_returns_err() {
    let small = Dimension([-100, 0, 0, 0, 0, 0, 0]);
    let big_pos = Dimension([50, 0, 0, 0, 0, 0, 0]);
    assert_eq!(small.div(big_pos), Err(OverflowError));
}

#[test]
fn dimension_pow_multiplies_elements_by_exponent() {
    let m = Dimension([1, 0, 0, 0, 0, 0, 0]);
    let result = m.pow(3).unwrap();
    assert_eq!(result, Dimension([3, 0, 0, 0, 0, 0, 0]));
}

#[test]
fn dimension_pow_overflow_returns_err() {
    let m_strong = Dimension([10, 0, 0, 0, 0, 0, 0]);
    assert_eq!(m_strong.pow(50), Err(OverflowError));
}

#[test]
fn dimension_pow_zero_yields_dimensionless() {
    let kg = Dimension([0, 1, 0, 0, 0, 0, 0]);
    assert_eq!(kg.pow(0).unwrap(), Dimension::zero());
}

#[test]
fn dimension_pow_negative_works() {
    let s = Dimension([0, 0, 1, 0, 0, 0, 0]);
    assert_eq!(s.pow(-2).unwrap(), Dimension([0, 0, -2, 0, 0, 0, 0]));
}

#[test]
fn dimension_pow_at_i8_max_boundary_succeeds() {
    let unit = Dimension([1, 0, 0, 0, 0, 0, 0]);
    assert_eq!(unit.pow(127).unwrap(), Dimension([127, 0, 0, 0, 0, 0, 0]));
}

#[test]
fn dimension_pow_overflows_just_above_max() {
    let two = Dimension([2, 0, 0, 0, 0, 0, 0]);
    assert_eq!(two.pow(127), Err(OverflowError));
}

#[test]
fn dimension_pow_at_i8_min_boundary_succeeds() {
    let unit = Dimension([1, 0, 0, 0, 0, 0, 0]);
    assert_eq!(unit.pow(-128).unwrap(), Dimension([-128, 0, 0, 0, 0, 0, 0]));
}

#[test]
fn dimension_pow_underflows_just_below_min() {
    let two = Dimension([2, 0, 0, 0, 0, 0, 0]);
    assert_eq!(two.pow(-128), Err(OverflowError));
}

#[test]
fn dimension_mul_at_i8_max_boundary_succeeds() {
    let a = Dimension([127, 0, 0, 0, 0, 0, 0]);
    assert_eq!(a.mul(Dimension::zero()).unwrap(), a);
}

#[test]
fn dimension_mul_overflows_just_above_max() {
    let a = Dimension([127, 0, 0, 0, 0, 0, 0]);
    let b = Dimension([1, 0, 0, 0, 0, 0, 0]);
    assert_eq!(a.mul(b), Err(OverflowError));
}

#[test]
fn dimension_mul_at_i8_min_boundary_succeeds() {
    let a = Dimension([-128, 0, 0, 0, 0, 0, 0]);
    assert_eq!(a.mul(Dimension::zero()).unwrap(), a);
}

#[test]
fn dimension_mul_underflows_just_below_min() {
    let a = Dimension([-128, 0, 0, 0, 0, 0, 0]);
    let b = Dimension([-1, 0, 0, 0, 0, 0, 0]);
    assert_eq!(a.mul(b), Err(OverflowError));
}

#[test]
fn dimension_div_at_i8_max_boundary_succeeds() {
    let a = Dimension([127, 0, 0, 0, 0, 0, 0]);
    assert_eq!(a.div(Dimension::zero()).unwrap(), a);
}

#[test]
fn dimension_div_overflows_just_above_max() {
    let a = Dimension([127, 0, 0, 0, 0, 0, 0]);
    let b = Dimension([-1, 0, 0, 0, 0, 0, 0]);
    assert_eq!(a.div(b), Err(OverflowError));
}

#[test]
fn dimension_div_at_i8_min_boundary_succeeds() {
    let a = Dimension([-128, 0, 0, 0, 0, 0, 0]);
    assert_eq!(a.div(Dimension::zero()).unwrap(), a);
}

#[test]
fn dimension_div_underflows_just_below_min() {
    let a = Dimension([-128, 0, 0, 0, 0, 0, 0]);
    let b = Dimension([1, 0, 0, 0, 0, 0, 0]);
    assert_eq!(a.div(b), Err(OverflowError));
}

#[test]
fn format_si_dimensionless_is_one() {
    assert_eq!(Dimension::zero().format_si(), "1");
}

#[test]
fn format_si_single_base_unit_no_exponent() {
    let m = Dimension([1, 0, 0, 0, 0, 0, 0]);
    assert_eq!(m.format_si(), "m");
}

#[test]
fn format_si_kg_no_exponent() {
    let kg = Dimension([0, 1, 0, 0, 0, 0, 0]);
    assert_eq!(kg.format_si(), "kg");
}

#[test]
fn format_si_negative_exponent() {
    let inv_s = Dimension([0, 0, -1, 0, 0, 0, 0]);
    assert_eq!(inv_s.format_si(), "s^-1");
}

#[test]
fn format_si_multi_component_force_in_base_form() {
    let newton_base = Dimension([1, 1, -2, 0, 0, 0, 0]);
    assert_eq!(newton_base.format_si(), "m*kg*s^-2");
}

#[test]
fn format_si_higher_positive_exponent() {
    let cubic_m = Dimension([3, 0, 0, 0, 0, 0, 0]);
    assert_eq!(cubic_m.format_si(), "m^3");
}

#[test]
fn format_si_skips_zero_exponents() {
    let acc_like = Dimension([2, 0, -1, 0, 0, 0, 0]);
    assert_eq!(acc_like.format_si(), "m^2*s^-1");
}

#[test]
fn format_si_renders_all_base_names() {
    let all_ones = Dimension([1, 1, 1, 1, 1, 1, 1]);
    assert_eq!(all_ones.format_si(), "m*kg*s*A*K*mol*cd");
}

#[test]
fn dimension_display_delegates_to_format_si() {
    let kg = Dimension([0, 1, 0, 0, 0, 0, 0]);
    assert_eq!(kg.format_si(), "kg");
    assert_eq!(Dimension::zero().format_si(), "1");
}

#[test]
fn unit_registry_si_base_seven() {
    assert_eq!(
        UnitRegistry::lookup("m"),
        Some(Dimension([1, 0, 0, 0, 0, 0, 0]))
    );
    assert_eq!(
        UnitRegistry::lookup("kg"),
        Some(Dimension([0, 1, 0, 0, 0, 0, 0]))
    );
    assert_eq!(
        UnitRegistry::lookup("s"),
        Some(Dimension([0, 0, 1, 0, 0, 0, 0]))
    );
    assert_eq!(
        UnitRegistry::lookup("A"),
        Some(Dimension([0, 0, 0, 1, 0, 0, 0]))
    );
    assert_eq!(
        UnitRegistry::lookup("K"),
        Some(Dimension([0, 0, 0, 0, 1, 0, 0]))
    );
    assert_eq!(
        UnitRegistry::lookup("mol"),
        Some(Dimension([0, 0, 0, 0, 0, 1, 0]))
    );
    assert_eq!(
        UnitRegistry::lookup("cd"),
        Some(Dimension([0, 0, 0, 0, 0, 0, 1]))
    );
}

#[test]
fn unit_registry_derived_newton() {
    assert_eq!(
        UnitRegistry::lookup("N"),
        Some(Dimension([1, 1, -2, 0, 0, 0, 0]))
    );
}

#[test]
fn unit_registry_derived_joule() {
    assert_eq!(
        UnitRegistry::lookup("J"),
        Some(Dimension([2, 1, -2, 0, 0, 0, 0]))
    );
}

#[test]
fn unit_registry_derived_watt() {
    assert_eq!(
        UnitRegistry::lookup("W"),
        Some(Dimension([2, 1, -3, 0, 0, 0, 0]))
    );
}

#[test]
fn unit_registry_derived_pascal() {
    assert_eq!(
        UnitRegistry::lookup("Pa"),
        Some(Dimension([-1, 1, -2, 0, 0, 0, 0]))
    );
}

#[test]
fn unit_registry_derived_hertz() {
    assert_eq!(
        UnitRegistry::lookup("Hz"),
        Some(Dimension([0, 0, -1, 0, 0, 0, 0]))
    );
}

#[test]
fn unit_registry_derived_coulomb() {
    assert_eq!(
        UnitRegistry::lookup("C"),
        Some(Dimension([0, 0, 1, 1, 0, 0, 0]))
    );
}

#[test]
fn unit_registry_derived_volt() {
    assert_eq!(
        UnitRegistry::lookup("V"),
        Some(Dimension([2, 1, -3, -1, 0, 0, 0]))
    );
}

#[test]
fn unit_registry_derived_ohm() {
    assert_eq!(
        UnitRegistry::lookup("Ω"),
        Some(Dimension([2, 1, -3, -2, 0, 0, 0]))
    );
}

#[test]
fn unit_registry_unknown_returns_none() {
    assert_eq!(UnitRegistry::lookup("unknown_unit"), None);
    assert_eq!(UnitRegistry::lookup("km"), None);
    assert_eq!(UnitRegistry::lookup("cm"), None);
}

#[test]
fn eval_unit_expr_atom_kg() {
    let u = unit_atom("kg");
    let mut diags = Vec::new();
    let dim = eval_unit_expr(&u, &mut diags);
    assert_eq!(dim, Ok(Dimension([0, 1, 0, 0, 0, 0, 0])));
    assert!(diags.is_empty());
}

#[test]
fn eval_unit_expr_unknown_atom_emits_diag_returns_err() {
    let u = unit_atom("xyz_unit");
    let mut diags = Vec::new();
    let dim = eval_unit_expr(&u, &mut diags);
    assert_eq!(dim, Err(()));
    assert_eq!(diags.len(), 1);
    assert!(diags[0].message.contains("unknown unit"));
    assert!(diags[0].message.contains("xyz_unit"));
}

#[test]
fn eval_unit_expr_mul_combines_dimensions() {
    let u = unit_mul(unit_atom("m"), unit_atom("s"));
    let mut diags = Vec::new();
    let dim = eval_unit_expr(&u, &mut diags);
    assert_eq!(dim, Ok(Dimension([1, 0, 1, 0, 0, 0, 0])));
    assert!(diags.is_empty());
}

#[test]
fn eval_unit_expr_div_subtracts_dimensions() {
    let u = unit_div(unit_atom("m"), unit_atom("s"));
    let mut diags = Vec::new();
    let dim = eval_unit_expr(&u, &mut diags);
    assert_eq!(dim, Ok(Dimension([1, 0, -1, 0, 0, 0, 0])));
}

#[test]
fn eval_unit_expr_pow_multiplies_exponent() {
    let u = unit_pow(unit_atom("m"), 2);
    let mut diags = Vec::new();
    let dim = eval_unit_expr(&u, &mut diags);
    assert_eq!(dim, Ok(Dimension([2, 0, 0, 0, 0, 0, 0])));
}

#[test]
fn eval_unit_expr_negative_exponent() {
    let u = unit_pow(unit_atom("s"), -1);
    let mut diags = Vec::new();
    let dim = eval_unit_expr(&u, &mut diags);
    assert_eq!(dim, Ok(Dimension([0, 0, -1, 0, 0, 0, 0])));
}

#[test]
fn eval_unit_expr_compound_meters_per_second_squared() {
    let u = unit_div(unit_atom("m"), unit_pow(unit_atom("s"), 2));
    let mut diags = Vec::new();
    let dim = eval_unit_expr(&u, &mut diags);
    assert_eq!(dim, Ok(Dimension([1, 0, -2, 0, 0, 0, 0])));
}

#[test]
fn eval_unit_expr_overflow_emits_dimension_overflow_diag() {
    let u = unit_pow(unit_pow(unit_atom("m"), 100), 2);
    let mut diags = Vec::new();
    let dim = eval_unit_expr(&u, &mut diags);
    assert_eq!(dim, Err(()));
    assert_eq!(diags.len(), 1);
    assert!(diags[0].message.contains("dimension component overflow"));
}

#[test]
fn eval_unit_expr_exponent_out_of_i8_range_diag() {
    let u = unit_pow(unit_atom("kg"), 1000);
    let mut diags = Vec::new();
    let dim = eval_unit_expr(&u, &mut diags);
    assert_eq!(dim, Err(()));
    assert_eq!(diags.len(), 1);
    assert!(diags[0].message.contains("out of valid range"));
    assert!(diags[0].message.contains("1000"));
}

#[test]
fn eval_unit_expr_derived_unit_lookup_force() {
    let u = unit_atom("N");
    let mut diags = Vec::new();
    let dim = eval_unit_expr(&u, &mut diags);
    assert_eq!(dim, Ok(Dimension([1, 1, -2, 0, 0, 0, 0])));
    assert!(diags.is_empty());
}


#[test]
fn eval_unit_expr_reports_each_unknown_atom_once_in_order() {
    let u = unit_mul(unit_atom("xyz"), unit_div(unit_atom("foo"), unit_atom("xyz")));
    let mut diags = Vec::new();
    let dim = eval_unit_expr(&u, &mut diags);
    assert_eq!(dim, Err(()));
    assert_eq!(diags.len(), 2);
    assert_eq!(diags[0].message, "unknown unit `xyz`");
    assert_eq!(diags[1].message, "unknown unit `foo`");
}

#[test]
fn eval_unit_expr_known_units_leave_diagnostics_alone() {
    let u = unit_div(unit_atom("m"), unit_atom("s"));
    let mut diags = Vec::new();
    let dim = eval_unit_expr(&u, &mut diags);
    assert_eq!(dim, Ok(Dimension([1, 0, -1, 0, 0, 0, 0])));
    assert!(diags.is_empty());
}
