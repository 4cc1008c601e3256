use dyne::check;
use dyne::diag::Diagnostic;
use dyne::lexer::tokenize;
use dyne::parser::parse;
use dyne::source::Span;

fn compile_src(src: &str) {
    let prog = parse(tokenize(src).unwrap()).unwrap();
    let _typed = check(prog).expect("ok");
}

fn diags_for(src: &str) -> Vec<Diagnostic> {
    let prog = parse(tokenize(src).unwrap()).unwrap();
    check(prog).expect_err("expected diags")
}

const VEC_REJECT_MSG: &str = "Vec operation not supported for these operands (Vec +/- Vec requires equal shape and dimension; use dot()/cross() for vector products; Vec scales by Scalar only)";

const MAT_REJECT_MSG: &str = "Mat operation not supported for these operands (Mat +/- Mat requires equal shape; Mat * Mat, Mat * Vec, and Mat scaled by a dimensionless Scalar are supported; matrix division/inverse and Vec * Mat are not)";

const POW_VEC_REJECT_MSG: &str = "`^` on a Vec is not supported (vector exponentiation is ambiguous; use dot(v, v) or norm(v) for squared magnitude)";

#[test]
fn synth_addition_int_int_returns_int() {
    compile_src("function f(): Int\n  return 1 + 2\nend");
}

#[test]
fn synth_addition_int_string_diag() {
    let diags = diags_for("function f(): Int\n  return 1 + \"x\"\nend");
    assert_eq!(diags.len(), 1, "diags: {:?}", diags);
    assert!(diags[0].message.contains("arithmetic"));
}

#[test]
fn arith_int_int_add_returns_int() {
    compile_src("function f(): Int\n  return 1 + 2\nend");
}

#[test]
fn arith_scalar_kg_plus_scalar_kg_returns_scalar_kg() {
    compile_src("function f(a: Scalar<kg>, b: Scalar<kg>): Scalar<kg>\n  return a + b\nend");
}

#[test]
fn arith_scalar_kg_plus_scalar_m_dim_mismatch_diag() {
    let diags =
        diags_for("function f(a: Scalar<kg>, b: Scalar<m>): Scalar<kg>\n  return a + b\nend");
    assert_eq!(diags.len(), 1, "diags: {diags:?}");
    assert_eq!(
        diags[0].message,
        "dimension mismatch in '+': left side has Scalar<kg>, but right side has Scalar<m>"
    );
}

#[test]
fn arith_int_plus_scalar_dimensionless_widens() {
    compile_src("function f(x: Scalar): Scalar\n  return 1 + x\nend");
}

#[test]
fn arith_int_plus_scalar_kg_dim_mismatch_diag() {
    let diags = diags_for("function f(x: Scalar<kg>): Scalar<kg>\n  return 1 + x\nend");
    assert_eq!(diags.len(), 1, "diags: {diags:?}");
    assert_eq!(
        diags[0].message,
        "dimension mismatch in '+': left side has Scalar, but right side has Scalar<kg>"
    );
}

#[test]
fn arith_scalar_kg_mul_scalar_m_returns_kg_times_m() {
    compile_src("function f(a: Scalar<kg>, b: Scalar<m>): Scalar<kg*m>\n  return a * b\nend");
}

#[test]
fn arith_scalar_kg_div_scalar_s_returns_kg_per_s() {
    compile_src("function f(a: Scalar<kg>, b: Scalar<s>): Scalar<kg/s>\n  return a / b\nend");
}

#[test]
fn arith_int_int_div_returns_int() {
    compile_src("function f(): Int\n  return 5 / 2\nend");
}

#[test]
fn arith_int_mul_scalar_kg_propagates_dim() {
    compile_src("function f(dt: Scalar<kg>): Scalar<kg>\n  return 5 * dt\nend");
}

#[test]
fn vec_add_same_shape_same_dim_returns_vec() {
    compile_src("function f(a: Vec<3, m>, b: Vec<3, m>): Vec<3, m>\n  return a + b\nend");
}

#[test]
fn vec_add_shape_mismatch_diag() {
    let diags = diags_for("function f(a: Vec<3>, b: Vec<2>): Vec<3>\n  return a + b\nend");
    assert_eq!(diags.len(), 1, "diags: {diags:?}");
    assert_eq!(
        diags[0].message,
        "shape mismatch in '+': left side has Vec<3>, but right side has Vec<2>"
    );
}

#[test]
fn vec_add_dim_mismatch_diag() {
    let diags =
        diags_for("function f(a: Vec<3, m>, b: Vec<3, kg>): Vec<3, m>\n  return a + b\nend");
    assert_eq!(diags.len(), 1, "diags: {diags:?}");
    assert_eq!(
        diags[0].message,
        "dimension mismatch in '+': left side has Vec<3, m>, but right side has Vec<3, kg>"
    );
}

#[test]
fn vec_shape_first_diag_when_both_mismatch() {
    let diags =
        diags_for("function f(a: Vec<3, m>, b: Vec<2, kg>): Vec<3, m>\n  return a + b\nend");
    assert_eq!(diags.len(), 1, "expected single shape diag, got: {diags:?}");
    assert_eq!(
        diags[0].message,
        "shape mismatch in '+': left side has Vec<3, m>, but right side has Vec<2, kg>"
    );
}

#[test]
fn vec_mul_scalar_propagates_dim() {
    compile_src("function f(v: Vec<3, m>, t: Scalar<s>): Vec<3, m*s>\n  return v * t\nend");
}

#[test]
fn scalar_mul_vec_commutative() {
    compile_src("function f(v: Vec<3, m>, t: Scalar<s>): Vec<3, m*s>\n  return t * v\nend");
}

#[test]
fn vec_div_scalar_subtracts_dim() {
    compile_src("function f(v: Vec<3, m>, t: Scalar<s>): Vec<3, m/s>\n  return v / t\nend");
}

#[test]
fn vec_mul_vec_rejected_diag() {
    let diags = diags_for("function f(a: Vec<3>, b: Vec<3>): Vec<3>\n  return a * b\nend");
    assert_eq!(diags.len(), 1, "diags: {diags:?}");
    assert_eq!(diags[0].message, VEC_REJECT_MSG);
}

#[test]
fn vec_plus_scalar_rejected_diag() {
    let diags = diags_for("function f(v: Vec<3>, s: Scalar): Vec<3>\n  return v + s\nend");
    assert_eq!(diags.len(), 1, "diags: {diags:?}");
    assert_eq!(diags[0].message, VEC_REJECT_MSG);
}

#[test]
fn scalar_div_vec_rejected() {
    let diags = diags_for("function f(v: Vec<3>, s: Scalar): Vec<3>\n  return s / v\nend");
    assert_eq!(diags.len(), 1, "diags: {diags:?}");
    assert_eq!(diags[0].message, VEC_REJECT_MSG);
}

#[test]
fn int_mul_vec_scales_unit_unchanged() {
    compile_src("function f(v: Vec<3, m>): Vec<3, m>\n  return 2 * v\nend");
}

#[test]
fn vec_mul_int_scales_unit_unchanged() {
    compile_src("function f(v: Vec<3, m>): Vec<3, m>\n  return v * 2\nend");
}

#[test]
fn vec_div_int_scales_unit_unchanged() {
    compile_src("function f(v: Vec<3, m>): Vec<3, m>\n  return v / 2\nend");
}

#[test]
fn scalar_mul_vec_still_works_regression() {
    compile_src("function f(v: Vec<3, m>): Vec<3, m>\n  return 2.0 * v\nend");
}

#[test]
fn int_plus_vec_rejected() {
    let diags = diags_for("function f(v: Vec<3>): Vec<3>\n  return 2 + v\nend");
    assert_eq!(diags.len(), 1, "diags: {diags:?}");
    assert_eq!(diags[0].message, VEC_REJECT_MSG);
}

#[test]
fn mat_add_same_shape_returns_mat() {
    compile_src("function f(a: Mat<2, 2>, b: Mat<2, 2>): Mat<2, 2>\n  return a + b\nend");
}

#[test]
fn mat_add_shape_mismatch_diag() {
    let diags =
        diags_for("function f(a: Mat<2, 2>, b: Mat<3, 3>): Mat<2, 2>\n  return a + b\nend");
    assert_eq!(diags.len(), 1, "diags: {diags:?}");
    assert_eq!(
        diags[0].message,
        "shape mismatch in '+': left side has Mat<2, 2>, but right side has Mat<3, 3>"
    );
}

#[test]
fn mat_mul_mat_compatible_shapes_returns_mat() {
    compile_src("function f(a: Mat<2, 3>, b: Mat<3, 4>): Mat<2, 4>\n  return a * b\nend");
}

#[test]
fn mat_mul_mat_shape_mismatch_diag() {
    let diags =
        diags_for("function f(a: Mat<2, 3>, b: Mat<2, 4>): Mat<2, 4>\n  return a * b\nend");
    assert_eq!(diags.len(), 1, "diags: {diags:?}");
    assert_eq!(
        diags[0].message,
        "shape mismatch in '*': left side has Mat<2, 3>, but right side has Mat<2, 4>"
    );
}

#[test]
fn mat_mul_vec_returns_vec_with_dim_through() {
    compile_src("function f(m: Mat<2, 3>, v: Vec<3, m/s>): Vec<2, m/s>\n  return m * v\nend");
}

#[test]
fn mat_mul_vec_arm_order_placeholder_replaced() {
    compile_src("function f(m: Mat<2, 3>, v: Vec<3>): Vec<2>\n  return m * v\nend");
}

#[test]
fn mat_mul_vec_shape_mismatch_diag() {
    let diags = diags_for("function f(m: Mat<2, 3>, v: Vec<2>): Vec<2>\n  return m * v\nend");
    assert_eq!(diags.len(), 1, "diags: {diags:?}");
    assert_eq!(
        diags[0].message,
        "shape mismatch in '*': left side has Mat<2, 3>, but right side has Vec<2>"
    );
}

#[test]
fn mat_mul_scalar_dimensionless_returns_mat() {
    compile_src("function f(m: Mat<2, 2>, s: Scalar): Mat<2, 2>\n  return m * s\nend");
}

#[test]
fn mat_div_scalar_dimensionless_returns_mat() {
    compile_src("function f(m: Mat<2, 2>, s: Scalar): Mat<2, 2>\n  return m / s\nend");
}

#[test]
fn mat_mul_scalar_with_dim_rejected_diag() {
    let diags =
        diags_for("function f(m: Mat<2, 2>, s: Scalar<m/s>): Mat<2, 2>\n  return m * s\nend");
    assert_eq!(diags.len(), 1, "diags: {diags:?}");
    assert_eq!(
        diags[0].message,
        "dimension mismatch in '*': left side has Mat<2, 2>, but right side has Scalar<m*s^-1>"
    );
}

#[test]
fn scalar_with_dim_mul_mat_rejected_diag() {
    let diags =
        diags_for("function f(m: Mat<2, 2>, s: Scalar<m/s>): Mat<2, 2>\n  return s * m\nend");
    assert_eq!(diags.len(), 1, "diags: {diags:?}");
    assert_eq!(
        diags[0].message,
        "dimension mismatch in '*': left side has Scalar<m*s^-1>, but right side has Mat<2, 2>"
    );
}

#[test]
fn vec_mul_mat_rejected() {
    let diags = diags_for("function f(m: Mat<2, 3>, v: Vec<2>): Vec<2>\n  return v * m\nend");
    assert_eq!(diags.len(), 1, "diags: {diags:?}");
    assert_eq!(diags[0].message, MAT_REJECT_MSG);
}

#[test]
fn mat_div_mat_rejected() {
    let diags =
        diags_for("function f(a: Mat<2, 2>, b: Mat<2, 2>): Mat<2, 2>\n  return a / b\nend");
    assert_eq!(diags.len(), 1, "diags: {diags:?}");
    assert_eq!(diags[0].message, MAT_REJECT_MSG);
}

#[test]
fn int_mul_mat_scales() {
    compile_src("function f(m: Mat<2, 2>): Mat<2, 2>\n  return 2 * m\nend");
}

#[test]
fn mat_mul_int_scales() {
    compile_src("function f(m: Mat<2, 2>): Mat<2, 2>\n  return m * 2\nend");
}

#[test]
fn mat_div_int_scales() {
    compile_src("function f(m: Mat<2, 2>): Mat<2, 2>\n  return m / 2\nend");
}

#[test]
fn scalar_mul_mat_still_works_regression() {
    compile_src("function f(m: Mat<2, 2>): Mat<2, 2>\n  return 2.0 * m\nend");
}

#[test]
fn int_plus_mat_rejected() {
    let diags = diags_for("function f(m: Mat<2, 2>): Mat<2, 2>\n  return 2 + m\nend");
    assert_eq!(diags.len(), 1, "diags: {diags:?}");
    assert_eq!(diags[0].message, MAT_REJECT_MSG);
}

#[test]
fn comparison_returns_bool() {
    compile_src("function f(): Bool\n  return 1 < 2\nend");
}

#[test]
fn logical_and_requires_both_bool() {
    let diags = diags_for("function f(): Bool\n  return true and 1\nend");
    assert_eq!(diags.len(), 1, "diags: {:?}", diags);
    assert!(diags[0].message.contains("logical"));
}

#[test]
fn unary_neg_on_bool_diag() {
    let diags = diags_for("function f(): Int\n  return -true\nend");
    assert_eq!(diags.len(), 1, "diags: {:?}", diags);
    assert!(diags[0].message.contains("unary"));
}

#[test]
fn unary_not_on_int_diag() {
    let diags = diags_for("function f(): Bool\n  return not 5\nend");
    assert_eq!(diags.len(), 1, "diags: {:?}", diags);
    assert!(diags[0].message.contains("not"));
}

#[test]
fn logical_and_diag_names_the_non_bool_operand() {
    let diags = diags_for("function f(): Bool\n  return true and 1\nend");
    assert_eq!(diags.len(), 1, "diags: {:?}", diags);
    assert!(
        diags[0].message.contains("`Int`"),
        "msg: {}",
        diags[0].message
    );
}

#[test]
fn pow_int_int_returns_int() {
    compile_src("function f(): Int\n  return 2 ^ 3\nend");
}

#[test]
fn pow_int_zero_exponent_returns_int() {
    compile_src("function f(): Int\n  return 2 ^ 0\nend");
}

#[test]
fn int_pow_negative_rejected() {
    let diags = diags_for("function f(): Int\n  return 2 ^ -1\nend");
    assert_eq!(diags.len(), 1, "diags: {diags:?}");
    assert_eq!(
        diags[0].message,
        "`^` on an Int with a negative exponent is not supported (convert to a float (Scalar) first)"
    );
}

#[test]
fn pow_bool_base_emits_diag() {
    let diags = diags_for("function f(): Int\n  return true ^ 2\nend");
    assert_eq!(diags.len(), 1, "diags: {:?}", diags);
    assert!(
        diags[0].message.contains("base"),
        "msg: {}",
        diags[0].message
    );
}

#[test]
fn pow_scalar_kg_squared_returns_kg_squared() {
    compile_src("function f(m: Scalar<kg>): Scalar<kg^2>\n  return m ^ 2\nend");
}

#[test]
fn pow_scalar_negative_exponent() {
    compile_src("function f(t: Scalar<s>): Scalar<s^-1>\n  return t ^ -1\nend");
}

#[test]
fn pow_non_intlit_exponent_diag() {
    let diags = diags_for("function f(): Int\n  let n: Int = 2\n  return 2 ^ n\nend");
    assert_eq!(diags.len(), 1, "diags: {diags:?}");
    assert_eq!(diags[0].message, "`^` exponent must be an integer literal");
}

#[test]
fn pow_vec_rejected_diag() {
    let diags = diags_for("function f(v: Vec<3, m>): Vec<3, m>\n  return v ^ 2\nend");
    assert_eq!(diags.len(), 1, "diags: {diags:?}");
    assert_eq!(diags[0].message, POW_VEC_REJECT_MSG);
}

#[test]
fn pow_square_mat_nonneg_returns_mat() {
    compile_src("function f(m: Mat<3, 3>): Mat<3, 3>\n  return m ^ 2\nend");
}

#[test]
fn pow_non_square_mat_diag() {
    let diags = diags_for("function f(m: Mat<2, 3>): Mat<2, 3>\n  return m ^ 2\nend");
    assert_eq!(diags.len(), 1, "diags: {diags:?}");
    assert_eq!(
        diags[0].message,
        "`^` on a Mat requires a square matrix, found Mat<2, 3>"
    );
}

#[test]
fn pow_mat_negative_exponent_diag() {
    let diags = diags_for("function f(m: Mat<3, 3>): Mat<3, 3>\n  return m ^ -1\nend");
    assert_eq!(diags.len(), 1, "diags: {diags:?}");
    assert_eq!(
        diags[0].message,
        "`^` on a Mat with a negative exponent (matrix inverse) is not supported"
    );
}

#[test]
fn pow_scalar_dim_overflow_diag() {
    let diags = diags_for("function f(x: Scalar<m^2>): Scalar\n  return x ^ 100\nend");
    assert_eq!(diags.len(), 1, "diags: {diags:?}");
    assert_eq!(
        diags[0].message,
        "dimension component overflow in unit expression"
    );
}

#[test]
fn pow_scalar_exponent_out_of_i8_range_diag() {
    let diags = diags_for("function f(x: Scalar<m>): Scalar\n  return x ^ 200\nend");
    assert_eq!(diags.len(), 1, "diags: {diags:?}");
    assert_eq!(
        diags[0].message,
        "unit exponent 200 out of valid range [-128, 127]"
    );
}

#[test]
fn no_cascade_in_chained_arithmetic() {
    let diags = diags_for("function f(): Int\n  return 1 + \"x\" + 2\nend");
    assert_eq!(diags.len(), 1, "diags: {:?}", diags);
    assert!(diags[0].message.contains("arithmetic"));
}

#[test]
fn vec_neg_in_int_context_emits_diag() {
    let diags = diags_for("function f(v: Vec<3>): Int\n  return -v\nend");
    assert_eq!(diags.len(), 1, "diags: {:?}", diags);
    assert!(
        diags[0].message.contains("Int"),
        "msg: {}",
        diags[0].message
    );
    assert!(
        diags[0].message.contains("Vec"),
        "msg: {}",
        diags[0].message
    );
}

#[test]
fn vec_add_in_int_context_emits_diag() {
    let diags = diags_for("function f(v: Vec<3>): Int\n  return v + v\nend");
    assert_eq!(diags.len(), 1, "diags: {:?}", diags);
    assert!(
        diags[0].message.contains("Int") && diags[0].message.contains("Vec"),
        "msg: {}",
        diags[0].message
    );
}

#[test]
fn vec_pow_in_int_context_emits_diag() {
    let diags = diags_for("function f(v: Vec<3>): Int\n  return v ^ 2\nend");
    assert_eq!(diags.len(), 1, "diags: {diags:?}");
    assert_eq!(diags[0].message, POW_VEC_REJECT_MSG);
}

#[test]
fn scalar_mul_wrong_return_dim_emits_diag() {
    let diags =
        diags_for("function f(a: Scalar<kg>, b: Scalar<m>): Scalar<s>\n  return a * b\nend");
    assert_eq!(diags.len(), 1, "diags: {diags:?}");
    assert_eq!(
        diags[0].message,
        "type mismatch: expected `Scalar<s>`, found `Scalar<m*kg>`"
    );
}

#[test]
fn vec_scale_wrong_return_dim_emits_diag() {
    let diags =
        diags_for("function f(v: Vec<3, m>, t: Scalar<s>): Vec<3, kg>\n  return v * t\nend");
    assert_eq!(diags.len(), 1, "diags: {diags:?}");
    assert_eq!(
        diags[0].message,
        "type mismatch: expected `Vec<3, kg>`, found `Vec<3, m*s>`"
    );
}

#[test]
fn scalar_pow_wrong_return_dim_emits_diag() {
    let diags = diags_for("function f(x: Scalar<kg>): Scalar<m>\n  return x ^ 2\nend");
    assert_eq!(diags.len(), 1, "diags: {diags:?}");
    assert_eq!(
        diags[0].message,
        "type mismatch: expected `Scalar<m>`, found `Scalar<kg^2>`"
    );
}

#[test]
fn scalar_div_wrong_return_dim_emits_diag() {
    let diags =
        diags_for("function f(a: Scalar<kg>, b: Scalar<s>): Scalar<m>\n  return a / b\nend");
    assert_eq!(diags.len(), 1, "diags: {diags:?}");
    assert_eq!(
        diags[0].message,
        "type mismatch: expected `Scalar<m>`, found `Scalar<kg*s^-1>`"
    );
}

#[test]
fn vec_div_scalar_wrong_return_dim_emits_diag() {
    let diags =
        diags_for("function f(v: Vec<3, m>, t: Scalar<s>): Vec<3, kg>\n  return v / t\nend");
    assert_eq!(diags.len(), 1, "diags: {diags:?}");
    assert_eq!(
        diags[0].message,
        "type mismatch: expected `Vec<3, kg>`, found `Vec<3, m*s^-1>`"
    );
}

#[test]
fn mat_mul_mat_wrong_return_shape_emits_diag() {
    let diags =
        diags_for("function f(a: Mat<2, 3>, b: Mat<3, 4>): Mat<3, 4>\n  return a * b\nend");
    assert_eq!(diags.len(), 1, "diags: {diags:?}");
    assert_eq!(
        diags[0].message,
        "type mismatch: expected `Mat<3, 4>`, found `Mat<2, 4>`"
    );
}

#[test]
fn mat_mul_vec_wrong_return_dim_emits_diag() {
    let diags =
        diags_for("function f(m: Mat<2, 3>, v: Vec<3, m/s>): Vec<2, kg>\n  return m * v\nend");
    assert_eq!(diags.len(), 1, "diags: {diags:?}");
    assert_eq!(
        diags[0].message,
        "type mismatch: expected `Vec<2, kg>`, found `Vec<2, m*s^-1>`"
    );
}

#[test]
fn mat_mul_scalar_wrong_return_shape_emits_diag() {
    let diags =
        diags_for("function f(a: Mat<2, 3>, s: Scalar): Mat<3, 2>\n  return a * s\nend");
    assert_eq!(diags.len(), 1, "diags: {diags:?}");
    assert_eq!(
        diags[0].message,
        "type mismatch: expected `Mat<3, 2>`, found `Mat<2, 3>`"
    );
}

#[test]
fn scalar_add_wrong_return_dim_emits_diag() {
    let diags =
        diags_for("function f(a: Scalar<kg>, b: Scalar<kg>): Scalar<m>\n  return a + b\nend");
    assert_eq!(diags.len(), 1, "diags: {diags:?}");
    assert_eq!(
        diags[0].message,
        "type mismatch: expected `Scalar<m>`, found `Scalar<kg>`"
    );
}

#[test]
fn mat_add_wrong_return_shape_emits_diag() {
    let diags =
        diags_for("function f(a: Mat<2, 3>, b: Mat<2, 3>): Mat<3, 2>\n  return a + b\nend");
    assert_eq!(diags.len(), 1, "diags: {diags:?}");
    assert_eq!(
        diags[0].message,
        "type mismatch: expected `Mat<3, 2>`, found `Mat<2, 3>`"
    );
}

#[test]
fn mat_pow_wrong_return_shape_emits_diag() {
    let diags = diags_for("function f(m: Mat<2, 2>): Mat<3, 3>\n  return m ^ 2\nend");
    assert_eq!(diags.len(), 1, "diags: {diags:?}");
    assert_eq!(
        diags[0].message,
        "type mismatch: expected `Mat<3, 3>`, found `Mat<2, 2>`"
    );
}


#[test]
fn dimension_mismatch_carries_operand_labels() {
    let src = "function f(a: Scalar<kg>, b: Scalar<m>): Scalar<kg>\n  return a + b\nend";
    let diags = diags_for(src);
    assert_eq!(diags.len(), 1, "diags: {diags:?}");
    let d = &diags[0];
    assert_eq!(d.labels.len(), 2, "labels: {:?}", d.labels);
    let a_pos = src.rfind("a + b").expect("operands in source");
    assert_eq!(d.labels[0].0, Span::new(a_pos, a_pos + 1), "left label span");
    assert_eq!(d.labels[1].0, Span::new(a_pos + 4, a_pos + 5), "right label span");
    assert_eq!(d.span, Span::merge(d.labels[0].0, d.labels[1].0), "merged primary");
    assert!(d.labels[0].1.contains("left side"));
    assert!(d.labels[1].1.contains("right side"));
}

#[test]
fn shape_mismatch_carries_operand_labels_with_spans() {
    let src = "function f(a: Vec<3>, b: Vec<2>): Vec<3>\n  return a + b\nend";
    let diags = diags_for(src);
    assert_eq!(diags.len(), 1, "diags: {diags:?}");
    let d = &diags[0];
    assert_eq!(d.labels.len(), 2, "labels: {:?}", d.labels);
    let a_pos = src.rfind("a + b").expect("operands in source");
    assert_eq!(d.labels[0].0, Span::new(a_pos, a_pos + 1), "left label span");
    assert_eq!(d.labels[1].0, Span::new(a_pos + 4, a_pos + 5), "right label span");
    assert_eq!(d.span, Span::merge(d.labels[0].0, d.labels[1].0), "merged primary");
    assert!(d.labels[0].1.contains("left side"));
    assert!(d.labels[1].1.contains("right side"));
}
