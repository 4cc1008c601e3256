use dyne::check;
use dyne::diag::{Diagnostic, Level};
use dyne::lexer::tokenize;
use dyne::parser::parse;

fn warnings_for(src: &str) -> Vec<Diagnostic> {
    let prog = parse(tokenize(src).unwrap()).unwrap();
    check(prog).expect("expected successful check").warnings
}

#[test]
fn canonical_accumulation_in_for_warns() {
    let w = warnings_for(
        "function s(): Scalar\n  let total: Scalar = 0.0\n  for i = 0, 3 do\n    total = total + 1.5\n  end\n  return total\nend",
    );
    assert_eq!(w.len(), 1, "warnings: {w:?}");
    assert_eq!(w[0].level, Level::Warning);
}

#[test]
fn commutative_accumulation_warns() {
    let w = warnings_for(
        "function s(): Scalar\n  let total: Scalar = 0.0\n  for i = 0, 3 do\n    total = 1.5 + total\n  end\n  return total\nend",
    );
    assert_eq!(w.len(), 1, "warnings: {w:?}");
}

#[test]
fn accumulation_in_while_warns() {
    let w = warnings_for(
        "function s(): Scalar\n  let total: Scalar = 0.0\n  while total < 10.0 do\n    total = total + 1.5\n  end\n  return total\nend",
    );
    assert_eq!(w.len(), 1, "warnings: {w:?}");
}

#[test]
fn computed_scalar_addend_warns() {
    let w = warnings_for(
        "function s(a: Scalar, b: Scalar): Scalar\n  let total: Scalar = 0.0\n  for i = 0, 3 do\n    total = total + a * b\n  end\n  return total\nend",
    );
    assert_eq!(w.len(), 1, "warnings: {w:?}");
}

#[test]
fn unit_carrying_accumulator_warns() {
    let w = warnings_for(
        "function s(x: Scalar<m>): Scalar<m>\n  let total: Scalar<m> = 0.0\n  for i = 0, 3 do\n    total = total + x\n  end\n  return total\nend",
    );
    assert_eq!(w.len(), 1, "warnings: {w:?}");
}

#[test]
fn accumulation_nested_in_if_inside_loop_warns() {
    let w = warnings_for(
        "function s(c: Bool): Scalar\n  let total: Scalar = 0.0\n  for i = 0, 3 do\n    if c then\n      total = total + 1.5\n    end\n  end\n  return total\nend",
    );
    assert_eq!(w.len(), 1, "warnings: {w:?}");
}

#[test]
fn int_accumulator_is_exact_no_warning() {
    let w = warnings_for(
        "function s(): Int\n  let total: Int = 0\n  for i = 0, 3 do\n    total = total + i\n  end\n  return total\nend",
    );
    assert!(w.is_empty(), "warnings: {w:?}");
}

#[test]
fn int_addend_no_warning() {
    let w = warnings_for(
        "function s(): Scalar\n  let total: Scalar = 0.0\n  for i = 0, 3 do\n    total = total + 1\n  end\n  return total\nend",
    );
    assert!(w.is_empty(), "warnings: {w:?}");
}

#[test]
fn subtraction_no_warning() {
    let w = warnings_for(
        "function s(): Scalar\n  let total: Scalar = 0.0\n  for i = 0, 3 do\n    total = total - 1.5\n  end\n  return total\nend",
    );
    assert!(w.is_empty(), "warnings: {w:?}");
}

#[test]
fn accumulation_outside_loop_no_warning() {
    let w = warnings_for(
        "function s(): Scalar\n  let total: Scalar = 0.0\n  total = total + 1.5\n  return total\nend",
    );
    assert!(w.is_empty(), "warnings: {w:?}");
}

#[test]
fn accumulation_after_loop_on_same_acc_warns_once() {
    let w = warnings_for(
        "function s(): Scalar\n  let total: Scalar = 0.0\n  for i = 0, 3 do\n    total = total + 1.5\n  end\n  total = total + 1.5\n  return total\nend",
    );
    assert_eq!(w.len(), 1, "warnings: {w:?}");
}

#[test]
fn non_accumulating_scalar_add_in_loop_no_warning() {
    let w = warnings_for(
        "function s(a: Scalar, b: Scalar): Scalar\n  let r: Scalar = 0.0\n  for i = 0, 3 do\n    r = a + b\n  end\n  return r\nend",
    );
    assert!(w.is_empty(), "warnings: {w:?}");
}

#[test]
fn accumulation_in_for_in_warns() {
    let w = warnings_for(
        "function s(xs: Array<Scalar>): Scalar\n  let total: Scalar = 0.0\n  for x in xs do\n    total = total + x\n  end\n  return total\nend",
    );
    assert_eq!(w.len(), 1, "warnings: {w:?}");
}

#[test]
fn warning_shape_label_and_note() {
    let src = "function s(): Scalar\n  let total: Scalar = 0.0\n  for i = 0, 3 do\n    total = total + 1.5\n  end\n  return total\nend";
    let w = warnings_for(src);
    assert_eq!(w[0].labels.len(), 1);
    assert_eq!(w[0].labels[0].1, "accumulator defined here");
    assert!(w[0].notes[0].contains("kahan_sum"));
    assert!(w[0].message.contains("floating-point accumulation"));
    let add_pos = src.find("total + 1.5").expect("addition in source");
    assert_eq!(
        w[0].span.start, add_pos,
        "primary span must be the addition expression"
    );
}

