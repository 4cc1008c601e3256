#![allow(unused_imports)]
use dyne::ast::{BinOp, ExprKind, Item, StmtKind};
use dyne::compile;
use dyne::diag::Phase;

#[test]
fn compile_empty_source_returns_empty_program() {
    let p = compile("").unwrap().program;
    assert_eq!(p.items.len(), 0);
}

#[test]
fn compile_single_let() {
    let p = compile("let x: Scalar = 1.0").unwrap().program;
    assert_eq!(p.items.len(), 1);
}

#[test]
fn compile_function() {
    let src = "function add(a: Scalar, b: Scalar): Scalar\n  return a + b\nend";
    let p = compile(src).unwrap().program;
    assert_eq!(p.items.len(), 1);
}

#[test]
fn lex_error_propagates() {
    let err = compile("@").unwrap_err();
    assert_eq!(err.len(), 1);
    assert_eq!(err[0].phase, dyne::diag::Phase::Lex);
}

#[test]
fn parse_error_propagates() {
    let err = compile("let").unwrap_err();
    assert_eq!(err.len(), 1);
    assert_eq!(err[0].phase, dyne::diag::Phase::Parse);
}

#[test]
fn harmonic_oscillator_like_snippet() {
let src = "\
let k: Scalar = 0.5
let mass: Scalar = 1.0
function force(q: Vec<3>): Vec<3>
return -k * q
end
";
let p = compile(src).unwrap().program;
assert_eq!(p.items.len(), 3);
match &p.items[2] {
    Item::Function(f) => {
        assert_eq!(f.name, "force");
        assert_eq!(f.params.len(), 1);
        let stmt = &f.body.stmts[0];
        match &stmt.kind {
            StmtKind::Return(Some(e)) => match &e.kind {
                ExprKind::BinOp(BinOp::Mul, _, _) => {}
                other => panic!("unexpected return expr: {other:?}"),
            },
            _ => panic!("expected return stmt"),
        }
    }
    _ => panic!("expected Function"),
}
}

#[test]
fn nested_if_compiles() {
let src = "\
function sign(x: Scalar): Int
if x > 0.0 then
    return 1
elseif x == 0.0 then
    return 0
else
    return -1
end
end
";
let p = compile(src).unwrap().program;
assert_eq!(p.items.len(), 1);
}

#[test]
fn for_range_loop_in_function() {
let src = "\
function sum(n: Int): Int
let total: Int = 0
for i = 0, n do
    total = total + i
end
return total
end
";
let p = compile(src).unwrap().program;
assert_eq!(p.items.len(), 1);
}

#[test]
fn units_in_type_annotation() {
let src = "let mass: Scalar<kg> = 1.5";
let p = compile(src).unwrap().program;
assert_eq!(p.items.len(), 1);
}

#[test]
fn stage2_struct_definition_compiles() {
let src = "struct State\n  q: Vec<3>\n  p: Vec<3>\n  t: Scalar\nend";
let prog = dyne::compile(src).unwrap().program;
assert_eq!(prog.items.len(), 1);
}

#[test]
fn stage2_enum_with_generic_compiles() {
let src = "enum MyResult<T, E>\n  MyOk(T)\n  MyErr(E)\nend";
let prog = dyne::compile(src).unwrap().program;
assert_eq!(prog.items.len(), 1);
}

#[test]
fn stage2_struct_literal_in_let_compiles() {
let src =
    "struct Point\n  x: Scalar\n  y: Scalar\nend\nlet p: Point = Point { x: 1.0, y: 2.0 }";
let prog = dyne::compile(src).unwrap().program;
assert_eq!(prog.items.len(), 2);
}

#[test]
fn stage2_match_with_literal_payload_compiles() {
let src = "enum Maybe\n  Just(Int)\n  Nothing\nend\nfunction classify(n: Maybe): Int\n  return match n\n    case Just(0) then 0\n    case Just(_) then 1\n    case Nothing then -1\n  end\nend";
let prog = dyne::compile(src).unwrap().program;
assert_eq!(prog.items.len(), 2);
}

#[test]
fn stage2_float_pattern_rejected_e2e() {
let src = "function f(x: Scalar): Int\n  return match x\n    case 0.5 then 1\n    case _ then 0\n  end\nend";
let err = dyne::compile(src).unwrap_err();
assert!(err[0].message.contains("floating-point"));
}

#[test]
fn compile_undefined_name_yields_sema_diagnostic() {
let src = "function f(): Int\n  return undefined_var\nend";
let diags = dyne::compile(src).unwrap_err();
assert_eq!(diags.len(), 1, "got {:?}", diags);
assert_eq!(diags[0].phase, dyne::diag::Phase::Sema);
assert_eq!(diags[0].level, dyne::diag::Level::Error);
assert!(diags[0].message.contains("undefined_var"));
}

#[test]
fn compile_multiple_undefined_names_emits_multiple_diagnostics() {
let src = "function f(): Int\n  return a + b\nend";
let diags = dyne::compile(src).unwrap_err();
assert_eq!(diags.len(), 2, "got {:?}", diags);
assert!(diags[0].message.contains("`a`"));
assert!(diags[1].message.contains("`b`"));
}

#[test]
fn compile_duplicate_top_level_definition_yields_diagnostic() {
let src = "let x: Int = 1\nlet x: Int = 2";
let diags = dyne::compile(src).unwrap_err();
assert_eq!(diags.len(), 1, "got {:?}", diags);
assert_eq!(diags[0].phase, dyne::diag::Phase::Sema);
assert!(diags[0].message.contains("`x`"));
}

#[test]
fn compile_int_to_int_function_succeeds() {
let src = "function f(x: Int): Int\n  return x + 1\nend";
let typed = dyne::compile(src).unwrap();
assert_eq!(typed.program.items.len(), 1);
}

#[test]
fn compile_type_mismatch_in_return_yields_diagnostic() {
let src = "function f(): Int\n  return true\nend";
let diags = dyne::compile(src).unwrap_err();
assert_eq!(diags.len(), 1, "got {:?}", diags);
assert_eq!(diags[0].phase, dyne::diag::Phase::Sema);
assert!(
    diags[0].message.contains("type mismatch"),
    "msg: {}",
    diags[0].message
);
}

#[test]
fn compile_wrong_arity_function_call_yields_diagnostic() {
let src = "function add(a: Int, b: Int): Int\n  return a + b\nend\nfunction f(): Int\n  return add(1)\nend";
let diags = dyne::compile(src).unwrap_err();
assert_eq!(diags.len(), 1, "got {:?}", diags);
assert!(
    diags[0].message.contains("arguments"),
    "msg: {}",
    diags[0].message
);
}

#[test]
fn compile_struct_field_access_succeeds() {
let src = "struct Point\n  x: Scalar\n  y: Scalar\nend\nfunction get_x(p: Point): Scalar\n  return p.x\nend";
let typed = dyne::compile(src).unwrap();
assert_eq!(typed.program.items.len(), 2);
}

#[test]
fn compile_unknown_struct_field_yields_diagnostic() {
let src = "struct Point\n  x: Scalar\n  y: Scalar\nend\nfunction get_z(p: Point): Scalar\n  return p.z\nend";
let diags = dyne::compile(src).unwrap_err();
assert_eq!(diags.len(), 1, "got {:?}", diags);
assert!(
    diags[0].message.contains("`z`"),
    "msg: {}",
    diags[0].message
);
}

#[test]
fn builtin_option_resolves_in_type_annotation() {
let result = dyne::compile("function f(): Option<Int>\n  return Some(1)\nend");
assert!(
    result.is_ok(),
    "expected clean compile, got: {:?}",
    result.err()
);
}

#[test]
fn builtin_result_resolves_in_type_annotation() {
let result = dyne::compile("function f(): Result<Int, String>\n  return Ok(42)\nend");
assert!(
    result.is_ok(),
    "expected clean compile, got: {:?}",
    result.err()
);
}

#[test]
fn builtin_some_none_visible() {
let result = dyne::compile(
    "function f(): Option<Int>\n  return None\nend\nfunction g(): Option<Int>\n  return Some(1)\nend",
);
assert!(
    result.is_ok(),
    "expected clean compile, got: {:?}",
    result.err()
);
}

#[test]
fn builtin_ok_err_visible() {
let result = dyne::compile(
    "function f(): Result<Int, String>\n  return Ok(1)\nend\nfunction g(): Result<Int, String>\n  return Err(\"x\")\nend",
);
assert!(
    result.is_ok(),
    "expected clean compile, got: {:?}",
    result.err()
);
}

#[test]
fn builtin_match_option_compiles() {
let result = dyne::compile(
    "function f(o: Option<Int>): Int\n  return match o\n    case Some(x) then x\n    case None then 0\n  end\nend",
);
assert!(
    result.is_ok(),
    "expected clean compile, got: {:?}",
    result.err()
);
}

#[test]
fn compile_generic_enum_with_exhaustive_match() {
let result = dyne::compile(
    "function f(o: Option<Int>): Int\n  return match o\n    case Some(x) then x\n    case None then 0\n  end\nend",
);
assert!(
    result.is_ok(),
    "expected clean compile, got: {:?}",
    result.err()
);
}

#[test]
fn compile_generic_match_non_exhaustive_yields_diagnostic() {
let result = dyne::compile(
    "function f(o: Option<Int>): Int\n  return match o\n    case Some(x) then x\n  end\nend",
);
let diags = result.unwrap_err();
assert_eq!(diags.len(), 1, "diags: {:?}", diags);
assert!(
    diags[0].message.contains("None"),
    "msg: {}",
    diags[0].message
);
}

#[test]
fn compile_result_with_pattern_binding() {
let result = dyne::compile(
    "function f(r: Result<Int, String>): Int\n  return match r\n    case Ok(v) then v\n    case Err(_) then -1\n  end\nend",
);
assert!(
    result.is_ok(),
    "expected clean compile, got: {:?}",
    result.err()
);
}

#[test]
fn compile_user_defined_generic_enum_e2e() {
let result = dyne::compile(
    "enum Maybe<T>\n  Just(T)\n  Nothing\nend\nfunction f(m: Maybe<Int>): Int\n  return match m\n    case Just(x) then x\n    case Nothing then 0\n  end\nend",
);
assert!(
    result.is_ok(),
    "expected clean compile, got: {:?}",
    result.err()
);
}

#[test]
fn compile_pow_diag_uses_caret_syntax() {
let diags = dyne::compile("function f(): Int\n  return true ^ 2\nend").unwrap_err();
assert!(
    diags.iter().any(|d| d.message.contains("`^`")),
    "expected `^` in diag, got: {:?}",
    diags
);
assert!(
    diags.iter().all(|d| !d.message.contains("`**`")),
    "no diag should reference `**`, got: {:?}",
    diags
);
}

#[test]
fn match_inline_nested_generic_missing_inner_some_none_diag() {
let src = "function f(): Int\n  return match Some(Some(1))\n    case Some(Some(x)) then x\n    case None then 0\n  end\nend";
let diags = dyne::compile(src).unwrap_err();
assert!(
    diags
        .iter()
        .any(|d| d.message.contains("non-exhaustive") && d.message.contains("None")),
    "expected non-exhaustive diag mentioning missing inner `None`, got: {:?}",
    diags
);
}

#[test]
fn compile_user_redeclares_builtin_option_yields_diag() {
let diags = dyne::compile("enum Option<T>\n  MyVariant(T)\nend").unwrap_err();
assert!(
    diags
        .iter()
        .any(|d| d.message.contains("`Option`") && d.message.contains("already defined")),
    "expected duplicate-name diag for Option, got: {:?}",
    diags
);
}

