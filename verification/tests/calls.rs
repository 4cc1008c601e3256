use dyne::check;
use dyne::diag::Diagnostic;
use dyne::lexer::tokenize;
use dyne::parser::parse;

fn compile_src(src: &str) {
    let prog = parse(tokenize(src).unwrap()).unwrap();
    let _typed = check(prog).expect("ok");
}

fn diags_for(src: &str) -> Vec<Diagnostic> {
    let prog = parse(tokenize(src).unwrap()).unwrap();
    check(prog).expect_err("expected diags")
}

#[test]
fn ident_resolves_to_param_type() {
    compile_src("function f(x: Int): Int\n  return x\nend");
}

#[test]
fn ident_resolves_to_top_level_let() {
    compile_src("let pi: Scalar = 3.14\nfunction f(): Scalar\n  return pi\nend");
}

#[test]
fn call_with_correct_args_succeeds() {
    compile_src(
        "function add(a: Int, b: Int): Int\n  return a + b\nend\nfunction g(): Int\n  return add(1, 2)\nend",
    );
}

#[test]
fn call_with_wrong_arity_diag() {
    let diags = diags_for(
        "function add(a: Int, b: Int): Int\n  return a + b\nend\nfunction g(): Int\n  return add(1)\nend",
    );
    assert_eq!(diags.len(), 1, "diags: {:?}", diags);
    assert!(diags[0].message.contains("expected 2, found 1"));
}

#[test]
fn arity_mismatch_does_not_cascade_to_return_check() {
    let diags = diags_for(
        "function add(a: Int, b: Int): Int\n  return a + b\nend\nfunction g(): String\n  return add(1)\nend",
    );
    assert_eq!(diags.len(), 1, "diags: {:?}", diags);
    assert!(diags[0].message.contains("expected 2, found 1"));
}

#[test]
fn call_with_wrong_arg_type_diag() {
    let diags = diags_for(
        "function add(a: Int, b: Int): Int\n  return a + b\nend\nfunction g(): Int\n  return add(true, 2)\nend",
    );
    assert_eq!(diags.len(), 1, "diags: {:?}", diags);
    assert!(diags[0].message.contains("type mismatch"));
}

#[test]
fn call_non_function_diag() {
    let diags = diags_for("let x: Int = 5\nfunction f(): Int\n  return x(1)\nend");
    assert_eq!(diags.len(), 1, "diags: {:?}", diags);
    assert!(diags[0].message.contains("not callable"));
}

#[test]
fn struct_name_in_value_position_emits_diag() {
    let diags = diags_for(
        "struct Point\n  x: Scalar\n  y: Scalar\nend\nfunction f(): Int\n  return Point\nend",
    );
    assert_eq!(diags.len(), 1, "diags: {:?}", diags);
    assert!(
        diags[0].message.contains("`Point`"),
        "msg: {}",
        diags[0].message
    );
    assert!(
        diags[0].message.contains("not a value"),
        "msg: {}",
        diags[0].message
    );
}

#[test]
fn enum_name_in_value_position_emits_diag() {
    let diags = diags_for(
        "enum Maybe\n  Just(Int)\n  Nothing\nend\nfunction f(): Int\n  return Maybe\nend",
    );
    assert_eq!(diags.len(), 1, "diags: {:?}", diags);
    assert!(
        diags[0].message.contains("`Maybe`"),
        "msg: {}",
        diags[0].message
    );
    assert!(
        diags[0].message.contains("not a value"),
        "msg: {}",
        diags[0].message
    );
}

#[test]
fn variant_call_non_generic_typechecks() {
    compile_src(
        "enum Maybe\n  Just(Int)\n  Nothing\nend\nfunction f(): Maybe\n  return Just(1)\nend",
    );
}

#[test]
fn variant_call_non_generic_wrong_arg_diag() {
    let diags = diags_for(
        "enum Maybe\n  Just(Int)\n  Nothing\nend\nfunction f(): Maybe\n  return Just(\"oops\")\nend",
    );
    assert_eq!(diags.len(), 1, "diags: {:?}", diags);
    assert!(
        diags[0].message.contains("Int") && diags[0].message.contains("String"),
        "msg: {}",
        diags[0].message
    );
}

#[test]
fn variant_call_non_generic_wrong_arity_diag() {
    let diags = diags_for(
        "enum Maybe\n  Just(Int)\n  Nothing\nend\nfunction f(): Maybe\n  return Just(1, 2)\nend",
    );
    assert_eq!(diags.len(), 1, "diags: {:?}", diags);
    assert!(
        diags[0].message.contains("expected 1") && diags[0].message.contains("found 2"),
        "msg: {}",
        diags[0].message
    );
}

#[test]
fn variant_call_generic_inferred_int() {
    compile_src(
        "enum Maybe<T>\n  Just(T)\n  Nothing\nend\nfunction f(): Maybe<Int>\n  return Just(1)\nend",
    );
}

#[test]
fn variant_call_generic_inferred_string_independent() {
    compile_src(
        "enum Maybe<T>\n  Just(T)\n  Nothing\nend\nfunction ints(): Maybe<Int>\n  return Just(1)\nend\nfunction strs(): Maybe<String>\n  return Just(\"hi\")\nend",
    );
}

#[test]
fn variant_nullary_value_in_context() {
    compile_src(
        "enum Maybe<T>\n  Just(T)\n  Nothing\nend\nfunction f(): Maybe<Int>\n  return Nothing\nend",
    );
}

#[test]
fn variant_call_two_param_enum_inferred() {
    compile_src(
        "enum Result<T, E>\n  Ok(T)\n  Err(E)\nend\nfunction f(): Result<Int, String>\n  return Ok(42)\nend\nfunction g(): Result<Int, String>\n  return Err(\"boom\")\nend",
    );
}

#[test]
fn variant_call_generic_arg_int_to_scalar_widening() {
    compile_src("enum Box<T>\n  Mk(T)\nend\nfunction f(): Box<Scalar>\n  return Mk(1)\nend");
}

