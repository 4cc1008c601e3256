use dyne::check;
use dyne::diag::Diagnostic;
use dyne::lexer::tokenize;
use dyne::parser::parse;

fn compile_src(src: &str) {
    let prog = parse(tokenize(src).unwrap()).unwrap();
    let _typed = check(prog).expect("ok");
}

fn diags_for(src: &str) -> Vec<Diagnostic> {
    let prog = parse(tokenize(src).unwrap()).unwrap();
    check(prog).expect_err("expected diags")
}

#[test]
fn match_arm_bodies_must_unify() {
    let diags = diags_for(
        "enum Maybe\n  Just(Int)\n  Nothing\nend\nfunction f(m: Maybe): Int\n  return match m\n    case Just(x) then x\n    case Nothing then true\n  end\nend",
    );
    assert_eq!(diags.len(), 1, "diags: {:?}", diags);
    assert!(
        diags[0].message.contains("type mismatch"),
        "msg: {}",
        diags[0].message
    );
}

#[test]
fn match_arm_mismatch_does_not_cascade_to_outer() {
    let diags = diags_for(
        "function f(): Int\n  return match 1\n    case 1 then true\n    case _ then 2\n  end\nend",
    );
    assert_eq!(diags.len(), 1, "diags: {:?}", diags);
}

#[test]
fn match_generic_binds_payload_type() {
    compile_src(
        "enum Maybe<T>\n  Some(T)\n  Nothing\nend\nfunction f(m: Maybe<Int>): Int\n  return match m\n    case Some(x) then x\n    case Nothing then 0\n  end\nend",
    );
}

#[test]
fn match_generic_payload_type_mismatch() {
    let diags = diags_for(
        "enum Maybe<T>\n  Some(T)\n  Nothing\nend\nfunction f(m: Maybe<Int>): String\n  return match m\n    case Some(x) then x\n    case Nothing then \"none\"\n  end\nend",
    );
    assert_eq!(diags.len(), 1, "diags: {:?}", diags);
}

#[test]
fn match_two_param_enum_binding() {
    compile_src(
        "enum Result<T, E>\n  Ok(T)\n  Err(E)\nend\nfunction f(r: Result<Int, String>): Int\n  return match r\n    case Ok(value) then value\n    case Err(_) then -1\n  end\nend",
    );
}

#[test]
fn match_wrong_variant_for_enum_diag() {
    let diags = diags_for(
        "enum Maybe<T>\n  Some(T)\n  Nothing\nend\nenum Result<T, E>\n  Ok(T)\n  Err(E)\nend\nfunction f(r: Result<Int, String>): Int\n  return match r\n    case Some(x) then 0\n    case Ok(v) then v\n    case Err(_) then -1\n  end\nend",
    );
    assert_eq!(diags.len(), 1, "diags: {:?}", diags);
    assert!(
        diags[0].message.contains("Some") || diags[0].message.contains("Maybe"),
        "msg: {}",
        diags[0].message
    );
}

#[test]
fn match_pattern_arity_mismatch_diag() {
    let diags = diags_for(
        "enum Maybe<T>\n  Some(T)\n  Nothing\nend\nfunction f(m: Maybe<Int>): Int\n  return match m\n    case Some(x, y) then 0\n    case Nothing then -1\n  end\nend",
    );
    assert_eq!(diags.len(), 1, "diags: {:?}", diags);
    assert!(
        diags[0].message.contains("expected 1") && diags[0].message.contains("found 2"),
        "msg: {}",
        diags[0].message
    );
}

#[test]
fn match_nested_variant_pattern() {
    compile_src(
        "enum Maybe<T>\n  Some(T)\n  Nothing\nend\nfunction f(m: Maybe<Maybe<Int>>): Int\n  return match m\n    case Some(Some(x)) then x\n    case Some(Nothing) then 0\n    case Nothing then -1\n  end\nend",
    );
}

#[test]
fn match_enum_missing_variant_diag() {
    let diags = diags_for(
        "enum Maybe<T>\n  Some(T)\n  Nothing\nend\nfunction f(m: Maybe<Int>): Int\n  return match m\n    case Some(x) then x\n  end\nend",
    );
    assert_eq!(diags.len(), 1, "diags: {:?}", diags);
    assert!(
        diags[0].message.contains("Nothing") || diags[0].message.contains("missing"),
        "msg: {}",
        diags[0].message
    );
}

#[test]
fn match_enum_with_wildcard_passes() {
    compile_src(
        "enum Maybe<T>\n  Some(T)\n  Nothing\nend\nfunction f(m: Maybe<Int>): Int\n  return match m\n    case Some(x) then x\n    case _ then 0\n  end\nend",
    );
}

#[test]
fn match_bool_missing_false_diag() {
    let diags = diags_for(
        "function f(b: Bool): Int\n  return match b\n    case true then 1\n  end\nend",
    );
    assert_eq!(diags.len(), 1, "diags: {:?}", diags);
    assert!(
        diags[0].message.contains("false") || diags[0].message.contains("Bool"),
        "msg: {}",
        diags[0].message
    );
}

#[test]
fn match_int_requires_wildcard_diag() {
    let diags =
        diags_for("function f(i: Int): Int\n  return match i\n    case 0 then 0\n  end\nend");
    assert_eq!(diags.len(), 1, "diags: {:?}", diags);
    assert!(
        diags[0].message.contains("wildcard"),
        "msg: {}",
        diags[0].message
    );
}

#[test]
fn match_int_with_wildcard_passes() {
    compile_src(
        "function f(i: Int): Int\n  return match i\n    case 0 then 0\n    case _ then 1\n  end\nend",
    );
}

#[test]
fn match_struct_with_ident_passes() {
    compile_src(
        "struct P\n  x: Int\n  y: Int\nend\nfunction f(p: P): Int\n  return match p\n    case s then s.x\n  end\nend",
    );
}

#[test]
fn match_function_value_not_matchable_diag() {
    let diags = diags_for(
        "function g(): Int\n  return 0\nend\nfunction f(): Int\n  return match g\n    case _ then 0\n  end\nend",
    );
    assert!(
        diags
            .iter()
            .any(|d| d.message.contains("function") && d.message.contains("not allowed")),
        "diags: {:?}",
        diags
    );
}

#[test]
fn match_array_passes_with_wildcard() {
    compile_src(
        "function f(xs: Array<Int>): Int\n  return match xs\n    case _ then 0\n  end\nend",
    );
}

#[test]
fn match_dict_passes_with_ident() {
    compile_src(
        "function f(d: Dict<Int, String>): Int\n  return match d\n    case s then 0\n  end\nend",
    );
}

#[test]
fn match_two_param_enum_missing_variant_diag() {
    let diags = diags_for(
        "enum MyResult<T, E>\n  Ok(T)\n  Err(E)\nend\nfunction f(r: MyResult<Int, String>): Int\n  return match r\n    case Ok(v) then v\n  end\nend",
    );
    assert_eq!(diags.len(), 1, "diags: {:?}", diags);
    assert!(
        diags[0].message.contains("Err"),
        "msg: {}",
        diags[0].message
    );
}

#[test]
fn match_nested_payload_missing_inner_variant_diag() {
    let diags = diags_for(
        "enum Maybe<T>\n  Some(T)\n  Nothing\nend\nfunction f(oo: Maybe<Maybe<Int>>): Int\n  return match oo\n    case Some(Some(x)) then x\n    case Nothing then -1\n  end\nend",
    );
    assert_eq!(diags.len(), 1, "diags: {:?}", diags);
    assert!(
        diags[0].message.contains("Nothing") || diags[0].message.contains("missing"),
        "msg: {}",
        diags[0].message
    );
}

#[test]
fn match_nested_payload_complete_passes() {
    compile_src(
        "enum Maybe<T>\n  Some(T)\n  Nothing\nend\nfunction f(oo: Maybe<Maybe<Int>>): Int\n  return match oo\n    case Some(Some(x)) then x\n    case Some(Nothing) then 0\n    case Nothing then -1\n  end\nend",
    );
}

#[test]
fn match_string_requires_wildcard_diag() {
    let diags = diags_for(
        "function f(s: String): Int\n  return match s\n    case \"hi\" then 1\n  end\nend",
    );
    assert_eq!(diags.len(), 1, "diags: {:?}", diags);
    assert!(
        diags[0].message.contains("wildcard"),
        "msg: {}",
        diags[0].message
    );
}

#[test]
fn match_string_with_wildcard_passes() {
    compile_src(
        "function f(s: String): Int\n  return match s\n    case \"hi\" then 1\n    case _ then 0\n  end\nend",
    );
}

#[test]
fn match_error_scrutinee_skips_exhaustiveness() {
    let diags = diags_for(
        "function f(): Int\n  return match undefined_var\n    case _ then 0\n  end\nend",
    );
    assert_eq!(diags.len(), 1, "diags: {:?}", diags);
    assert!(
        diags[0].message.contains("undefined_var"),
        "msg: {}",
        diags[0].message
    );
}


#[test]
fn missing_variants_are_listed_in_declaration_order() {
    let diags = diags_for(
        "enum E\n  A\n  B\n  C\nend\nfunction f(e: E): Int\n  return match e\n    case B then 0\n  end\nend",
    );
    assert!(diags.iter().any(|d| d.message == "non-exhaustive match: missing variant(s) A, C"), "diags: {:?}", diags);
}
