#![allow(unused_imports)]
use dyne::ast::Program;
use dyne::ids::DefId;
use dyne::lexer::tokenize;
use dyne::parser::parse;
use dyne::sema::resolve::{resolve_program, DefKind};

fn parse_src(src: &str) -> Program {
    parse(tokenize(src).unwrap()).unwrap()
}

#[test]
fn resolve_empty_program_yields_no_diagnostics() {
    let prog = parse_src("");
    let (resolutions, _defs, _, diags) = resolve_program(&prog);
    assert!(diags.is_empty());
    assert!(resolutions.is_empty());
}

#[test]
fn resolve_top_level_let_then_use_in_function_body() {
    let src = "let k: Scalar = 0.5\nfunction f(): Scalar\n  return k\nend";
    let prog = parse_src(src);
    let (resolutions, _defs, _, diags) = resolve_program(&prog);
    assert!(diags.is_empty(), "unexpected diagnostics: {:?}", diags);
    assert!(!resolutions.is_empty());
}

#[test]
fn resolve_undefined_name_produces_sema_diagnostic() {
    let src = "function f(): Scalar\n  return undefined_var\nend";
    let prog = parse_src(src);
    let (_resolutions, _defs, _, diags) = resolve_program(&prog);
    assert_eq!(diags.len(), 1);
    assert_eq!(diags[0].phase, dyne::diag::Phase::Sema);
    assert_eq!(diags[0].level, dyne::diag::Level::Error);
    assert!(diags[0].message.contains("undefined_var"));
}

#[test]
fn resolve_duplicate_top_level_let_produces_diagnostic() {
    let src = "let x: Int = 1\nlet x: Int = 2";
    let prog = parse_src(src);
    let (_resolutions, _defs, _, diags) = resolve_program(&prog);
    assert_eq!(diags.len(), 1);
    assert!(diags[0].message.contains("`x`"));
    assert!(diags[0].message.contains("already defined"));
    assert_eq!(diags[0].labels.len(), 1);
    assert!(diags[0].labels[0].1.contains("previously defined"));
}

#[test]
fn resolve_duplicate_definition_does_not_leak_orphan_def_id() {
    let src = "let x: Int = 1\nlet x: Int = 2";
    let prog = parse_src(src);
    let (_resolutions, defs, _, _diags) = resolve_program(&prog);
    assert_eq!(
        defs.len(),
        1,
        "rejected duplicate must not leave an orphan DefId in definitions, got {:?}",
        defs
    );
}

#[test]
fn resolve_top_level_let_self_reference_is_undefined() {
    let src = "let x: Int = x + 1";
    let prog = parse_src(src);
    let (_resolutions, _defs, _, diags) = resolve_program(&prog);
    assert!(
        diags
            .iter()
            .any(|d| d.message.contains("undefined name `x`")),
        "expected undefined-name diag for self-referencing top-level let, got {:?}",
        diags
    );
}

#[test]
fn resolve_top_level_let_forward_reference_is_undefined() {
    let src = "let a: Int = b\nlet b: Int = 1";
    let prog = parse_src(src);
    let (_resolutions, _defs, _, diags) = resolve_program(&prog);
    assert!(
        diags
            .iter()
            .any(|d| d.message.contains("undefined name `b`")),
        "expected undefined-name diag for forward let reference, got {:?}",
        diags
    );
}

#[test]
fn resolve_top_level_forward_reference_succeeds() {
    let src = "function f(): Int\n  return g()\nend\nfunction g(): Int\n  return 0\nend";
    let prog = parse_src(src);
    let (_resolutions, _defs, _, diags) = resolve_program(&prog);
    assert!(diags.is_empty());
}

#[test]
fn resolve_function_param_in_body() {
    let src = "function f(x: Scalar): Scalar\n  return x\nend";
    let prog = parse_src(src);
    let (_resolutions, _defs, _, diags) = resolve_program(&prog);
    assert!(diags.is_empty());
}

#[test]
fn resolve_block_local_let_visible_inside_block_only() {
    let src = "function f(): Int\n  let y: Int = 1\n  return y\nend";
    let prog = parse_src(src);
    let (_resolutions, _defs, _, diags) = resolve_program(&prog);
    assert!(diags.is_empty(), "diags: {:?}", diags);
}

#[test]
fn resolve_for_range_loop_var_visible_in_body() {
    let src = "function sum(n: Int): Int\n  let total: Int = 0\n  for i = 0, n do\n    total = total + i\n  end\n  return total\nend";
    let prog = parse_src(src);
    let (_resolutions, _defs, _, diags) = resolve_program(&prog);
    assert!(diags.is_empty(), "diags: {:?}", diags);
}

#[test]
fn resolve_for_loop_var_collides_with_let_in_body() {
    let src =
        "function f(): Int\n  for i = 0, 10 do\n    let i: Int = 5\n  end\n  return 0\nend";
    let prog = parse_src(src);
    let (_resolutions, _defs, _, diags) = resolve_program(&prog);
    assert_eq!(
        diags.len(),
        1,
        "expected exactly one duplicate-name diag, got {:?}",
        diags
    );
    assert!(diags[0].message.contains("`i`"));
    assert!(diags[0].message.contains("already defined"));
}

#[test]
fn resolve_enum_variant_used_in_match_arm() {
    let src = "enum Maybe\n  Just(Int)\n  Nothing\nend\nfunction f(m: Maybe): Int\n  return match m\n    case Just(x) then x\n    case Nothing then 0\n  end\nend";
    let prog = parse_src(src);
    let (_resolutions, _defs, _, diags) = resolve_program(&prog);
    assert!(diags.is_empty(), "diags: {:?}", diags);
}

#[test]
fn resolve_typo_in_match_pattern_constructor_produces_diagnostic() {
    let src = "enum Maybe\n  Just(Int)\n  Nothing\nend\nfunction f(m: Maybe): Int\n  return match m\n    case Jsut(x) then x\n    case Nothing then 0\n  end\nend";
    let prog = parse_src(src);
    let (_resolutions, _defs, _, diags) = resolve_program(&prog);
    assert!(diags.iter().any(|d| d.message.contains("Jsut")));
}

#[test]
fn resolve_for_iter_loop_var_visible_in_body() {
    let src = "function f(xs: Array<Int>): Int\n  let total: Int = 0\n  for x in xs do\n    total = total + x\n  end\n  return total\nend";
    let prog = parse_src(src);
    let (_resolutions, _defs, _, diags) = resolve_program(&prog);
    assert!(diags.is_empty(), "diags: {:?}", diags);
}

#[test]
fn resolve_for_iterkv_loop_vars_visible_in_body() {
    let src = "function f(pairs: Dict<Int, Int>): Int\n  let total: Int = 0\n  for k, v in pairs do\n    total = total + k + v\n  end\n  return total\nend";
    let prog = parse_src(src);
    let (_resolutions, _defs, _, diags) = resolve_program(&prog);
    assert!(diags.is_empty(), "diags: {:?}", diags);
}

#[test]
fn resolve_while_condition_uses_param_and_body_can_assign() {
    let src = "function f(n: Int): Int\n  let i: Int = 0\n  while i < n do\n    i = i + 1\n  end\n  return i\nend";
    let prog = parse_src(src);
    let (_resolutions, _defs, _, diags) = resolve_program(&prog);
    assert!(diags.is_empty(), "diags: {:?}", diags);
}

#[test]
fn resolve_assign_to_undefined_name_produces_diagnostic() {
    let src = "function f(): Int\n  undefined = 1\n  return 0\nend";
    let prog = parse_src(src);
    let (_resolutions, _defs, _, diags) = resolve_program(&prog);
    assert!(
        diags.iter().any(|d| d.message.contains("undefined")),
        "diags: {:?}",
        diags
    );
}

#[test]
fn resolve_struct_literal_name_resolves_to_definition() {
    let src =
        "struct Point\n  x: Scalar\n  y: Scalar\nend\nlet p: Point = Point { x: 1.0, y: 2.0 }";
    let prog = parse_src(src);
    let (_resolutions, _defs, _, diags) = resolve_program(&prog);
    assert!(diags.is_empty(), "diags: {:?}", diags);
}

#[test]
fn resolve_typo_in_struct_literal_name_produces_diagnostic() {
    let src =
        "struct Point\n  x: Scalar\n  y: Scalar\nend\nlet p: Point = Pint { x: 1.0, y: 2.0 }";
    let prog = parse_src(src);
    let (_resolutions, _defs, _, diags) = resolve_program(&prog);
    assert!(
        diags.iter().any(|d| d.message.contains("Pint")),
        "diags: {:?}",
        diags
    );
}

#[test]
fn resolve_pattern_binding_does_not_leak_across_match_arms() {
    let src = "enum Maybe\n  Just(Int)\n  Nothing\nend\nfunction f(m: Maybe): Int\n  return match m\n    case Just(x) then 0\n    case Nothing then x\n  end\nend";
    let prog = parse_src(src);
    let (_resolutions, _defs, _, diags) = resolve_program(&prog);
    assert!(
        diags
            .iter()
            .any(|d| d.message.contains("undefined name `x`")),
        "expected x to be undefined in second arm, got {:?}",
        diags
    );
}

#[test]
fn resolve_multiple_lets_chain_in_dependency_order() {
    let src = "let a: Int = 1\nlet b: Int = a + 1";
    let prog = parse_src(src);
    let (_resolutions, _defs, _, diags) = resolve_program(&prog);
    assert!(diags.is_empty(), "diags: {:?}", diags);
}

#[test]
fn resolve_duplicate_function_name_produces_diagnostic() {
    let src = "function f(): Int\n  return 0\nend\nfunction f(): Int\n  return 1\nend";
    let prog = parse_src(src);
    let (_resolutions, _defs, _, diags) = resolve_program(&prog);
    assert_eq!(diags.len(), 1);
    assert!(diags[0].message.contains("`f`"));
}

#[test]
fn resolve_function_then_let_with_same_name_collides() {
    let src = "function foo(): Int\n  return 0\nend\nlet foo: Int = 1";
    let prog = parse_src(src);
    let (_resolutions, _defs, _, diags) = resolve_program(&prog);
    assert!(
        diags.iter().any(|d| d.message.contains("`foo`")),
        "diags: {:?}",
        diags
    );
}

#[test]
fn resolve_let_then_function_with_same_name_collides() {
    let src = "let foo: Int = 1\nfunction foo(): Int\n  return 0\nend";
    let prog = parse_src(src);
    let (_resolutions, _defs, _, diags) = resolve_program(&prog);
    assert!(
        diags.iter().any(|d| d.message.contains("`foo`")),
        "diags: {:?}",
        diags
    );
}

#[test]
fn resolve_same_scope_let_let_inside_block_collides() {
    let src = "function f(): Int\n  let x: Int = 1\n  let x: Int = 2\n  return x\nend";
    let prog = parse_src(src);
    let (_resolutions, _defs, _, diags) = resolve_program(&prog);
    assert_eq!(diags.len(), 1);
    assert!(diags[0].message.contains("`x`"));
}

#[test]
fn resolve_param_let_collision_in_function_body() {
    let src = "function f(x: Int): Int\n  let x: Int = 1\n  return x\nend";
    let prog = parse_src(src);
    let (_resolutions, _defs, _, diags) = resolve_program(&prog);
    assert_eq!(diags.len(), 1);
    assert!(diags[0].message.contains("`x`"));
}

#[test]
fn resolve_struct_field_type_resolves_user_struct() {
    let src = "struct Point\n  x: Scalar\n  y: Scalar\nend\nstruct Line\n  start: Point\n  end_pt: Point\nend";
    let prog = parse_src(src);
    let (_resolutions, _defs, _, diags) = resolve_program(&prog);
    assert!(diags.is_empty(), "diags: {:?}", diags);
}

#[test]
fn resolve_undefined_struct_in_type_annotation_diag() {
    let src = "let p: Point = 0";
    let prog = parse_src(src);
    let (_resolutions, _defs, _, diags) = resolve_program(&prog);
    assert_eq!(diags.len(), 1, "diags: {:?}", diags);
    assert!(
        diags[0].message.contains("Point"),
        "msg: {}",
        diags[0].message
    );
}

#[test]
fn resolve_builtin_type_names_are_skipped() {
    let src = "function f(x: Int, y: Scalar): Bool\n  return true\nend";
    let prog = parse_src(src);
    let (_resolutions, _defs, _, diags) = resolve_program(&prog);
    assert!(diags.is_empty(), "diags: {:?}", diags);
}

#[test]
fn resolve_function_param_type_annotation_resolves() {
    let src = "struct Point\n  x: Scalar\n  y: Scalar\nend\nfunction f(p: Point): Point\n  return p\nend";
    let prog = parse_src(src);
    let (_resolutions, _defs, _, diags) = resolve_program(&prog);
    assert!(diags.is_empty(), "diags: {:?}", diags);
}

#[test]
fn resolve_enum_variant_payload_type_resolves() {
    let src = "struct Point\n  x: Scalar\n  y: Scalar\nend\nenum Shape\n  Circle(Point)\n  Empty\nend";
    let prog = parse_src(src);
    let (_resolutions, _defs, _, diags) = resolve_program(&prog);
    assert!(diags.is_empty(), "diags: {:?}", diags);
}

