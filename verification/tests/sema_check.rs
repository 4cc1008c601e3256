#![allow(unused_imports)]
use dyne::ast::{Item, Program};
use dyne::check;
use dyne::sema::signature_pass;
use dyne::diag::{Diagnostic, Phase};
use dyne::ids::DefId;
use dyne::lexer::tokenize;
use dyne::parser::parse;
use dyne::sema::dimension::Dimension;
use dyne::sema::resolve::{self, DefKind};
use dyne::sema::ty::{Ty, VariantPayload};

fn parse_src(src: &str) -> Program {
    parse(tokenize(src).unwrap()).unwrap()
}

fn compile_src(src: &str) {
    let prog = parse(tokenize(src).unwrap()).unwrap();
    let _typed = check(prog).expect("ok");
}

fn diags_for(src: &str) -> Vec<Diagnostic> {
    let prog = parse(tokenize(src).unwrap()).unwrap();
    check(prog).expect_err("expected diags")
}

fn contains_var(t: &Ty) -> bool {
    match t {
        Ty::Var(_) => true,
        Ty::Function(args, ret) => args.iter().any(contains_var) || contains_var(ret),
        Ty::Enum(_, args) => args.iter().any(contains_var),
        Ty::Array(t) => contains_var(t),
        Ty::Dict(k, v) => contains_var(k) || contains_var(v),
        _ => false,
    }
}

#[test]
fn check_valid_program_returns_typed_program() {
    let prog = parse_src("let x: Int = 1");
    let typed = check(prog).expect("expected ok");
    assert_eq!(typed.program.items.len(), 1);
    assert!(
        !typed.types.is_empty(),
        "PR-3b records expression types in Pass 2"
    );
    assert_eq!(
        typed.definitions.len(),
        1,
        "the top-level let is the only def"
    );
}

#[test]
fn check_program_with_undefined_name_returns_err() {
    let prog = parse_src("function f(): Int\n  return undefined_var\nend");
    let diags = check(prog).expect_err("expected sema error");
    assert_eq!(diags.len(), 1);
    assert_eq!(diags[0].phase, dyne::diag::Phase::Sema);
    assert!(diags[0].message.contains("undefined_var"));
}

#[test]
fn check_program_with_multiple_undefined_names_returns_all() {
    let prog = parse_src("function f(): Int\n  let x: Int = a + b\n  return c\nend");
    let diags = check(prog).expect_err("expected sema errors");
    assert_eq!(
        diags.len(),
        3,
        "expected exactly 3 diagnostics for a/b/c, got {:?}",
        diags
    );
    assert!(diags[0].message.contains("`a`"));
    assert!(diags[1].message.contains("`b`"));
    assert!(diags[2].message.contains("`c`"));
}

#[test]
fn check_typed_program_resolutions_keyed_by_node_id() {
    let prog = parse_src("let k: Scalar = 0.5\nfunction f(): Scalar\n  return k\nend");
    let typed = check(prog).expect("expected ok");
    assert!(!typed.resolutions.is_empty());
    for (_, def_id) in typed.resolutions.entries() {
        assert!(typed.definitions.contains_key(def_id));
    }
}

#[test]
fn check_populates_function_signature_in_def_types() {
    let prog = parse_src("function add(a: Int, b: Int): Int\n  return 0\nend");
    let typed = check(prog).expect("ok");
    let func_def_id = typed
        .definitions
        .entries()
        .into_iter()
        .find(|(_, info)| matches!(info.kind, DefKind::Function))
        .map(|(id, _)| id)
        .unwrap();
    let sig = typed.def_types.get(&func_def_id).unwrap();
    assert_eq!(
        *sig,
        Ty::Function(vec![Ty::Int, Ty::Int], Box::new(Ty::Int))
    );
}

#[test]
fn check_populates_struct_fields() {
    let prog = parse_src("struct Point\n  x: Scalar\n  y: Scalar\nend");
    let typed = check(prog).expect("ok");
    let struct_def_id = typed
        .definitions
        .entries()
        .into_iter()
        .find(|(_, info)| matches!(info.kind, DefKind::Struct))
        .map(|(id, _)| id)
        .unwrap();
    let fields = typed.struct_fields.get(&struct_def_id).unwrap();
    assert_eq!(fields.len(), 2);
    assert_eq!(fields[0].0, "x");
    assert_eq!(fields[1].0, "y");
}

#[test]
fn check_populates_enum_variant_payloads() {
    let prog = parse_src("enum Shape\n  Circle(Int)\n  Empty\nend");
    let typed = check(prog).expect("ok");
    let circle_def_id = typed
        .definitions
        .entries()
        .into_iter()
        .find(|(_, info)| info.name == "Circle")
        .map(|(id, _)| id)
        .unwrap();
    let payload = typed.variant_payloads.get(&circle_def_id).unwrap();
    assert_eq!(payload.payload.len(), 1);
    assert_eq!(payload.payload[0], Ty::Int);

    let empty_def_id = typed
        .definitions
        .entries()
        .into_iter()
        .find(|(_, info)| info.name == "Empty")
        .map(|(id, _)| id)
        .unwrap();
    let empty_payload = typed.variant_payloads.get(&empty_def_id).unwrap();
    assert!(empty_payload.payload.is_empty());
}

#[test]
fn check_populates_param_def_types() {
    let prog = parse_src("function f(x: Int): Int\n  return x\nend");
    let typed = check(prog).expect("ok");
    let param_def_id = typed
        .definitions
        .entries()
        .into_iter()
        .find(|(_, info)| matches!(info.kind, DefKind::Param))
        .map(|(id, _)| id)
        .unwrap();
    assert_eq!(*typed.def_types.get(&param_def_id).unwrap(), Ty::Int);
}

#[test]
fn check_populates_top_level_let_def_type() {
    let prog = parse_src("let pi: Scalar = 3.14");
    let typed = check(prog).expect("ok");
    let let_def_id = typed
        .definitions
        .entries()
        .into_iter()
        .find(|(_, info)| matches!(info.kind, DefKind::TopLevelLet))
        .map(|(id, _)| id)
        .unwrap();
    assert_eq!(
        *typed.def_types.get(&let_def_id).unwrap(),
        Ty::Scalar(Dimension::zero())
    );
}

#[test]
fn invalid_param_type_emits_single_diagnostic() {
    let prog = parse_src("function f(v: Vec): Int\n  return 0\nend");
    let err = check(prog).expect_err("expected diags");
    assert_eq!(err.len(), 1, "got: {:?}", err);
    assert!(err[0].message.contains("`Vec`"));
}

#[test]
fn invalid_return_type_emits_single_diagnostic() {
    let prog = parse_src("function f(): Vec\n  return 0\nend");
    let err = check(prog).expect_err("expected diags");
    assert_eq!(err.len(), 1, "got: {:?}", err);
    assert!(err[0].message.contains("`Vec`"));
}

#[test]
fn invalid_struct_field_type_emits_single_diagnostic() {
    let prog = parse_src("struct S\n  x: Vec\nend");
    let err = check(prog).expect_err("expected diags");
    assert_eq!(err.len(), 1, "got: {:?}", err);
    assert!(err[0].message.contains("`Vec`"));
}

#[test]
fn signature_pass_populates_generic_variant_with_param() {
    let prog = parse_src("enum Maybe<T>\n  Just(T)\n  Nothing\nend");
    let typed = check(prog).unwrap();

    let just_def = typed
        .definitions
        .entries()
        .into_iter()
        .find(|(_, info)| info.name == "Just")
        .map(|(id, _)| id)
        .unwrap();
    let sig = typed.def_types.get(&just_def).unwrap().dup();
    let Ty::Function(params, ret) = sig else {
        panic!("expected Ty::Function, got {sig:?}");
    };
    assert_eq!(params, vec![Ty::Param(0)]);
    let Ty::Enum(_, args) = *ret else {
        panic!("expected Ty::Enum return");
    };
    assert_eq!(args, vec![Ty::Param(0)]);

    let nothing_def = typed
        .definitions
        .entries()
        .into_iter()
        .find(|(_, info)| info.name == "Nothing")
        .map(|(id, _)| id)
        .unwrap();
    let sig = typed.def_types.get(&nothing_def).unwrap().dup();
    let Ty::Enum(_, args) = sig else {
        panic!("expected bare Ty::Enum for nullary, got {sig:?}");
    };
    assert_eq!(args, vec![Ty::Param(0)]);
}

#[test]
fn signature_pass_populates_two_param_enum() {
    let prog = parse_src("enum Result<T, E>\n  Ok(T)\n  Err(E)\nend");
    let typed = check(prog).unwrap();

    let ok_def = typed
        .definitions
        .entries()
        .into_iter()
        .find(|(_, info)| info.name == "Ok")
        .map(|(id, _)| id)
        .unwrap();
    let sig = typed.def_types.get(&ok_def).unwrap().dup();
    let Ty::Function(params, ret) = sig else {
        panic!("expected Ty::Function for Ok");
    };
    assert_eq!(params, vec![Ty::Param(0)]);
    let Ty::Enum(_, args) = *ret else {
        panic!("expected Ty::Enum return for Ok");
    };
    assert_eq!(args, vec![Ty::Param(0), Ty::Param(1)]);

    let err_def = typed
        .definitions
        .entries()
        .into_iter()
        .find(|(_, info)| info.name == "Err")
        .map(|(id, _)| id)
        .unwrap();
    let sig = typed.def_types.get(&err_def).unwrap().dup();
    let Ty::Function(params, ret) = sig else {
        panic!("expected Ty::Function for Err");
    };
    assert_eq!(params, vec![Ty::Param(1)]);
    let Ty::Enum(_, args) = *ret else {
        panic!("expected Ty::Enum return for Err");
    };
    assert_eq!(args, vec![Ty::Param(0), Ty::Param(1)]);
}

#[test]
fn signature_pass_populates_non_generic_variant_signature() {
    let prog = parse_src("enum Maybe\n  Just(Int)\n  Nothing\nend");
    let typed = check(prog).unwrap();

    let just_def = typed
        .definitions
        .entries()
        .into_iter()
        .find(|(_, info)| info.name == "Just")
        .map(|(id, _)| id)
        .unwrap();
    let sig = typed.def_types.get(&just_def).unwrap().dup();
    let Ty::Function(params, ret) = sig else {
        panic!("expected Ty::Function for Just");
    };
    assert_eq!(params, vec![Ty::Int]);
    let Ty::Enum(_, args) = *ret else {
        panic!("expected Ty::Enum return for Just");
    };
    assert!(args.is_empty(), "non-generic enum has no Param args");

    let nothing_def = typed
        .definitions
        .entries()
        .into_iter()
        .find(|(_, info)| info.name == "Nothing")
        .map(|(id, _)| id)
        .unwrap();
    let sig = typed.def_types.get(&nothing_def).unwrap().dup();
    let Ty::Enum(_, args) = sig else {
        panic!("expected bare Ty::Enum for non-generic nullary, got {sig:?}");
    };
    assert!(args.is_empty());
}

#[test]
fn signature_pass_outer_enum_first_writer_wins() {
    let prog = parse_src("enum E\n  A\nend\nenum E\n  B\nend");
    let (resolutions, definitions, binding_def_ids, mut diags) =
        resolve::resolve_program(&prog);
    let resolver_diag_count = diags.len();
    assert_eq!(
        resolver_diag_count, 1,
        "resolver should fire exactly one duplicate-name diag, got: {:?}",
        diags
    );
    assert!(
        diags[0].message.contains("already defined") || diags[0].message.contains("duplicate"),
        "resolver diag msg: {}",
        diags[0].message
    );

    let (_def_types, _struct_fields, variant_payloads) = signature_pass(
        &prog,
        &resolutions,
        &definitions,
        &binding_def_ids,
        &mut diags,
    );

    assert_eq!(
        diags.len(),
        resolver_diag_count,
        "signature_pass added {} cascade diag(s) over the resolver's: {:?}",
        diags.len() - resolver_diag_count,
        diags
    );

    let a_def = definitions
        .entries()
        .into_iter()
        .find(|(_, info)| info.name == "A" && matches!(info.kind, DefKind::EnumVariant))
        .map(|(id, _)| id)
        .expect("first enum's variant A must have a DefId");
    assert!(
        variant_payloads.contains_key(&a_def),
        "first enum's variant A must be lowered into variant_payloads"
    );

    let b_def = definitions
        .entries()
        .into_iter()
        .find(|(_, info)| info.name == "B" && matches!(info.kind, DefKind::EnumVariant))
        .map(|(id, _)| id)
        .expect(
            "second enum's variant B must have a DefId — without one, this test cannot \
             distinguish gate-on from gate-off",
        );
    assert!(
        !variant_payloads.contains_key(&b_def),
        "outer-enum gate must skip the duplicate enum's body — \
         variant B should NOT appear in variant_payloads"
    );
}

#[test]
fn signature_pass_nested_generic_payload() {
    let prog = parse_src(
        "enum Result<T, E>\n  Ok(T)\n  Err(E)\nend\nenum WrappedResult<T>\n  Wrap(Result<T, String>)\nend",
    );
    let typed = check(prog).unwrap();

    let wrap_def = typed
        .definitions
        .entries()
        .into_iter()
        .find(|(_, info)| info.name == "Wrap")
        .map(|(id, _)| id)
        .unwrap();
    let sig = typed.def_types.get(&wrap_def).unwrap().dup();
    let Ty::Function(params, _) = sig else {
        panic!("expected Ty::Function for Wrap");
    };
    let [Ty::Enum(_, inner_args)] = params.as_slice() else {
        panic!("expected nested Ty::Enum payload, got {params:?}");
    };
    assert_eq!(inner_args.len(), 2);
    assert_eq!(inner_args[0], Ty::Param(0));
    assert_eq!(inner_args[1], Ty::String);
}

#[test]
fn signature_pass_preserves_struct_and_let_handling() {
    let prog = parse_src("struct P\n  x: Int\nend\nlet pi: Scalar = 3.14");
    let typed = check(prog).unwrap();
    assert!(!typed.struct_fields.is_empty());
    assert!(!typed.def_types.is_empty());
}

#[test]
fn synth_int_literal_in_function_body_succeeds() {
    compile_src("function f(): Int\n  return 42\nend");
}

#[test]
fn check_int_literal_against_scalar_zero_succeeds() {
    compile_src("let x: Scalar = 5");
}

#[test]
fn struct_name_appears_in_type_mismatch_message() {
    let diags = diags_for("struct P\n  x: Scalar\nend\nfunction f(p: P): Int\n  return p\nend");
    assert_eq!(diags.len(), 1, "diags: {diags:?}");
    assert!(
        diags[0].message.contains("found `P`"),
        "message: {}",
        diags[0].message
    );
}

#[test]
fn return_value_type_mismatch_diag() {
    let diags = diags_for("function f(): Int\n  return true\nend");
    assert_eq!(diags.len(), 1, "diags: {:?}", diags);
    assert!(diags[0].message.contains("type mismatch"));
}

#[test]
fn struct_literal_with_correct_fields_succeeds() {
    compile_src(
        "struct Point\n  x: Scalar\n  y: Scalar\nend\nlet p: Point = Point { x: 1.0, y: 2.0 }",
    );
}

#[test]
fn struct_literal_missing_field_diag() {
    let diags = diags_for(
        "struct Point\n  x: Scalar\n  y: Scalar\nend\nlet p: Point = Point { x: 1.0 }",
    );
    assert_eq!(diags.len(), 1, "diags: {:?}", diags);
    assert!(
        diags[0].message.contains("missing field `y`"),
        "msg: {}",
        diags[0].message
    );
}

#[test]
fn struct_literal_extra_field_diag() {
    let diags =
        diags_for("struct Point\n  x: Scalar\nend\nlet p: Point = Point { x: 1.0, y: 2.0 }");
    assert_eq!(diags.len(), 1, "diags: {:?}", diags);
    assert!(
        diags[0].message.contains("`y`"),
        "msg: {}",
        diags[0].message
    );
}

#[test]
fn field_access_succeeds() {
    compile_src(
        "struct Point\n  x: Scalar\n  y: Scalar\nend\nfunction f(p: Point): Scalar\n  return p.x\nend",
    );
}

#[test]
fn field_access_unknown_field_diag() {
    let diags = diags_for(
        "struct Point\n  x: Scalar\nend\nfunction f(p: Point): Scalar\n  return p.zzz\nend",
    );
    assert_eq!(diags.len(), 1, "diags: {:?}", diags);
    assert!(
        diags[0].message.contains("`zzz`"),
        "msg: {}",
        diags[0].message
    );
}

#[test]
fn if_cond_must_be_bool() {
    let diags = diags_for(
        "function f(): Int\n  if 1 then\n    return 0\n  else\n    return 1\n  end\nend",
    );
    assert_eq!(diags.len(), 1, "diags: {:?}", diags);
    assert!(
        diags[0].message.contains("Bool"),
        "msg: {}",
        diags[0].message
    );
}

#[test]
fn if_arms_must_unify() {
    let diags = diags_for(
        "function f(): Int\n  if 1 < 2 then\n    1\n  else\n    true\n  end\n  return 0\nend",
    );
    assert_eq!(diags.len(), 1, "diags: {:?}", diags);
    assert!(
        diags[0].message.contains("type mismatch"),
        "msg: {}",
        diags[0].message
    );
}

#[test]
fn while_cond_must_be_bool() {
    let diags =
        diags_for("function f(): Int\n  while 1 do\n    return 0\n  end\n  return 1\nend");
    assert_eq!(diags.len(), 1, "diags: {:?}", diags);
    assert!(
        diags[0].message.contains("Bool"),
        "msg: {}",
        diags[0].message
    );
}

#[test]
fn for_range_start_must_be_int() {
    let diags = diags_for(
        "function f(): Int\n  for i = true, 5 do\n    return i\n  end\n  return 0\nend",
    );
    assert_eq!(diags.len(), 1, "diags: {:?}", diags);
    assert!(
        diags[0].message.contains("Int"),
        "msg: {}",
        diags[0].message
    );
}

#[test]
fn vec_lit_uniform_succeeds() {
    compile_src("let v: Vec<3> = [1.0, 2.0, 3.0]");
}

#[test]
fn vec_lit_element_mismatch_diag() {
    let diags = diags_for("let v: Vec<3> = [1.0, true, 3.0]");
    assert_eq!(diags.len(), 1, "diags: {:?}", diags);
    assert!(
        diags[0].message.contains("type mismatch"),
        "msg: {}",
        diags[0].message
    );
}

#[test]
fn mat_lit_non_rectangular_diag() {
    let diags = diags_for("let m: Mat<2, 3> = [[1.0, 2.0, 3.0], [4.0, 5.0]]");
    assert_eq!(diags.len(), 1, "diags: {:?}", diags);
    assert!(
        diags[0].message.contains("shape") || diags[0].message.contains("rows"),
        "msg: {}",
        diags[0].message
    );
}

#[test]
fn index_array_returns_element_type() {
    let diags = diags_for("function f(xs: Array<Int>): Bool\n  return xs[0]\nend");
    assert_eq!(diags.len(), 1, "diags: {:?}", diags);
    assert!(
        diags[0].message.contains("type mismatch"),
        "msg: {}",
        diags[0].message
    );
}

#[test]
fn index_dict_returns_value_type() {
    let diags = diags_for("function f(d: Dict<Int, String>): Int\n  return d[0]\nend");
    assert_eq!(diags.len(), 1, "diags: {:?}", diags);
    assert!(
        diags[0].message.contains("type mismatch"),
        "msg: {}",
        diags[0].message
    );
}

#[test]
fn if_arm_mismatch_does_not_cascade_to_outer() {
    let diags = diags_for("function f(): String\n  return if 1 < 2 then 1 else true end\nend");
    assert_eq!(diags.len(), 1, "diags: {:?}", diags);
    assert!(
        diags[0].message.contains("Bool"),
        "msg: {}",
        diags[0].message
    );
}

#[test]
fn dict_index_with_int_literal_widens_to_scalar_key() {
    compile_src("function f(d: Dict<Scalar, Int>): Int\n  return d[5]\nend");
}

#[test]
fn vec_lit_widens_int_lit_to_scalar() {
    compile_src("function f(): Vec<3>\n  return [1.0, 2, 3.0]\nend");
}

#[test]
fn typed_program_types_contains_no_unresolved_vars() {
    let src = "enum Maybe<T>\n  Just(T)\n  Nothing\nend\n\
               function f(): Maybe<Int>\n  return Just(1)\nend";
    let prog = parse(tokenize(src).unwrap()).unwrap();
    let typed = check(prog).expect("clean compile");

    fn contains_var(t: &Ty) -> bool {
        match t {
            Ty::Var(_) => true,
            Ty::Function(args, ret) => args.iter().any(contains_var) || contains_var(ret),
            Ty::Enum(_, args) => args.iter().any(contains_var),
            Ty::Array(t) => contains_var(t),
            Ty::Dict(k, v) => contains_var(k) || contains_var(v),
            _ => false,
        }
    }

    for (id, ty) in typed.types.entries() {
        assert!(!contains_var(ty), "Ty::Var leaked at {id:?}: {ty:?}");
    }
}

#[test]
fn duplicate_top_level_function_does_not_cascade_to_first_body() {
    let diags =
        diags_for("function f(): Int\n  return 0\nend\nfunction f(): Bool\n  return true\nend");
    assert_eq!(diags.len(), 1, "diags: {:?}", diags);
    assert!(
        diags[0].message.contains("already defined") || diags[0].message.contains("duplicate"),
        "msg: {}",
        diags[0].message
    );
}


#[test]
fn check_passes_a_program_without_items() {
    let prog = parse_src("\n\n");
    assert!(prog.items.is_empty());
    let typed = check(prog).expect("an empty program passes");
    assert!(typed.warnings.is_empty());
}

#[test]
fn check_refuses_a_variant_name_reused_by_a_function() {
    let prog = parse_src("enum E\n  A\nend\nfunction A(): Int\n  return 0\nend");
    let diags = check(prog).expect_err("a repeated top-level name is refused");
    assert!(diags.iter().any(|d| d.message == "`A` is already defined in this scope"));
}

#[test]
fn unbound_type_variable_is_reported() {
    let diags = diags_for(
        "enum Maybe<T>\n  Just(T)\n  Nothing\nend\nfunction f(): Int\n  Nothing\n  return 0\nend",
    );
    assert!(diags.iter().any(|d| d.message == "ambiguous type: annotation needed"), "diags: {:?}", diags);
}

#[test]
fn integer_while_condition_is_reported() {
    let diags = diags_for("function f(): Int\n  while 1 do\n  end\n  return 0\nend");
    assert!(diags.iter().any(|d| d.message == "expected `Bool` for condition, found `Int`"), "diags: {:?}", diags);
}
