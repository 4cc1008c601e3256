#![allow(unused_imports)]
use dyne::ast::Item;
use dyne::diag::Diagnostic;
use dyne::ids::DefId;
use dyne::lexer::tokenize;
use dyne::parser::parse;
use dyne::sema::dimension::Dimension;
use dyne::sema::resolve::resolve_program;
use dyne::sema::ty::{lower_type, Ty};

fn lower_first_let_ty(src: &str) -> (Ty, Vec<Diagnostic>) {
    let prog = parse(tokenize(src).unwrap()).unwrap();
    let (resolutions, defs, _, _) = resolve_program(&prog);
    let mut diags = Vec::new();
    let item = &prog.items[0];
    let ty = match item {
        Item::Let(l) => lower_type(&l.ty, &resolutions, &defs, &mut diags),
        _ => panic!("expected Let item"),
    };
    (ty, diags)
}

#[test]
fn lower_int_returns_ty_int() {
    let (ty, diags) = lower_first_let_ty("let x: Int = 0");
    assert_eq!(ty, Ty::Int);
    assert!(diags.is_empty());
}

#[test]
fn lower_bool_returns_ty_bool() {
    let (ty, _) = lower_first_let_ty("let x: Bool = true");
    assert_eq!(ty, Ty::Bool);
}

#[test]
fn lower_string_returns_ty_string() {
    let (ty, _) = lower_first_let_ty("let x: String = \"hi\"");
    assert_eq!(ty, Ty::String);
}

#[test]
fn lower_scalar_no_args_is_zero_dimension() {
    let (ty, _) = lower_first_let_ty("let x: Scalar = 0.0");
    assert_eq!(ty, Ty::Scalar(Dimension::zero()));
}

#[test]
fn lower_scalar_with_kg_unit_produces_kg_dimension() {
    let (ty, diags) = lower_first_let_ty("let x: Scalar<kg> = 0.0");
    assert_eq!(ty, Ty::Scalar(Dimension([0, 1, 0, 0, 0, 0, 0])));
    assert!(
        diags.is_empty(),
        "expected clean lowering, got diags: {:?}",
        diags
    );
}

#[test]
fn lower_scalar_with_compound_unit_meters_per_second() {
    let (ty, diags) = lower_first_let_ty("let v: Scalar<m/s> = 0.0");
    assert_eq!(ty, Ty::Scalar(Dimension([1, 0, -1, 0, 0, 0, 0])));
    assert!(diags.is_empty(), "diags: {:?}", diags);
}

#[test]
fn lower_scalar_with_derived_unit_newton() {
    let (ty, diags) = lower_first_let_ty("let f: Scalar<N> = 0.0");
    assert_eq!(ty, Ty::Scalar(Dimension([1, 1, -2, 0, 0, 0, 0])));
    assert!(diags.is_empty(), "diags: {:?}", diags);
}

#[test]
fn lower_scalar_with_unknown_unit_emits_diag() {
    let (ty, diags) = lower_first_let_ty("let x: Scalar<xyz> = 0.0");
    assert_eq!(ty, Ty::Error);
    assert_eq!(diags.len(), 1);
    assert!(diags[0].message.contains("unknown unit"));
    assert!(diags[0].message.contains("xyz"));
}

#[test]
fn lower_scalar_dimensionless_no_args() {
    let (ty, diags) = lower_first_let_ty("let x: Scalar = 0.0");
    assert_eq!(ty, Ty::Scalar(Dimension::zero()));
    assert!(diags.is_empty());
}

#[test]
fn lower_vec_with_unit_kg() {
    let (ty, diags) = lower_first_let_ty("let v: Vec<3, kg> = 0");
    assert_eq!(ty, Ty::Vec(3, Dimension([0, 1, 0, 0, 0, 0, 0])));
    assert!(diags.is_empty());
}

#[test]
fn lower_vec_with_compound_unit_meters_per_second() {
    let (ty, diags) = lower_first_let_ty("let v: Vec<3, m/s> = 0");
    assert_eq!(ty, Ty::Vec(3, Dimension([1, 0, -1, 0, 0, 0, 0])));
    assert!(diags.is_empty());
}

#[test]
fn lower_vec_with_derived_unit_force() {
    let (ty, diags) = lower_first_let_ty("let f: Vec<3, N> = 0");
    assert_eq!(ty, Ty::Vec(3, Dimension([1, 1, -2, 0, 0, 0, 0])));
    assert!(diags.is_empty());
}

#[test]
fn lower_vec_no_unit_is_dimensionless() {
    let (ty, diags) = lower_first_let_ty("let v: Vec<3> = 0");
    assert_eq!(ty, Ty::Vec(3, Dimension::zero()));
    assert!(diags.is_empty());
}

#[test]
fn lower_vec_with_unknown_unit_emits_diag() {
    let (ty, diags) = lower_first_let_ty("let v: Vec<3, xyz> = 0");
    assert_eq!(ty, Ty::Error);
    assert_eq!(diags.len(), 1);
    assert!(diags[0].message.contains("unknown unit"));
}

#[test]
fn lower_scalar_unknown_unit_returns_ty_error() {
    let (ty, diags) = lower_first_let_ty("let x: Scalar<xyz_typo> = 0.0");
    assert_eq!(ty, Ty::Error, "expected Ty::Error, got {ty:?}");
    assert_eq!(diags.len(), 1);
    assert!(diags[0].message.contains("unknown unit"));
    assert!(diags[0].message.contains("xyz_typo"));
}

#[test]
fn lower_vec_unknown_unit_returns_ty_error() {
    let (ty, diags) = lower_first_let_ty("let v: Vec<3, xyz_typo> = [0.0, 0.0, 0.0]");
    assert_eq!(ty, Ty::Error);
    assert_eq!(diags.len(), 1);
    assert!(diags[0].message.contains("unknown unit"));
}

#[test]
fn lower_scalar_with_compound_unknown_unit_dedup() {
    let (ty, diags) = lower_first_let_ty("let x: Scalar<xyz*xyz/xyz> = 0.0");
    assert_eq!(ty, Ty::Error);
    let unknown_xyz: Vec<&Diagnostic> = diags
        .iter()
        .filter(|d| d.message.contains("unknown unit") && d.message.contains("xyz"))
        .collect();
    assert_eq!(
        unknown_xyz.len(),
        1,
        "expected one xyz diag, got: {:?}",
        diags
    );
}

#[test]
fn lower_scalar_with_two_args_emits_arity_error() {
    let (ty, diags) = lower_first_let_ty("let x: Scalar<kg, extra> = 0.0");
    assert_eq!(ty, Ty::Error);
    assert_eq!(diags.len(), 1, "diags: {:?}", diags);
    assert!(
        diags[0].message.contains("at most one unit argument"),
        "msg: {}",
        diags[0].message
    );
}

#[test]
fn lower_vec_with_three_args_emits_arity_error() {
    let (ty, diags) = lower_first_let_ty("let v: Vec<3, kg, extra> = 0");
    assert_eq!(ty, Ty::Error);
    assert_eq!(diags.len(), 1, "diags: {:?}", diags);
    assert!(
        diags[0]
            .message
            .contains("at most a size and an optional unit argument"),
        "msg: {}",
        diags[0].message
    );
}

#[test]
fn lower_scalar_with_distinct_unknown_units_each_reported() {
    let (ty, diags) = lower_first_let_ty("let x: Scalar<foo*bar/foo> = 0.0");
    assert_eq!(ty, Ty::Error);
    let unknown_foo = diags
        .iter()
        .filter(|d| d.message.contains("unknown unit") && d.message.contains("foo"))
        .count();
    let unknown_bar = diags
        .iter()
        .filter(|d| d.message.contains("unknown unit") && d.message.contains("bar"))
        .count();
    assert_eq!(unknown_foo, 1, "diags: {:?}", diags);
    assert_eq!(unknown_bar, 1, "diags: {:?}", diags);
}

#[test]
fn lower_vec_with_generic_type_arg_emits_diag() {
    let (ty, diags) = lower_first_let_ty("let v: Vec<3, Vec<3>> = 0");
    assert_eq!(ty, Ty::Error);
    assert_eq!(diags.len(), 1, "diags: {:?}", diags);
    assert!(
        diags[0].message.contains("unit expression"),
        "msg: {}",
        diags[0].message
    );
}

#[test]
fn lower_mat_with_two_sizes() {
    let (ty, _) = lower_first_let_ty("let m: Mat<3, 4> = 0");
    assert_eq!(ty, Ty::Mat(3, 4));
}

#[test]
fn lower_array_of_int() {
    let (ty, _) = lower_first_let_ty("let xs: Array<Int> = 0");
    assert_eq!(ty, Ty::Array(Box::new(Ty::Int)));
}

#[test]
fn lower_dict_int_string() {
    let (ty, _) = lower_first_let_ty("let d: Dict<Int, String> = 0");
    assert_eq!(ty, Ty::Dict(Box::new(Ty::Int), Box::new(Ty::String)));
}

#[test]
fn lower_user_struct_returns_struct_def_id() {
    let src = "struct Point\n  x: Scalar\n  y: Scalar\nend\nlet p: Point = 0";
    let prog = parse(tokenize(src).unwrap()).unwrap();
    let (resolutions, defs, _, _) = resolve_program(&prog);
    let mut diags = Vec::new();
    let p_let = &prog.items[1];
    let ty = match p_let {
        dyne::ast::Item::Let(l) => lower_type(&l.ty, &resolutions, &defs, &mut diags),
        _ => panic!(),
    };
    assert!(matches!(ty, Ty::Struct(_)));
    assert!(diags.is_empty());
}

#[test]
fn lower_user_generic_enum_concrete_args() {
    let src = "enum Result<T, E>\n  Ok(T)\n  Err(E)\nend\nlet r: Result<Int, String> = 0";
    let prog = parse(tokenize(src).unwrap()).unwrap();
    let (resolutions, defs, _, _) = resolve_program(&prog);
    let mut diags = Vec::new();
    let item = &prog.items[1];
    let ty = match item {
        dyne::ast::Item::Let(l) => lower_type(&l.ty, &resolutions, &defs, &mut diags),
        _ => panic!("expected Let item"),
    };
    assert!(
        matches!(&ty, Ty::Enum(_, args) if args.len() == 2 && args[0] == Ty::Int && args[1] == Ty::String),
        "ty: {ty:?}"
    );
    assert!(diags.is_empty(), "diags: {:?}", diags);
}

#[test]
fn lower_user_generic_arity_too_few() {
    let src = "enum Result<T, E>\n  Ok(T)\n  Err(E)\nend\nlet r: Result<Int> = 0";
    let prog = parse(tokenize(src).unwrap()).unwrap();
    let (resolutions, defs, _, _) = resolve_program(&prog);
    let mut diags = Vec::new();
    let item = &prog.items[1];
    let ty = match item {
        dyne::ast::Item::Let(l) => lower_type(&l.ty, &resolutions, &defs, &mut diags),
        _ => panic!("expected Let item"),
    };
    assert_eq!(ty, Ty::Error);
    assert_eq!(diags.len(), 1, "diags: {:?}", diags);
    assert!(diags[0].message.contains("expects 2 type argument"));
}

#[test]
fn lower_user_generic_arity_too_many() {
    let src = "enum Maybe<T>\n  Just(T)\n  Nothing\nend\nlet m: Maybe<Int, String> = 0";
    let prog = parse(tokenize(src).unwrap()).unwrap();
    let (resolutions, defs, _, _) = resolve_program(&prog);
    let mut diags = Vec::new();
    let item = &prog.items[1];
    let ty = match item {
        dyne::ast::Item::Let(l) => lower_type(&l.ty, &resolutions, &defs, &mut diags),
        _ => panic!("expected Let item"),
    };
    assert_eq!(ty, Ty::Error);
    assert_eq!(diags.len(), 1, "diags: {:?}", diags);
    assert!(diags[0].message.contains("expects 1 type argument"));
}

#[test]
fn lower_user_generic_nested() {
    let src = "enum Result<T, E>\n  Ok(T)\n  Err(E)\nend\nenum Maybe<T>\n  Just(T)\n  Nothing\nend\nlet x: Result<Maybe<Int>, String> = 0";
    let prog = parse(tokenize(src).unwrap()).unwrap();
    let (resolutions, defs, _, _) = resolve_program(&prog);
    let mut diags = Vec::new();
    let item = &prog.items[2];
    let ty = match item {
        dyne::ast::Item::Let(l) => lower_type(&l.ty, &resolutions, &defs, &mut diags),
        _ => panic!("expected Let item"),
    };
    assert!(diags.is_empty(), "diags: {:?}", diags);
    if let Ty::Enum(_, args) = ty {
        assert_eq!(args.len(), 2);
        assert!(
            matches!(&args[0], Ty::Enum(_, inner) if inner.len() == 1 && inner[0] == Ty::Int),
            "args[0]: {:?}",
            args[0]
        );
        assert_eq!(args[1], Ty::String);
    } else {
        panic!("expected outer Enum, got: {ty:?}");
    }
}

#[test]
fn lower_non_enum_used_with_args_diag() {
    let src = "struct Point\n  x: Scalar\n  y: Scalar\nend\nlet p: Point<Int> = 0";
    let prog = parse(tokenize(src).unwrap()).unwrap();
    let (resolutions, defs, _, _) = resolve_program(&prog);
    let mut diags = Vec::new();
    let item = &prog.items[1];
    let ty = match item {
        dyne::ast::Item::Let(l) => lower_type(&l.ty, &resolutions, &defs, &mut diags),
        _ => panic!("expected Let item"),
    };
    assert_eq!(ty, Ty::Error);
    assert_eq!(diags.len(), 1, "diags: {:?}", diags);
    assert!(
        diags[0].message.contains("not a generic type"),
        "msg: {}",
        diags[0].message
    );
}


#[test]
fn lower_mat_with_zero_dimension_reports_once() {
    let (ty, diags) = lower_first_let_ty("let m: Mat<0, 4> = 0");
    assert_eq!(ty, Ty::Error);
    assert_eq!(diags.len(), 1);
    assert_eq!(diags[0].message, "`Mat` requires two positive integer dimensions (e.g. `Mat<3, 4>`)");
}

#[test]
fn lower_vec_with_integer_unit_reports_once() {
    let (ty, diags) = lower_first_let_ty("let v: Vec<3, 2> = 0");
    assert_eq!(ty, Ty::Error);
    assert_eq!(diags.len(), 1);
    assert_eq!(diags[0].message, "`Vec` second argument must be a unit, not an integer");
}

#[test]
fn lower_scalar_with_integer_argument_reports_once() {
    let (ty, diags) = lower_first_let_ty("let s: Scalar<3> = 0");
    assert_eq!(ty, Ty::Error);
    assert_eq!(diags.len(), 1);
    assert_eq!(diags[0].message, "`Scalar` accepts at most one unit argument");
}

#[test]
fn lower_vec_with_unit_reports_nothing() {
    let (ty, diags) = lower_first_let_ty("let v: Vec<3, m/s> = 0");
    assert_eq!(ty, Ty::Vec(3, Dimension([1, 0, -1, 0, 0, 0, 0])));
    assert!(diags.is_empty());
}
