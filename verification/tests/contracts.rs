use dyne::ast::{ExprKind, Item};
use dyne::check;
use dyne::diag::{Diagnostic, Phase};
use dyne::ids::NodeId;
use dyne::lexer::{tokenize, Token, TokenKind};
use dyne::parser::parse;
use dyne::sema::dimension::Dimension;
use dyne::sema::resolve::resolve_program;
use dyne::source::Span;

fn tokens(source: &str) -> Vec<Token> {
    tokenize(source).unwrap()
}

fn lex_error(source: &str) -> Diagnostic {
    tokenize(source).expect_err("expected a lexical error")
}

fn sema_errors(src: &str) -> Vec<Diagnostic> {
    let prog = parse(tokenize(src).unwrap()).unwrap();
    check(prog).expect_err("expected diagnostics")
}

fn accepts(src: &str) {
    let prog = parse(tokenize(src).unwrap()).unwrap();
    assert!(check(prog).is_ok());
}

#[test]
fn identifier_token_spells_its_name() {
    let ts = tokens("alpha_1 beta");
    assert_eq!(ts[0].kind, TokenKind::Ident("alpha_1".to_string()));
    assert_eq!(ts[0].span, Span::new(0, 7));
    assert_eq!(ts[1].kind, TokenKind::Ident("beta".to_string()));
    assert_eq!(ts[1].span, Span::new(8, 12));
    assert_eq!(ts[2].kind, TokenKind::Eof);
    assert_eq!(ts[2].span, Span::new(12, 12));
}

#[test]
fn keyword_is_not_an_identifier_but_a_longer_name_is() {
    let ts = tokens("end ending");
    assert_eq!(ts[0].kind, TokenKind::End);
    assert_eq!(ts[1].kind, TokenKind::Ident("ending".to_string()));
}

#[test]
fn string_token_holds_decoded_escapes() {
    let ts = tokens("\"a\\n\\\"b\\\\\"");
    assert_eq!(ts[0].kind, TokenKind::Str("a\n\"b\\".to_string()));
    assert_eq!(ts[0].span, Span::new(0, 10));
}

#[test]
fn integer_token_holds_its_value() {
    let ts = tokens("12345");
    assert_eq!(ts[0].kind, TokenKind::Int(12345));
}

#[test]
fn largest_integer_literal_is_accepted() {
    let ts = tokens("9223372036854775807");
    assert_eq!(ts[0].kind, TokenKind::Int(i64::MAX));
}

#[test]
fn float_token_keeps_its_spelling() {
    let ts = tokens("1.5e-3 2E7");
    assert_eq!(ts[0].kind, TokenKind::Float("1.5e-3".to_string()));
    assert_eq!(ts[1].kind, TokenKind::Float("2E7".to_string()));
}

#[test]
fn dot_without_digit_ends_an_integer() {
    let ts = tokens("3.x");
    assert_eq!(ts[0].kind, TokenKind::Int(3));
    assert_eq!(ts[1].kind, TokenKind::Dot);
    assert_eq!(ts[2].kind, TokenKind::Ident("x".to_string()));
}

#[test]
fn two_character_operators_are_longest_matches() {
    let ts = tokens("a->b<=c");
    let kinds: Vec<TokenKind> = ts.into_iter().map(|t| t.kind).collect();
    assert_eq!(
        kinds,
        vec![
            TokenKind::Ident("a".to_string()),
            TokenKind::Arrow,
            TokenKind::Ident("b".to_string()),
            TokenKind::Le,
            TokenKind::Ident("c".to_string()),
            TokenKind::Eof,
        ]
    );
}

#[test]
fn comment_hides_what_would_be_an_error() {
    let ts = tokens("x // ! @ \"\ny");
    let kinds: Vec<TokenKind> = ts.into_iter().map(|t| t.kind).collect();
    assert_eq!(
        kinds,
        vec![
            TokenKind::Ident("x".to_string()),
            TokenKind::Newline,
            TokenKind::Ident("y".to_string()),
            TokenKind::Eof,
        ]
    );
}

#[test]
fn spans_count_utf8_bytes() {
    let ts = tokens("\"\u{e9}\" x");
    assert_eq!(ts[0].kind, TokenKind::Str("\u{e9}".to_string()));
    assert_eq!(ts[0].span, Span::new(0, 4));
    assert_eq!(ts[1].span, Span::new(5, 6));
}

#[test]
fn lone_bang_is_a_lexical_error() {
    let d = lex_error("a ! b");
    assert_eq!(d.phase, Phase::Lex);
}

#[test]
fn unknown_character_is_a_lexical_error() {
    let d = lex_error("x = @");
    assert_eq!(d.phase, Phase::Lex);
    assert_eq!(d.span, Span::new(4, 5));
}

#[test]
fn string_broken_by_a_line_break_is_a_lexical_error() {
    assert_eq!(lex_error("\"ab\ncd\"").phase, Phase::Lex);
    assert_eq!(lex_error("\"abc").phase, Phase::Lex);
}

#[test]
fn unknown_escape_is_a_lexical_error() {
    assert_eq!(lex_error("\"\\q\"").phase, Phase::Lex);
}

#[test]
fn integer_beyond_i64_is_a_lexical_error_but_a_float_is_not() {
    assert_eq!(lex_error("99999999999999999999").phase, Phase::Lex);
    let ts = tokens("99999999999999999999.0");
    assert_eq!(ts[0].kind, TokenKind::Float("99999999999999999999.0".to_string()));
}

#[test]
fn enum_match_missing_a_variant_is_refused() {
    let diags = sema_errors(
        "enum Color\n  Red\n  Green\n  Blue\nend\nfunction f(c: Color): Int\n  return match c\n    case Red then 1\n    case Green then 2\n  end\nend",
    );
    assert_eq!(diags.len(), 1, "diags: {:?}", diags);
    assert!(diags[0].message.contains("Blue"), "msg: {}", diags[0].message);
}

#[test]
fn enum_match_covering_every_variant_is_accepted() {
    accepts(
        "enum Color\n  Red\n  Green\n  Blue\nend\nfunction f(c: Color): Int\n  return match c\n    case Red then 1\n    case Green then 2\n    case Blue then 3\n  end\nend",
    );
}

#[test]
fn bool_match_needs_both_values() {
    let diags = sema_errors("function f(b: Bool): Int\n  return match b\n    case true then 1\n  end\nend");
    assert_eq!(diags.len(), 1, "diags: {:?}", diags);
    assert!(diags[0].message.contains("false"), "msg: {}", diags[0].message);
    accepts("function g(b: Bool): Int\n  return match b\n    case true then 1\n    case false then 0\n  end\nend");
}

#[test]
fn int_match_needs_a_catch_all() {
    let diags = sema_errors("function f(n: Int): Int\n  return match n\n    case 1 then 1\n  end\nend");
    assert_eq!(diags.len(), 1, "diags: {:?}", diags);
    accepts("function g(n: Int): Int\n  return match n\n    case 1 then 1\n    case other then other\n  end\nend");
}

#[test]
fn distinct_binding_sites_get_distinct_definitions() {
    let prog = parse(tokenize("let a: Int = 1\nlet b: Int = 2\nfunction f(x: Int): Int\n  return x\nend").unwrap()).unwrap();
    let (_, _, bindings, diags) = resolve_program(&prog);
    assert!(diags.is_empty());
    let keys = bindings.keys();
    assert!(keys.len() >= 4);
    let mut defs: Vec<u32> = Vec::new();
    for k in keys.iter() {
        let d = bindings.get(k).unwrap();
        assert!(!defs.contains(&d.0), "two binding sites share {:?}", d);
        defs.push(d.0);
    }
    let unused = NodeId(u32::MAX - 1);
    assert!(bindings.get(&unused).is_none());
}

#[test]
fn dimensionless_is_the_unit_of_mul_and_div() {
    let newton = Dimension([1, 1, -2, 0, 0, 0, 0]);
    assert_eq!(newton.mul(Dimension::zero()), Ok(newton));
    assert_eq!(newton.div(Dimension::zero()), Ok(newton));
}

#[test]
fn dividing_a_product_by_a_factor_gives_the_other() {
    let kg = Dimension([0, 1, 0, 0, 0, 0, 0]);
    let m_per_s = Dimension([1, 0, -1, 0, 0, 0, 0]);
    let momentum = kg.mul(m_per_s).unwrap();
    assert_eq!(momentum.div(m_per_s), Ok(kg));
    assert_eq!(momentum.div(kg), Ok(m_per_s));
}

#[test]
fn small_powers_of_a_dimension() {
    let m_per_s = Dimension([1, 0, -1, 0, 0, 0, 0]);
    assert_eq!(m_per_s.pow(1), Ok(m_per_s));
    assert_eq!(m_per_s.pow(0), Ok(Dimension::zero()));
    assert_eq!(m_per_s.pow(2), m_per_s.mul(m_per_s));
    assert_eq!(m_per_s.pow(2), Ok(Dimension([2, 0, -2, 0, 0, 0, 0])));
}

#[test]
fn dividing_by_itself_is_dimensionless() {
    let x = Dimension([3, -1, 2, 0, 1, 0, -4]);
    assert_eq!(x.div(x), Ok(Dimension::zero()));
}

#[test]
fn multiplication_of_dimensions_commutes() {
    let a = Dimension([1, 2, 0, 0, 0, 0, 0]);
    let b = Dimension([0, -1, 3, 0, 0, 0, 1]);
    assert_eq!(a.mul(b), b.mul(a));
}

#[test]
fn integer_literal_widens_to_a_dimensionless_scalar() {
    accepts("function f(): Scalar\n  return 3\nend");
}

#[test]
fn numeric_literal_takes_the_expected_unit() {
    accepts("function f(): Scalar<kg>\n  return 2.5\nend");
    accepts("function g(): Scalar<m>\n  return -4\nend");
}

#[test]
fn int_variable_is_not_widened_to_a_scalar() {
    let diags = sema_errors("function f(n: Int): Scalar\n  return n\nend");
    assert_eq!(diags.len(), 1, "diags: {:?}", diags);
}

#[test]
fn accumulation_in_a_loop_is_warned_once_per_assignment() {
    let prog = parse(tokenize(
        "function f(xs: Array<Scalar>): Scalar\n  let acc: Scalar = 0.0\n  for x in xs do\n    acc = acc + x\n    acc = x + acc\n  end\n  return acc\nend",
    ).unwrap()).unwrap();
    let typed = check(prog).expect("ok");
    assert_eq!(typed.warnings.len(), 2, "warnings: {:?}", typed.warnings);
    assert!(typed.warnings[0].span.start < typed.warnings[1].span.start);
}

#[test]
fn accumulation_outside_a_loop_or_of_ints_is_not_warned() {
    let prog = parse(tokenize(
        "function f(x: Scalar, n: Int): Scalar\n  let acc: Scalar = 0.0\n  acc = acc + x\n  let k: Int = 0\n  while k < n do\n    k = k + 1\n  end\n  return acc\nend",
    ).unwrap()).unwrap();
    let typed = check(prog).expect("ok");
    assert!(typed.warnings.is_empty(), "warnings: {:?}", typed.warnings);
}

#[test]
fn every_resolution_names_its_definition() {
    let src = "struct Point\n  x: Scalar\nend\nlet a: Int = 1\nfunction f(p: Point): Int\n  return a\nend\nfunction g(): Int\n  let q: Point = Point { x: 1.0 }\n  return f(q)\nend";
    let prog = parse(tokenize(src).unwrap()).unwrap();
    let (resolutions, definitions, _, diags) = resolve_program(&prog);
    assert!(diags.is_empty(), "diags: {:?}", diags);
    let keys = resolutions.keys();
    assert!(keys.len() >= 5);
    let mut seen: Vec<String> = Vec::new();
    for k in keys.iter() {
        let d = resolutions.get(k).unwrap();
        let info = definitions.get(d).unwrap();
        assert!(["Point", "a", "f", "q"].contains(&info.name.as_str()), "resolved to {}", info.name);
        seen.push(info.name.clone());
    }
    for name in ["Point", "a", "f", "q"] {
        assert!(seen.iter().any(|s| s == name), "no use of {} resolved", name);
    }
}

#[test]
fn every_node_of_a_parsed_program_has_its_own_id() {
    let prog = parse(tokens("let x: Int = (1 + 2) * 3\n")).unwrap();
    let mut ids: Vec<u32> = vec![prog.id.0];
    match &prog.items[0] {
        Item::Let(l) => {
            ids.push(l.ty.id.0);
            ids.push(l.init.id.0);
            match &l.init.kind {
                ExprKind::BinOp(_, a, b) => {
                    ids.push(a.id.0);
                    ids.push(b.id.0);
                    match &a.kind {
                        ExprKind::BinOp(_, c, d) => {
                            ids.push(c.id.0);
                            ids.push(d.id.0);
                        }
                        other => panic!("unexpected {:?}", other),
                    }
                }
                other => panic!("unexpected {:?}", other),
            }
        }
        other => panic!("unexpected {:?}", other),
    }
    let mut sorted = ids.clone();
    sorted.sort();
    sorted.dedup();
    assert_eq!(sorted.len(), ids.len());
    assert_eq!(sorted, vec![0, 1, 2, 3, 4, 5, 6]);
}
