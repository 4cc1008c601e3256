//! Type-annotation parser.

use vstd::prelude::*;
use crate::ast::{Type, TypeArg, TypeKind, UnitExpr, UnitExprKind};
use crate::diag::Diagnostic;
use crate::ids::NodeId;
use crate::lexer::token::TokenKind;
use crate::ast::node_ids::{lemma_fresh_join, lemma_fresh_snoc, targ_ids, targs_ids, type_ids, types_ids, unit_ids};
use crate::parser::{ahead, gave, ids_exhausted, parse_err, steps, Parser};
use crate::source::Span;
use crate::text::str_eq;

verus! {

broadcast use vstd::std_specs::vec::group_vec_axioms;

/// A type: `Name`, `Name<arg, ...>` or `Fn(T, ...) -> R`.
pub fn parse_type(p: &mut Parser) -> (r: Result<Type, Diagnostic>)
    requires
        old(p).wf(),
    ensures
        steps(*old(p), *final(p)),
        r is Ok ==> final(p).pos > old(p).pos,
        r matches Err(d) ==> parse_err(d),
        r matches Ok(t) ==> gave(*old(p), *final(p), type_ids(t)),
        !(old(p).cur() is Ident) ==> r is Err,
        old(p).cur() matches TokenKind::Ident(n) ==> (r matches Ok(t) ==> if n@ == "Fn"@ {
            t.kind is Function
        } else if ahead(*old(p), 1) is Lt {
            t.kind matches TypeKind::Generic(m, _) && m == n
        } else {
            t.kind == TypeKind::Named(n) && final(p).pos == old(p).pos + 1
        }),
        r matches Ok(t) ==> (t.kind matches TypeKind::Generic(_, args) ==> forall|i: int| 0 <= i < args@.len()
            ==> #[trigger] units_left(args@[i])),
        old(p).cur() matches TokenKind::Ident(n) ==> (n@ != "Fn"@ && !(ahead(*old(p), 1) is Lt) ==> match r {
            Ok(t) => t.kind == TypeKind::Named(n) && final(p).pos == old(p).pos + 1
                && final(p).next_node_id == old(p).next_node_id + 1,
            Err(_) => ids_exhausted(*old(p)),
        }),
    decreases old(p).tokens@.len() - old(p).pos, 1nat,
{
    let start = p.current_span();
    let is_fn = match p.peek_kind() {
        TokenKind::Ident(name) => str_eq(name.as_str(), "Fn"),
        _ => false,
    };
    let ghost n0 = p.next_node_id as int;
    if is_fn {
        p.advance();
        p.expect(&TokenKind::LParen, "'('")?;
        let params = parse_type_list(p, &TokenKind::RParen, None)?;
        let ghost n1 = p.next_node_id as int;
        p.expect(&TokenKind::RParen, "')'")?;
        p.expect(&TokenKind::Arrow, "'->'")?;
        let ghost n2 = p.next_node_id as int;
        let ret = parse_type(p)?;
        let ghost n3 = p.next_node_id as int;
        let end = ret.span;
        let id = p.fresh_node_id()?;
        proof {
            lemma_fresh_join(types_ids(params@), type_ids(ret), n0, n1, n2, n3);
            lemma_fresh_snoc(types_ids(params@) + type_ids(ret), id, n0, n3);
        }
        return Ok(Type { kind: TypeKind::Function(params, Box::new(ret)), span: Span::merge(start, end), id });
    }
    let name = match p.peek_kind() {
        TokenKind::Ident(n) => n.clone(),
        _ => {
            return Err(p.error_found("expected ", "type name"));
        },
    };
    let ident_span = p.advance();
    if p.eat(&TokenKind::Lt) {
        let args = parse_type_arg_list(p)?;
        let ghost n1 = p.next_node_id as int;
        let end_span = p.current_span();
        p.expect(&TokenKind::Gt, "'>'")?;
        let id = p.fresh_node_id()?;
        proof {
            lemma_fresh_snoc(targs_ids(args@), id, n0, n1);
        }
        Ok(Type { kind: TypeKind::Generic(name, args), span: Span::merge(ident_span, end_span), id })
    } else {
        let id = p.fresh_node_id()?;
        proof {
            lemma_fresh_snoc(Seq::empty(), id, n0, n0);
            assert(Seq::<NodeId>::empty() + seq![id] =~= seq![id]);
        }
        Ok(Type { kind: TypeKind::Named(name), span: ident_span, id })
    }
}

/// A comma-separated list of types up to (not including) `close`,
/// allowing newlines and a trailing comma. An empty list is rejected with
/// `empty_msg` when one is given.
pub fn parse_type_list(p: &mut Parser, close: &TokenKind, empty_msg: Option<&str>) -> (r: Result<Vec<Type>, Diagnostic>)
    requires
        old(p).wf(),
        !(*close is Eof),
    ensures
        steps(*old(p), *final(p)),
        r matches Err(d) ==> parse_err(d),
        empty_msg is Some ==> (r matches Ok(v) ==> v@.len() > 0),
        r matches Ok(v) ==> gave(*old(p), *final(p), types_ids(v@)),
    decreases old(p).tokens@.len() - old(p).pos, 3nat,
{
    let ghost n0 = p.next_node_id as int;
    p.consume_newlines();
    if p.at(close) {
        return match empty_msg {
            None => Ok(Vec::new()),
            Some(m) => Err(p.error_here(m)),
        };
    }
    let mut items: Vec<Type> = Vec::new();
    let first = parse_type(p)?;
    items.push(first);
    proof {
        assert(items@.drop_last() =~= Seq::<Type>::empty());
        assert(types_ids(Seq::<Type>::empty()) =~= Seq::<NodeId>::empty());
        assert(types_ids(items@) =~= type_ids(first));
    }
    p.consume_newlines();
    while p.eat(&TokenKind::Comma)
        invariant
            steps(*old(p), *p),
            items@.len() > 0,
            n0 == old(p).next_node_id,
            gave(*old(p), *p, types_ids(items@)),
        decreases p.tokens@.len() - p.pos,
    {
        p.consume_newlines();
        if p.at(close) {
            break;
        }
        let ghost n1 = p.next_node_id as int;
        let ghost before = items@;
        let t = parse_type(p)?;
        items.push(t);
        proof {
            assert(items@.drop_last() =~= before);
            lemma_fresh_join(types_ids(before), type_ids(t), n0, n1, n1, p.next_node_id as int);
        }
        p.consume_newlines();
    }
    Ok(items)
}

/// The argument list of a generic type, after `<`; at least one argument.
fn parse_type_arg_list(p: &mut Parser) -> (r: Result<Vec<TypeArg>, Diagnostic>)
    requires
        old(p).wf(),
    ensures
        steps(*old(p), *final(p)),
        r matches Err(d) ==> parse_err(d),
        r matches Ok(v) ==> gave(*old(p), *final(p), targs_ids(v@)),
        r matches Ok(v) ==> forall|i: int| 0 <= i < v@.len() ==> #[trigger] units_left(v@[i]),
    decreases old(p).tokens@.len() - old(p).pos, 3nat,
{
    let ghost n0 = p.next_node_id as int;
    p.consume_newlines();
    let mut items: Vec<TypeArg> = Vec::new();
    let first = parse_type_arg(p)?;
    items.push(first);
    proof {
        assert(items@.drop_last() =~= Seq::<TypeArg>::empty());
        assert(targs_ids(Seq::<TypeArg>::empty()) =~= Seq::<NodeId>::empty());
        assert(targs_ids(items@) =~= targ_ids(first));
    }
    p.consume_newlines();
    while p.eat(&TokenKind::Comma)
        invariant
            steps(*old(p), *p),
            n0 == old(p).next_node_id,
            gave(*old(p), *p, targs_ids(items@)),
            forall|i: int| 0 <= i < items@.len() ==> #[trigger] units_left(items@[i]),
        decreases p.tokens@.len() - p.pos,
    {
        p.consume_newlines();
        if p.at(&TokenKind::Gt) {
            break;
        }
        let ghost n1 = p.next_node_id as int;
        let ghost before = items@;
        let t = parse_type_arg(p)?;
        items.push(t);
        proof {
            assert(items@.drop_last() =~= before);
            lemma_fresh_join(targs_ids(before), targ_ids(t), n0, n1, n1, p.next_node_id as int);
        }
        p.consume_newlines();
    }
    Ok(items)
}

/// `<T, ...>` after an enum name: bare type-parameter names. No list at
/// all yields an empty vector; an empty `<>` is rejected.
pub fn parse_type_param_list(p: &mut Parser) -> (r: Result<Vec<String>, Diagnostic>)
    requires
        old(p).wf(),
    ensures
        steps(*old(p), *final(p)),
        r matches Err(d) ==> parse_err(d),
{
    if !p.eat(&TokenKind::Lt) {
        return Ok(Vec::new());
    }
    p.consume_newlines();
    if p.at(&TokenKind::Gt) {
        return Err(p.error_here("empty type parameter list `<>` is not allowed; omit the brackets entirely"));
    }
    let mut params: Vec<String> = Vec::new();
    let first = parse_type_param_name(p)?;
    params.push(first);
    p.consume_newlines();
    while p.eat(&TokenKind::Comma)
        invariant
            steps(*old(p), *p),
        decreases p.tokens@.len() - p.pos,
    {
        p.consume_newlines();
        if p.at(&TokenKind::Gt) {
            break;
        }
        let n = parse_type_param_name(p)?;
        params.push(n);
        p.consume_newlines();
    }
    p.expect(&TokenKind::Gt, "'>'")?;
    Ok(params)
}

fn parse_type_param_name(p: &mut Parser) -> (r: Result<String, Diagnostic>)
    requires
        old(p).wf(),
    ensures
        steps(*old(p), *final(p)),
        r is Ok ==> final(p).pos > old(p).pos,
        r matches Err(d) ==> parse_err(d),
{
    match p.peek_kind() {
        TokenKind::Ident(n) => {
            let n = n.clone();
            p.advance();
            Ok(n)
        },
        _ => Err(p.error_here("expected type parameter name")),
    }
}

/// A generic argument: an integer size, a unit expression (an identifier
/// followed somewhere before the next `,`/`>`/`<` by `*`, `/` or `^`), or
/// a type.
fn parse_type_arg(p: &mut Parser) -> (r: Result<TypeArg, Diagnostic>)
    requires
        old(p).wf(),
    ensures
        steps(*old(p), *final(p)),
        r is Ok ==> final(p).pos > old(p).pos,
        r matches Err(d) ==> parse_err(d),
        r matches Ok(a) ==> gave(*old(p), *final(p), targ_ids(a)),
        r matches Ok(a) ==> units_left(a),
        atom_chain3(*old(p)) ==> (r matches Ok(a) ==> (a matches TypeArg::Unit(u) && chain3_left(*old(p), u))),
    decreases old(p).tokens@.len() - old(p).pos, 2nat,
{
    if let TokenKind::Int(n) = p.peek_kind() {
        let n = *n;
        p.advance();
        return Ok(TypeArg::Int(n));
    }
    if let TokenKind::Ident(_) = p.peek_kind() {
        let mut look: usize = 1;
        let n: usize = p.tokens.len();
        loop
            invariant
                n == p.tokens@.len(),
                p.wf(),
                *p == *old(p),
                p.pos + look < p.tokens@.len(),
                look >= 1,
                atom_chain3(*old(p)) ==> look == 1,
            ensures
                p.wf(),
                *p == *old(p),
                !atom_chain3(*old(p)),
            decreases p.tokens@.len() + 1 - p.pos - look,
        {
            match p.peek_ahead(look) {
                TokenKind::Star | TokenKind::Slash | TokenKind::Caret => {
                    let u = parse_unit_expr(p)?;
                    return Ok(TypeArg::Unit(u));
                },
                TokenKind::Comma | TokenKind::Gt | TokenKind::Eof | TokenKind::Lt => {
                    break;
                },
                _ => {
                    assert(p.pos + look != p.tokens@.len() - 1);
                    look = look + 1;
                },
            }
        }
    }
    let t = parse_type(p)?;
    Ok(TypeArg::Type(t))
}

/// A unit argument nests its factors to the left.
pub open spec fn units_left(a: TypeArg) -> bool {
    a matches TypeArg::Unit(u) ==> left_spine(u)
}

/// A single unit factor: an atom, or an atom raised to a power.
pub open spec fn unit_factor(u: UnitExpr) -> bool {
    u.kind is Atom || (u.kind matches UnitExprKind::Pow(b, _) && b.kind is Atom)
}

/// Every `*` and `/` in `u` has a single factor as its right operand: a
/// chain of factors nests to the left, `a / b / c` being `(a / b) / c`.
pub open spec fn left_spine(u: UnitExpr) -> bool
    decreases u,
{
    match u.kind {
        UnitExprKind::Mul(a, b) => unit_factor(*b) && left_spine(*a),
        UnitExprKind::Div(a, b) => unit_factor(*b) && left_spine(*a),
        _ => unit_factor(u),
    }
}

/// The operator at the root of `u` (`true` for `/`) and its operands.
pub open spec fn unit_root(u: UnitExpr) -> Option<(bool, UnitExpr, UnitExpr)> {
    match u.kind {
        UnitExprKind::Mul(a, b) => Some((false, *a, *b)),
        UnitExprKind::Div(a, b) => Some((true, *a, *b)),
        _ => None,
    }
}

/// `x op y op z` at the cursor: three bare unit atoms joined by `*` or
/// `/`, with no power and nothing joined after `z`.
pub open spec fn atom_chain3(p: Parser) -> bool {
    &&& ahead(p, 0) is Ident && ahead(p, 2) is Ident && ahead(p, 4) is Ident
    &&& (ahead(p, 1) is Star || ahead(p, 1) is Slash) && (ahead(p, 3) is Star || ahead(p, 3) is Slash)
    &&& !(ahead(p, 5) is Star || ahead(p, 5) is Slash || ahead(p, 5) is Caret)
}

/// `u` is `x op1 y` for the first two atoms of the chain at the cursor.
pub open spec fn chain2(p: Parser, u: UnitExpr) -> bool {
    unit_root(u) matches Some((d1, x, y)) && d1 == (ahead(p, 1) is Slash)
        && x.kind == UnitExprKind::Atom(ahead(p, 0)->Ident_0) && y.kind == UnitExprKind::Atom(ahead(p, 2)->Ident_0)
}

/// `u` is `(x op1 y) op2 z` for the chain at the cursor of `p`, with each
/// operator the one written and each atom its name.
pub open spec fn chain3_left(p: Parser, u: UnitExpr) -> bool {
    unit_root(u) matches Some((d2, l, z)) && d2 == (ahead(p, 3) is Slash)
        && z.kind == UnitExprKind::Atom(ahead(p, 4)->Ident_0) && chain2(p, l)
}

/// A unit expression: factors joined by `*` and `/`, left-associative.
fn parse_unit_expr(p: &mut Parser) -> (r: Result<UnitExpr, Diagnostic>)
    requires
        old(p).wf(),
    ensures
        steps(*old(p), *final(p)),
        r is Ok ==> final(p).pos > old(p).pos,
        r matches Err(d) ==> parse_err(d),
        r matches Ok(u) ==> gave(*old(p), *final(p), unit_ids(u)),
        r matches Ok(u) ==> left_spine(u),
        atom_chain3(*old(p)) ==> (r matches Ok(u) ==> chain3_left(*old(p), u) && final(p).pos == old(p).pos + 5),
{
    let ghost chain = atom_chain3(*old(p));
    let mut lhs = parse_unit_factor(p)?;
    loop
        invariant
            steps(*old(p), *p),
            p.pos > old(p).pos,
            gave(*old(p), *p, unit_ids(lhs)),
            left_spine(lhs),
            chain == atom_chain3(*old(p)),
            chain ==> (p.pos == old(p).pos + 1 && lhs.kind == UnitExprKind::Atom(ahead(*old(p), 0)->Ident_0)) || (p.pos
                == old(p).pos + 3 && chain2(*old(p), lhs)) || (p.pos == old(p).pos + 5 && chain3_left(*old(p), lhs)),
        ensures
            steps(*old(p), *p),
            p.pos > old(p).pos,
            gave(*old(p), *p, unit_ids(lhs)),
            left_spine(lhs),
            chain ==> p.pos == old(p).pos + 5 && chain3_left(*old(p), lhs),
        decreases p.tokens@.len() - p.pos,
    {
        proof {
            if chain {
                if p.pos == old(p).pos + 1 {
                    assert(p.cur() == ahead(*old(p), 1));
                    assert(ahead(*p, 1) == ahead(*old(p), 2) && ahead(*p, 2) == ahead(*old(p), 3));
                }
                if p.pos == old(p).pos + 3 {
                    assert(p.cur() == ahead(*old(p), 3));
                    assert(ahead(*p, 1) == ahead(*old(p), 4) && ahead(*p, 2) == ahead(*old(p), 5));
                }
                if p.pos == old(p).pos + 5 {
                    assert(p.cur() == ahead(*old(p), 5));
                }
            }
        }
        let ghost n1 = p.next_node_id as int;
        if p.eat(&TokenKind::Star) {
            let rhs = parse_unit_factor(p)?;
            let ghost n2 = p.next_node_id as int;
            let span = Span::merge(lhs.span, rhs.span);
            let id = p.fresh_node_id()?;
            proof {
                lemma_fresh_join(unit_ids(lhs), unit_ids(rhs), old(p).next_node_id as int, n1, n1, n2);
                lemma_fresh_snoc(unit_ids(lhs) + unit_ids(rhs), id, old(p).next_node_id as int, n2);
            }
            lhs = UnitExpr { kind: UnitExprKind::Mul(Box::new(lhs), Box::new(rhs)), span, id };
        } else if p.eat(&TokenKind::Slash) {
            let rhs = parse_unit_factor(p)?;
            let ghost n2 = p.next_node_id as int;
            let span = Span::merge(lhs.span, rhs.span);
            let id = p.fresh_node_id()?;
            proof {
                lemma_fresh_join(unit_ids(lhs), unit_ids(rhs), old(p).next_node_id as int, n1, n1, n2);
                lemma_fresh_snoc(unit_ids(lhs) + unit_ids(rhs), id, old(p).next_node_id as int, n2);
            }
            lhs = UnitExpr { kind: UnitExprKind::Div(Box::new(lhs), Box::new(rhs)), span, id };
        } else {
            break;
        }
    }
    Ok(lhs)
}

/// A unit atom, optionally raised to an integer power: `m`, `s^2`.
fn parse_unit_factor(p: &mut Parser) -> (r: Result<UnitExpr, Diagnostic>)
    requires
        old(p).wf(),
    ensures
        steps(*old(p), *final(p)),
        r is Ok ==> final(p).pos > old(p).pos,
        r matches Err(d) ==> parse_err(d),
        r matches Ok(u) ==> gave(*old(p), *final(p), unit_ids(u)),
        r matches Ok(u) ==> unit_factor(u),
        old(p).cur() matches TokenKind::Ident(n) ==> (!(ahead(*old(p), 1) is Caret) ==> (r matches Ok(u)
            ==> u.kind == UnitExprKind::Atom(n) && final(p).pos == old(p).pos + 1)),
{
    let atom = match p.peek_kind() {
        TokenKind::Ident(n) => n.clone(),
        _ => {
            return Err(p.error_found("expected ", "unit atom"));
        },
    };
    let atom_span = p.advance();
    let id = p.fresh_node_id()?;
    let mut expr = UnitExpr { kind: UnitExprKind::Atom(atom), span: atom_span, id };
    proof {
        lemma_fresh_snoc(Seq::empty(), id, old(p).next_node_id as int, old(p).next_node_id as int);
        assert(Seq::<NodeId>::empty() + seq![id] =~= unit_ids(expr));
    }
    if p.eat(&TokenKind::Caret) {
        let negative = p.eat(&TokenKind::Minus);
        let n = match p.peek_kind() {
            TokenKind::Int(n) => *n,
            _ => {
                return Err(p.error_found("expected ", "integer exponent"));
            },
        };
        let n = if negative {
            if n == i64::MIN {
                return Err(p.error_here("integer exponent out of range"));
            }
            -n
        } else {
            n
        };
        let exp_span = p.advance();
        let span = Span::merge(expr.span, exp_span);
        let ghost n1 = p.next_node_id as int;
        let id2 = p.fresh_node_id()?;
        proof {
            lemma_fresh_snoc(unit_ids(expr), id2, old(p).next_node_id as int, n1);
        }
        expr = UnitExpr { kind: UnitExprKind::Pow(Box::new(expr), n), span, id: id2 };
    }
    Ok(expr)
}

} // verus!
