//! Expression and pattern parser (precedence climbing).

use vstd::prelude::*;
use crate::ast::{BinOp, Block, Expr, ExprKind, IfExpr, MatchArm, Pattern, PatternKind, UnaryOp};
use crate::diag::Diagnostic;
use crate::lexer::token::{same_variant, TokenKind};
use crate::parser::stmt::{parse_block_until, parse_match_arm_body};
use crate::ast::node_ids::{
    arms_ids, block_ids, elseifs_ids, expr_ids, exprs_ids, fields_ids, lemma_fresh_join, lemma_fresh_snoc,
    fresh_ids, lemma_fresh_widen, pattern_ids, patterns_ids, rows_ids,
};
use crate::ids::NodeId;
use crate::parser::{ahead, cur_span, empty_body, gave, ids_exhausted, parse_err, steps, Parser};
use crate::source::Span;
use crate::text::str_eq;

verus! {

broadcast use vstd::std_specs::vec::group_vec_axioms;

/// Message for a floating-point literal in pattern position.
pub const FLOAT_PATTERN_REJECTED: &'static str = "floating-point literal patterns are rejected: IEEE 754 equality is unreliable (NaN \u{2260} NaN, rounding error). Only Int / Bool / String literal patterns are supported in `case` arms.";

/// An expression.
pub fn parse_expr(p: &mut Parser) -> (r: Result<Expr, Diagnostic>)
    requires
        old(p).wf(),
    ensures
        steps(*old(p), *final(p)),
        r is Ok ==> final(p).pos > old(p).pos,
        r matches Err(d) ==> parse_err(d),
        r matches Ok(e) ==> gave(*old(p), *final(p), expr_ids(e)),
        lone_operand(*old(p), 0) ==> lone_result(*old(p), *final(p), r),
        same_level_chain(*old(p)) ==> match r {
            Ok(e) => left_nested(*old(p), e) && final(p).pos == old(p).pos + 5,
            Err(_) => old(p).next_node_id + 4 >= u32::MAX,
        },
    decreases old(p).tokens@.len() - old(p).pos, 7nat,
{
    parse_bp(p, 0)
}

/// Binding powers `(op, left, right)` of an infix operator token;
/// right > left makes the operator right-associative.
pub open spec fn infix_spec(k: TokenKind) -> Option<(BinOp, u8, u8)> {
    match k {
        TokenKind::Or => Some((BinOp::Or, 1, 2)),
        TokenKind::And => Some((BinOp::And, 3, 4)),
        TokenKind::EqEq => Some((BinOp::Eq, 5, 6)),
        TokenKind::Neq => Some((BinOp::Neq, 5, 6)),
        TokenKind::Lt => Some((BinOp::Lt, 5, 6)),
        TokenKind::Gt => Some((BinOp::Gt, 5, 6)),
        TokenKind::Le => Some((BinOp::Le, 5, 6)),
        TokenKind::Ge => Some((BinOp::Ge, 5, 6)),
        TokenKind::Plus => Some((BinOp::Add, 7, 8)),
        TokenKind::Minus => Some((BinOp::Sub, 7, 8)),
        TokenKind::Star => Some((BinOp::Mul, 9, 10)),
        TokenKind::Slash => Some((BinOp::Div, 9, 10)),
        TokenKind::Caret => Some((BinOp::Pow, 12, 11)),
        _ => None,
    }
}

/// Every infix operator but `^` binds its right operand one step tighter
/// than its left, so a chain of operators of one precedence nests to the
/// left (`a - b - c` is `(a - b) - c`); `^` binds its right operand
/// looser and nests to the right. Precedence rises from `or` through
/// `and`, the comparisons, `+ -` and `* /` to `^`.
pub proof fn lemma_infix_binding(k: TokenKind)
    ensures
        infix_spec(k) matches Some((op, l, r)) ==> (op == BinOp::Pow <==> r < l) && (op != BinOp::Pow ==> r == l + 1),
        infix_spec(k) matches Some((op, l, _)) ==> match op {
            BinOp::Or => l == 1,
            BinOp::And => l == 3,
            BinOp::Eq | BinOp::Neq | BinOp::Lt | BinOp::Gt | BinOp::Le | BinOp::Ge => l == 5,
            BinOp::Add | BinOp::Sub => l == 7,
            BinOp::Mul | BinOp::Div => l == 9,
            BinOp::Pow => l == 12,
        },
{
}

pub fn infix_op(kind: &TokenKind) -> (r: Option<(BinOp, u8, u8)>)
    ensures
        r == infix_spec(*kind),
{
    match kind {
        TokenKind::Or => Some((BinOp::Or, 1, 2)),
        TokenKind::And => Some((BinOp::And, 3, 4)),
        TokenKind::EqEq => Some((BinOp::Eq, 5, 6)),
        TokenKind::Neq => Some((BinOp::Neq, 5, 6)),
        TokenKind::Lt => Some((BinOp::Lt, 5, 6)),
        TokenKind::Gt => Some((BinOp::Gt, 5, 6)),
        TokenKind::Le => Some((BinOp::Le, 5, 6)),
        TokenKind::Ge => Some((BinOp::Ge, 5, 6)),
        TokenKind::Plus => Some((BinOp::Add, 7, 8)),
        TokenKind::Minus => Some((BinOp::Sub, 7, 8)),
        TokenKind::Star => Some((BinOp::Mul, 9, 10)),
        TokenKind::Slash => Some((BinOp::Div, 9, 10)),
        TokenKind::Caret => Some((BinOp::Pow, 12, 11)),
        _ => None,
    }
}

fn parse_bp(p: &mut Parser, min_bp: u8) -> (r: Result<Expr, Diagnostic>)
    requires
        old(p).wf(),
    ensures
        steps(*old(p), *final(p)),
        r is Ok ==> final(p).pos > old(p).pos,
        r matches Err(d) ==> parse_err(d),
        r matches Ok(e) ==> gave(*old(p), *final(p), expr_ids(e)),
        stops_after(*old(p), min_bp) ==> lone_result(*old(p), *final(p), r),
        same_level_chain(*old(p)) && min_bp <= infix_level(ahead(*old(p), 1)) ==> match r {
            Ok(e) => left_nested(*old(p), e) && final(p).pos == old(p).pos + 5,
            Err(_) => old(p).next_node_id + 4 >= u32::MAX,
        },
    decreases old(p).tokens@.len() - old(p).pos, 6nat,
{
    let ghost chain = same_level_chain(*old(p)) && min_bp <= infix_level(ahead(*old(p), 1));
    proof {
        if chain {
            lemma_infix_binding(ahead(*old(p), 1));
            lemma_infix_binding(ahead(*old(p), 3));
        }
    }
    let mut lhs = parse_prefix(p)?;
    let ghost first = lhs;
    loop
        invariant
            steps(*old(p), *p),
            p.pos > old(p).pos,
            gave(*old(p), *p, expr_ids(lhs)),
            stops_after(*old(p), min_bp) ==> lhs == first && lone_result(*old(p), *p, Ok(first)),
            chain == (same_level_chain(*old(p)) && min_bp <= infix_level(ahead(*old(p), 1))),
            chain ==> infix_right(ahead(*old(p), 1)) == infix_level(ahead(*old(p), 1)) + 1,
            chain ==> (p.pos == old(p).pos + 1 && primary_of(ahead(*old(p), 0)) == Some(lhs.kind)
                && p.next_node_id == old(p).next_node_id + 1) || (p.pos == old(p).pos + 3 && (lhs.kind matches ExprKind::BinOp(
                o1,
                a,
                b,
            ) && o1 == infix_binop(ahead(*old(p), 1)) && primary_of(ahead(*old(p), 0)) == Some(a.kind)
                && primary_of(ahead(*old(p), 2)) == Some(b.kind)) && p.next_node_id == old(p).next_node_id + 3) || (p.pos
                == old(p).pos + 5 && left_nested(*old(p), lhs) && p.next_node_id == old(p).next_node_id + 5),
        ensures
            chain ==> p.pos == old(p).pos + 5 && left_nested(*old(p), lhs),
            stops_after(*old(p), min_bp) ==> lhs == first && lone_result(*old(p), *p, Ok(first)),
            gave(*old(p), *p, expr_ids(lhs)),
            steps(*old(p), *p),
            p.pos > old(p).pos,
        decreases p.tokens@.len() - p.pos,
    {
        let ghost n1 = p.next_node_id as int;
        proof {
            if chain {
                if p.pos == old(p).pos + 1 {
                    assert(p.cur() == ahead(*old(p), 1));
                }
                if p.pos == old(p).pos + 3 {
                    assert(p.cur() == ahead(*old(p), 3));
                }
            }
        }
        let (op, lbp, rbp) = match infix_op(p.peek_kind()) {
            Some(t) => t,
            None => {
                break;
            },
        };
        if lbp < min_bp {
            break;
        }
        p.advance();
        let rhs = parse_bp(p, rbp)?;
        let ghost n2 = p.next_node_id as int;
        let span = Span::merge(lhs.span, rhs.span);
        let id = p.fresh_node_id()?;
        proof {
            let n0 = old(p).next_node_id as int;
            lemma_fresh_join(expr_ids(lhs), expr_ids(rhs), n0, n1, n1, n2);
            lemma_fresh_snoc(expr_ids(lhs) + expr_ids(rhs), id, n0, n2);
        }
        lhs = Expr { kind: ExprKind::BinOp(op, Box::new(lhs), Box::new(rhs)), span, id };
    }
    Ok(lhs)
}

/// Prefix operators: `not` binds looser than comparisons (rbp 4), unary
/// `-` binds tighter than `*`/`/` but looser than `^` (rbp 12).
fn parse_prefix(p: &mut Parser) -> (r: Result<Expr, Diagnostic>)
    requires
        old(p).wf(),
    ensures
        steps(*old(p), *final(p)),
        r is Ok ==> final(p).pos > old(p).pos,
        r matches Err(d) ==> parse_err(d),
        r matches Ok(e) ==> gave(*old(p), *final(p), expr_ids(e)),
        lone_postfix(*old(p), 0) ==> lone_result(*old(p), *final(p), r),
    decreases old(p).tokens@.len() - old(p).pos, 5nat,
{
    let start = p.current_span();
    match p.peek_kind() {
        TokenKind::Not => {
            p.advance();
            let rhs = parse_bp(p, 4)?;
            let ghost n1 = p.next_node_id as int;
            let span = Span::merge(start, rhs.span);
            let id = p.fresh_node_id()?;
            proof {
                lemma_fresh_snoc(expr_ids(rhs), id, old(p).next_node_id as int, n1);
            }
            Ok(Expr { kind: ExprKind::UnaryOp(UnaryOp::Not, Box::new(rhs)), span, id })
        },
        TokenKind::Minus => {
            p.advance();
            let rhs = parse_bp(p, 12)?;
            let ghost n1 = p.next_node_id as int;
            let span = Span::merge(start, rhs.span);
            let id = p.fresh_node_id()?;
            proof {
                lemma_fresh_snoc(expr_ids(rhs), id, old(p).next_node_id as int, n1);
            }
            Ok(Expr { kind: ExprKind::UnaryOp(UnaryOp::Neg, Box::new(rhs)), span, id })
        },
        _ => parse_postfix(p),
    }
}

/// A primary expression followed by calls `f(...)`, indexing `a[i]`,
/// field access `s.f` and, after a bare identifier, a struct literal
/// `Name { field: value, ... }`.
fn parse_postfix(p: &mut Parser) -> (r: Result<Expr, Diagnostic>)
    requires
        old(p).wf(),
    ensures
        steps(*old(p), *final(p)),
        r is Ok ==> final(p).pos > old(p).pos,
        r matches Err(d) ==> parse_err(d),
        r matches Ok(e) ==> gave(*old(p), *final(p), expr_ids(e)),
        r matches Ok(e) ==> !postfix_start(final(p).cur()) && (final(p).cur() is LBrace ==> !(e.kind is Ident)),
        r matches Ok(e) ==> (primary_of(old(p).cur()) is Some && final(p).pos > old(p).pos + 1
            ==> closes(final(p).tokens@[final(p).pos - 1].kind, e.kind)),
        lone_postfix(*old(p), 0) ==> lone_result(*old(p), *final(p), r),
        empty_call(*old(p)) && !postfix_start(ahead(*old(p), 3)) ==> match r {
            Ok(e) => e.kind matches ExprKind::Call(c, args) && primary_of(old(p).cur()) == Some(c.kind)
                && args@.len() == 0 && final(p).pos == old(p).pos + 3,
            Err(_) => old(p).next_node_id + 1 >= u32::MAX,
        },
    decreases old(p).tokens@.len() - old(p).pos, 4nat,
{
    let mut expr = parse_primary(p)?;
    let ghost first = expr;
    loop
        invariant
            steps(*old(p), *p),
            p.pos > old(p).pos,
            gave(*old(p), *p, expr_ids(expr)),
            primary_of(old(p).cur()) is Some ==> (p.pos == old(p).pos + 1 ==> expr == first
                && lone_result(*old(p), *p, Ok(first))),
            primary_of(old(p).cur()) is Some && p.pos > old(p).pos + 1 ==> closes(p.tokens@[p.pos - 1].kind, expr.kind),
            lone_postfix(*old(p), 0) ==> p.pos == old(p).pos + 1,
            empty_call(*old(p)) ==> p.pos != old(p).pos + 2 && (p.pos == old(p).pos + 3 ==> (
                expr.kind matches ExprKind::Call(c, args) && primary_of(old(p).cur()) == Some(c.kind)
                && args@.len() == 0 && p.next_node_id == old(p).next_node_id + 2)),
            empty_call(*old(p)) && !postfix_start(ahead(*old(p), 3)) ==> p.pos <= old(p).pos + 3,
        ensures
            !postfix_start(p.cur()) && (p.cur() is LBrace ==> !(expr.kind is Ident)),
        decreases p.tokens@.len() - p.pos,
    {
        let ghost n0 = old(p).next_node_id as int;
        let ghost n1 = p.next_node_id as int;
        match p.peek_kind() {
            TokenKind::LParen => {
                p.advance();
                let args = parse_expr_list(p, &TokenKind::RParen)?;
                let ghost n2 = p.next_node_id as int;
                let end = p.current_span();
                p.expect(&TokenKind::RParen, "')'")?;
                let span = Span::merge(expr.span, end);
                let id = p.fresh_node_id()?;
                proof {
                    lemma_fresh_join(expr_ids(expr), exprs_ids(args@), n0, n1, n1, n2);
                    lemma_fresh_snoc(expr_ids(expr) + exprs_ids(args@), id, n0, n2);
                }
                expr = Expr { kind: ExprKind::Call(Box::new(expr), args), span, id };
            },
            TokenKind::LBracket => {
                p.advance();
                let idx = parse_expr(p)?;
                let ghost n2 = p.next_node_id as int;
                let end = p.current_span();
                p.expect(&TokenKind::RBracket, "']'")?;
                let span = Span::merge(expr.span, end);
                let id = p.fresh_node_id()?;
                proof {
                    lemma_fresh_join(expr_ids(expr), expr_ids(idx), n0, n1, n1, n2);
                    lemma_fresh_snoc(expr_ids(expr) + expr_ids(idx), id, n0, n2);
                }
                expr = Expr { kind: ExprKind::Index(Box::new(expr), Box::new(idx)), span, id };
            },
            TokenKind::Dot => {
                p.advance();
                let field = match p.peek_kind() {
                    TokenKind::Ident(n) => n.clone(),
                    _ => {
                        return Err(p.error_found("expected ", "field name"));
                    },
                };
                let field_span = p.advance();
                let span = Span::merge(expr.span, field_span);
                let id = p.fresh_node_id()?;
                proof {
                    lemma_fresh_snoc(expr_ids(expr), id, n0, n1);
                }
                expr = Expr { kind: ExprKind::FieldAccess(Box::new(expr), field), span, id };
            },
            TokenKind::LBrace => {
                let name = match &expr.kind {
                    ExprKind::Ident(n) => n.clone(),
                    _ => {
                        break;
                    },
                };
                p.advance();
                let fields = parse_field_list(p)?;
                let ghost n2 = p.next_node_id as int;
                let end = p.current_span();
                p.expect(&TokenKind::RBrace, "'}'")?;
                let span = Span::merge(expr.span, end);
                let id = p.fresh_node_id()?;
                proof {
                    lemma_fresh_widen(fields_ids(fields@), n1, n2, n0, n2);
                    lemma_fresh_snoc(fields_ids(fields@), id, n0, n2);
                }
                expr = Expr { kind: ExprKind::StructLit(name, fields), span, id };
            },
            _ => {
                break;
            },
        }
    }
    Ok(expr)
}

/// The expression a single literal or name token stands for.
pub open spec fn primary_of(k: TokenKind) -> Option<ExprKind> {
    match k {
        TokenKind::Int(n) => Some(ExprKind::IntLit(n)),
        TokenKind::Float(t) => Some(ExprKind::FloatLit(t)),
        TokenKind::Str(s) => Some(ExprKind::StrLit(s)),
        TokenKind::True => Some(ExprKind::BoolLit(true)),
        TokenKind::False => Some(ExprKind::BoolLit(false)),
        TokenKind::Ident(n) => Some(ExprKind::Ident(n)),
        _ => None,
    }
}

/// A token that continues an expression as a call, an index or a field
/// access.
pub open spec fn postfix_start(k: TokenKind) -> bool {
    k is LParen || k is LBracket || k is Dot
}

/// The token `k` places after the cursor is a literal or a name that
/// stands alone: no call, index, field access, struct literal or infix
/// operator follows it.
pub open spec fn lone_operand(p: Parser, k: int) -> bool {
    lone_postfix(p, k) && infix_spec(ahead(p, k + 1)) is None
}

/// The token `k` places after the cursor is a literal or a name that no
/// call, index, field access or struct literal follows.
pub open spec fn lone_postfix(p: Parser, k: int) -> bool {
    &&& primary_of(ahead(p, k)) is Some
    &&& !postfix_start(ahead(p, k + 1))
    &&& !(ahead(p, k + 1) is LBrace)
}

/// A lone operand that an expression parsed at binding power `min_bp`
/// stops after: no infix operator follows, or one that binds looser.
pub open spec fn stops_after(p: Parser, min_bp: u8) -> bool {
    lone_postfix(p, 0) && match infix_spec(ahead(p, 1)) {
        Some((_, l, _)) => l < min_bp,
        None => true,
    }
}

/// The operator, left and right binding power of an infix token (an
/// arbitrary operator and zero for any other token).
pub open spec fn infix_binop(k: TokenKind) -> BinOp {
    match infix_spec(k) {
        Some((op, _, _)) => op,
        None => BinOp::Add,
    }
}

pub open spec fn infix_level(k: TokenKind) -> int {
    match infix_spec(k) {
        Some((_, l, _)) => l as int,
        None => 0,
    }
}

pub open spec fn infix_right(k: TokenKind) -> int {
    match infix_spec(k) {
        Some((_, _, r)) => r as int,
        None => 0,
    }
}

/// `a op1 b op2 c`: three lone operands joined by two infix operators of
/// one precedence level, the first not `^`, and nothing infix after `c`.
pub open spec fn same_level_chain(p: Parser) -> bool {
    &&& lone_postfix(p, 0) && lone_postfix(p, 2) && lone_operand(p, 4)
    &&& infix_spec(ahead(p, 1)) is Some && infix_spec(ahead(p, 3)) is Some
    &&& infix_binop(ahead(p, 1)) != BinOp::Pow
    &&& infix_level(ahead(p, 1)) == infix_level(ahead(p, 3))
}

/// `e` is `(a op1 b) op2 c` for the chain at the cursor of `p`.
pub open spec fn left_nested(p: Parser, e: Expr) -> bool {
    e.kind matches ExprKind::BinOp(o2, x, z) && o2 == infix_binop(ahead(p, 3))
        && primary_of(ahead(p, 4)) == Some(z.kind)
        && (x.kind matches ExprKind::BinOp(o1, a, b) && o1 == infix_binop(ahead(p, 1))
            && primary_of(ahead(p, 0)) == Some(a.kind) && primary_of(ahead(p, 2)) == Some(b.kind))
}

/// Parsing a lone operand gives its one-token expression and takes one
/// node id; it fails only when no id is left.
pub open spec fn lone_result(p0: Parser, p1: Parser, r: Result<Expr, Diagnostic>) -> bool {
    match r {
        Ok(e) => primary_of(p0.cur()) == Some(e.kind) && e.span == cur_span(p0) && p1.pos == p0.pos + 1
            && p1.next_node_id == p0.next_node_id + 1,
        Err(_) => ids_exhausted(p0),
    }
}

/// The last token of a postfix form tells which node it built: `)` a call,
/// `]` an index, `}` a struct literal, a name a field access.
pub open spec fn closes(t: TokenKind, k: ExprKind) -> bool {
    match t {
        TokenKind::RParen => k is Call,
        TokenKind::RBracket => k is Index,
        TokenKind::RBrace => k is StructLit,
        TokenKind::Ident(_) => k is FieldAccess,
        _ => false,
    }
}

/// `if c then end` with a lone condition and an empty branch.
pub open spec fn plain_if(p: Parser) -> bool {
    p.cur() is If && lone_operand(p, 1) && ahead(p, 2) is Then && empty_body(p, 3)
}

/// `match e case x then end` on one line: a lone scrutinee and one arm
/// binding a name, with an empty body.
pub open spec fn plain_match(p: Parser) -> bool {
    &&& p.cur() is Match && lone_operand(p, 1) && ahead(p, 2) is Case
    &&& ahead(p, 3) matches TokenKind::Ident(x) && x@ != "_"@
    &&& ahead(p, 4) is Then && ahead(p, 5) is End
}

/// A name called with no arguments: `f()`.
pub open spec fn empty_call(p: Parser) -> bool {
    p.cur() is Ident && ahead(p, 1) is LParen && ahead(p, 2) is RParen
}

/// A literal or a name is the one-token expression `primary_of` gives; a
/// parenthesized expression, a vector or matrix literal, an `if` or a
/// `match` starts with its own token; anything else is an error.
fn parse_primary(p: &mut Parser) -> (r: Result<Expr, Diagnostic>)
    requires
        old(p).wf(),
    ensures
        steps(*old(p), *final(p)),
        r is Ok ==> final(p).pos > old(p).pos,
        r matches Err(d) ==> parse_err(d),
        primary_of(old(p).cur()) matches Some(k) ==> match r {
            Ok(e) => e.kind == k && e.span == cur_span(*old(p)) && final(p).pos == old(p).pos + 1
                && final(p).next_node_id == old(p).next_node_id + 1,
            Err(_) => ids_exhausted(*old(p)),
        },
        primary_of(old(p).cur()) is None && !(old(p).cur() is LParen || old(p).cur() is LBracket
            || old(p).cur() is If || old(p).cur() is Match) ==> r is Err,
        r matches Ok(e) ==> gave(*old(p), *final(p), expr_ids(e)),
        r matches Ok(e) ==> match old(p).cur() {
            TokenKind::If => e.kind is If,
            TokenKind::Match => e.kind is Match,
            TokenKind::LBracket => e.kind is VecLit || e.kind is MatLit,
            TokenKind::LParen => final(p).tokens@[final(p).pos - 1].kind is RParen,
            _ => true,
        },
        old(p).cur() is LParen && lone_operand(*old(p), 1) && ahead(*old(p), 2) is RParen ==> match r {
            Ok(e) => primary_of(ahead(*old(p), 1)) == Some(e.kind) && final(p).pos == old(p).pos + 3,
            Err(_) => ids_exhausted(*old(p)),
        },
        old(p).cur() is LBracket && ahead(*old(p), 1) is RBracket ==> match r {
            Ok(e) => e.kind matches ExprKind::VecLit(es) && es@.len() == 0 && final(p).pos == old(p).pos + 2,
            Err(_) => ids_exhausted(*old(p)),
        },
        plain_if(*old(p)) ==> match r {
            Ok(e) => e.kind matches ExprKind::If(ie) && ie.elseifs@.len() == 0 && ie.else_block is None,
            Err(_) => old(p).next_node_id + 2 >= u32::MAX,
        },
        plain_match(*old(p)) ==> match r {
            Ok(e) => e.kind matches ExprKind::Match(_, arms) && arms@.len() == 1,
            Err(_) => old(p).next_node_id + 3 >= u32::MAX,
        },
    decreases old(p).tokens@.len() - old(p).pos, 3nat,
{
    let kind = match p.peek_kind() {
        TokenKind::Int(n) => ExprKind::IntLit(*n),
        TokenKind::Float(t) => ExprKind::FloatLit(t.clone()),
        TokenKind::Str(s) => ExprKind::StrLit(s.clone()),
        TokenKind::True => ExprKind::BoolLit(true),
        TokenKind::False => ExprKind::BoolLit(false),
        TokenKind::Ident(n) => ExprKind::Ident(n.clone()),
        TokenKind::LParen => {
            let start = p.advance();
            let inner = parse_expr(p)?;
            let end = p.current_span();
            p.expect(&TokenKind::RParen, "')'")?;
            let e = Expr { kind: inner.kind, span: Span::merge(start, end), id: inner.id };
            assert(expr_ids(e) == expr_ids(inner));
            return Ok(e);
        },
        TokenKind::LBracket => {
            return parse_vec_or_mat_lit(p);
        },
        TokenKind::If => {
            return parse_if_expr(p);
        },
        TokenKind::Match => {
            return parse_match_expr(p);
        },
        _ => {
            return Err(p.error_found("expected ", "expression"));
        },
    };
    let span = p.advance();
    let id = p.fresh_node_id()?;
    let e = Expr { kind, span, id };
    proof {
        lemma_fresh_snoc(Seq::empty(), id, old(p).next_node_id as int, old(p).next_node_id as int);
        assert(Seq::<NodeId>::empty() + seq![id] =~= expr_ids(e));
    }
    Ok(e)
}

/// `[e, ...]` (a vector) or `[[e, ...], ...]` (a matrix).
fn parse_vec_or_mat_lit(p: &mut Parser) -> (r: Result<Expr, Diagnostic>)
    requires
        old(p).wf(),
        old(p).cur() is LBracket,
    ensures
        steps(*old(p), *final(p)),
        r is Ok ==> final(p).pos > old(p).pos,
        r matches Err(d) ==> parse_err(d),
        r matches Ok(e) ==> gave(*old(p), *final(p), expr_ids(e)),
        r matches Ok(e) ==> e.kind is VecLit || e.kind is MatLit,
        ahead(*old(p), 1) is LBracket ==> (r matches Ok(e) ==> e.kind is MatLit),
        ahead(*old(p), 1) is RBracket ==> match r {
            Ok(e) => e.kind matches ExprKind::VecLit(es) && es@.len() == 0 && final(p).pos == old(p).pos + 2,
            Err(_) => ids_exhausted(*old(p)),
        },
    decreases old(p).tokens@.len() - old(p).pos, 2nat,
{
    let ghost n0 = p.next_node_id as int;
    let start = p.advance();
    let ghost q = p.pos as int;
    p.consume_newlines();
    proof {
        if (ahead(*old(p), 1) is LBracket || ahead(*old(p), 1) is RBracket) && p.pos > q {
            assert(p.tokens@[q].kind is Newline);
        }
    }
    if p.at(&TokenKind::LBracket) {
        let rows = parse_row_list(p)?;
        let ghost n1 = p.next_node_id as int;
        let end = p.current_span();
        p.expect(&TokenKind::RBracket, "']'")?;
        let id = p.fresh_node_id()?;
        proof {
            lemma_fresh_snoc(rows_ids(rows@), id, n0, n1);
        }
        return Ok(Expr { kind: ExprKind::MatLit(rows), span: Span::merge(start, end), id });
    }
    let elems = parse_expr_list(p, &TokenKind::RBracket)?;
    let ghost n1 = p.next_node_id as int;
    let end = p.current_span();
    p.expect(&TokenKind::RBracket, "']'")?;
    let id = p.fresh_node_id()?;
    proof {
        lemma_fresh_snoc(exprs_ids(elems@), id, n0, n1);
    }
    Ok(Expr { kind: ExprKind::VecLit(elems), span: Span::merge(start, end), id })
}

/// A comma-separated, possibly empty list of expressions up to `close`,
/// allowing newlines and a trailing comma.
fn parse_expr_list(p: &mut Parser, close: &TokenKind) -> (r: Result<Vec<Expr>, Diagnostic>)
    requires
        old(p).wf(),
        !(*close is Eof),
    ensures
        steps(*old(p), *final(p)),
        r matches Err(d) ==> parse_err(d),
        r matches Ok(v) ==> gave(*old(p), *final(p), exprs_ids(v@)),
        same_variant(old(p).cur(), *close) && !(old(p).cur() is Newline) ==> (r matches Ok(v) && v@.len() == 0
            && final(p).pos == old(p).pos && final(p).next_node_id == old(p).next_node_id),
    decreases old(p).tokens@.len() - old(p).pos, 9nat,
{
    let ghost n0 = p.next_node_id as int;
    p.consume_newlines();
    proof {
        if !(old(p).cur() is Newline) && p.pos > old(p).pos {
            assert(p.tokens@[old(p).pos as int].kind is Newline);
        }
    }
    let mut items: Vec<Expr> = Vec::new();
    assert(exprs_ids(items@) =~= Seq::<NodeId>::empty());
    if p.at(close) {
        return Ok(items);
    }
    let first = parse_expr(p)?;
    items.push(first);
    proof {
        assert(items@.drop_last() =~= Seq::<Expr>::empty());
        assert(exprs_ids(Seq::<Expr>::empty()) =~= Seq::<NodeId>::empty());
        assert(exprs_ids(items@) =~= expr_ids(first));
    }
    p.consume_newlines();
    while p.eat(&TokenKind::Comma)
        invariant
            steps(*old(p), *p),
            !(*close is Eof),
            n0 == old(p).next_node_id,
            gave(*old(p), *p, exprs_ids(items@)),
            !(same_variant(old(p).cur(), *close) && !(old(p).cur() is Newline)),
        decreases p.tokens@.len() - p.pos,
    {
        p.consume_newlines();
        if p.at(close) {
            break;
        }
        let ghost n1 = p.next_node_id as int;
        let ghost before = items@;
        let e = parse_expr(p)?;
        items.push(e);
        proof {
            assert(items@.drop_last() =~= before);
            lemma_fresh_join(exprs_ids(before), expr_ids(e), n0, n1, n1, p.next_node_id as int);
        }
        p.consume_newlines();
    }
    Ok(items)
}

/// Matrix rows `[e, ...], ...` up to the closing `]`.
fn parse_row_list(p: &mut Parser) -> (r: Result<Vec<Vec<Expr>>, Diagnostic>)
    requires
        old(p).wf(),
    ensures
        steps(*old(p), *final(p)),
        r matches Err(d) ==> parse_err(d),
        r matches Ok(v) ==> gave(*old(p), *final(p), rows_ids(v@)),
    decreases old(p).tokens@.len() - old(p).pos, 9nat,
{
    let ghost n0 = p.next_node_id as int;
    p.consume_newlines();
    let mut rows: Vec<Vec<Expr>> = Vec::new();
    assert(rows_ids(rows@) =~= Seq::<NodeId>::empty());
    if p.at(&TokenKind::RBracket) {
        return Ok(rows);
    }
    let first = parse_row(p)?;
    rows.push(first);
    proof {
        assert(rows@.drop_last() =~= Seq::<Vec<Expr>>::empty());
        assert(rows_ids(Seq::<Vec<Expr>>::empty()) =~= Seq::<NodeId>::empty());
        assert(rows_ids(rows@) =~= exprs_ids(first@));
    }
    p.consume_newlines();
    while p.eat(&TokenKind::Comma)
        invariant
            steps(*old(p), *p),
            n0 == old(p).next_node_id,
            gave(*old(p), *p, rows_ids(rows@)),
        decreases p.tokens@.len() - p.pos,
    {
        p.consume_newlines();
        if p.at(&TokenKind::RBracket) {
            break;
        }
        let ghost n1 = p.next_node_id as int;
        let ghost before = rows@;
        let row = parse_row(p)?;
        rows.push(row);
        proof {
            assert(rows@.drop_last() =~= before);
            lemma_fresh_join(rows_ids(before), exprs_ids(row@), n0, n1, n1, p.next_node_id as int);
        }
        p.consume_newlines();
    }
    Ok(rows)
}

fn parse_row(p: &mut Parser) -> (r: Result<Vec<Expr>, Diagnostic>)
    requires
        old(p).wf(),
    ensures
        steps(*old(p), *final(p)),
        r is Ok ==> final(p).pos > old(p).pos,
        r matches Err(d) ==> parse_err(d),
        r matches Ok(v) ==> gave(*old(p), *final(p), exprs_ids(v@)),
    decreases old(p).tokens@.len() - old(p).pos, 8nat,
{
    p.expect(&TokenKind::LBracket, "'['")?;
    let row = parse_expr_list(p, &TokenKind::RBracket)?;
    p.expect(&TokenKind::RBracket, "']'")?;
    Ok(row)
}

/// Struct-literal fields `name: expr, ...` up to the closing `}`.
fn parse_field_list(p: &mut Parser) -> (r: Result<Vec<(String, Expr)>, Diagnostic>)
    requires
        old(p).wf(),
    ensures
        steps(*old(p), *final(p)),
        r matches Err(d) ==> parse_err(d),
        r matches Ok(v) ==> gave(*old(p), *final(p), fields_ids(v@)),
    decreases old(p).tokens@.len() - old(p).pos, 9nat,
{
    let ghost n0 = p.next_node_id as int;
    p.consume_newlines();
    let mut fields: Vec<(String, Expr)> = Vec::new();
    assert(fields_ids(fields@) =~= Seq::<NodeId>::empty());
    if p.at(&TokenKind::RBrace) {
        return Ok(fields);
    }
    let first = parse_struct_lit_field(p)?;
    fields.push(first);
    proof {
        assert(fields@.drop_last() =~= Seq::<(String, Expr)>::empty());
        assert(fields_ids(Seq::<(String, Expr)>::empty()) =~= Seq::<NodeId>::empty());
        assert(fields_ids(fields@) =~= expr_ids(first.1));
    }
    p.consume_newlines();
    while p.eat(&TokenKind::Comma)
        invariant
            steps(*old(p), *p),
            n0 == old(p).next_node_id,
            gave(*old(p), *p, fields_ids(fields@)),
        decreases p.tokens@.len() - p.pos,
    {
        p.consume_newlines();
        if p.at(&TokenKind::RBrace) {
            break;
        }
        let ghost n1 = p.next_node_id as int;
        let ghost before = fields@;
        let f = parse_struct_lit_field(p)?;
        fields.push(f);
        proof {
            assert(fields@.drop_last() =~= before);
            lemma_fresh_join(fields_ids(before), expr_ids(f.1), n0, n1, n1, p.next_node_id as int);
        }
        p.consume_newlines();
    }
    Ok(fields)
}

fn parse_struct_lit_field(p: &mut Parser) -> (r: Result<(String, Expr), Diagnostic>)
    requires
        old(p).wf(),
    ensures
        steps(*old(p), *final(p)),
        r is Ok ==> final(p).pos > old(p).pos,
        r matches Err(d) ==> parse_err(d),
        r matches Ok(f) ==> gave(*old(p), *final(p), expr_ids(f.1)),
    decreases old(p).tokens@.len() - old(p).pos, 8nat,
{
    let name = match p.peek_kind() {
        TokenKind::Ident(n) => n.clone(),
        _ => {
            return Err(p.error_here("expected field name"));
        },
    };
    p.advance();
    p.expect(&TokenKind::Colon, "':'")?;
    let value = parse_expr(p)?;
    Ok((name, value))
}

/// `if c then ... elseif c then ... else ... end`.
fn parse_if_expr(p: &mut Parser) -> (r: Result<Expr, Diagnostic>)
    requires
        old(p).wf(),
    ensures
        steps(*old(p), *final(p)),
        r is Ok ==> final(p).pos > old(p).pos,
        r matches Err(d) ==> parse_err(d),
        r matches Ok(e) ==> gave(*old(p), *final(p), expr_ids(e)),
        r matches Ok(e) ==> e.kind is If,
        plain_if(*old(p)) ==> match r {
            Ok(e) => e.kind matches ExprKind::If(ie) && ie.elseifs@.len() == 0 && ie.else_block is None
                && ie.then_block.stmts@.len() == 0,
            Err(_) => old(p).next_node_id + 2 >= u32::MAX,
        },
    decreases old(p).tokens@.len() - old(p).pos, 2nat,
{
    let ghost n0 = p.next_node_id as int;
    let start = p.current_span();
    p.expect(&TokenKind::If, "'if'")?;
    proof {
        if plain_if(*old(p)) {
            assert(old(p).pos + 1 < old(p).tokens@.len());
        }
    }
    let cond = parse_expr(p)?;
    let ghost n1 = p.next_node_id as int;
    p.expect(&TokenKind::Then, "'then'")?;
    let then_block = parse_block_until(p, true)?;
    let ghost n2 = p.next_node_id as int;
    proof {
        lemma_fresh_join(expr_ids(cond), block_ids(then_block), n0, n1, n1, n2);
    }
    let mut elseifs: Vec<(Expr, Block)> = Vec::new();
    assert(elseifs_ids(elseifs@) =~= Seq::<NodeId>::empty());
    while matches!(p.peek_kind(), TokenKind::Elseif)
        invariant
            steps(*old(p), *p),
            p.pos > old(p).pos,
            n2 <= p.next_node_id,
            fresh_ids(elseifs_ids(elseifs@), n2, p.next_node_id as int),
            plain_if(*old(p)) ==> elseifs@.len() == 0 && p.cur() is End && p.next_node_id == old(p).next_node_id + 2
                && then_block.stmts@.len() == 0,
        decreases p.tokens@.len() - p.pos,
    {
        let ghost m0 = p.next_node_id as int;
        let ghost before = elseifs@;
        p.advance();
        let cond_i = parse_expr(p)?;
        let ghost m1 = p.next_node_id as int;
        p.expect(&TokenKind::Then, "'then'")?;
        let block_i = parse_block_until(p, true)?;
        elseifs.push((cond_i, block_i));
        proof {
            assert(elseifs@.drop_last() =~= before);
            lemma_fresh_join(elseifs_ids(before), expr_ids(cond_i), n2, m0, m0, m1);
            lemma_fresh_join(elseifs_ids(before) + expr_ids(cond_i), block_ids(block_i), n2, m1, m1, p.next_node_id as int);
        }
    }
    let ghost n3 = p.next_node_id as int;
    proof {
        lemma_fresh_join(expr_ids(cond) + block_ids(then_block), elseifs_ids(elseifs@), n0, n2, n2, n3);
    }
    let else_block = if matches!(p.peek_kind(), TokenKind::Else) {
        p.advance();
        Some(parse_block_until(p, false)?)
    } else {
        None
    };
    let ghost n4 = p.next_node_id as int;
    let ghost else_ids = match &else_block {
        Some(b) => block_ids(*b),
        None => Seq::<NodeId>::empty(),
    };
    proof {
        lemma_fresh_join(expr_ids(cond) + block_ids(then_block) + elseifs_ids(elseifs@), else_ids, n0, n3, n3, n4);
    }
    let end = p.current_span();
    p.expect(&TokenKind::End, "'end'")?;
    let id = p.fresh_node_id()?;
    proof {
        lemma_fresh_snoc(expr_ids(cond) + block_ids(then_block) + elseifs_ids(elseifs@) + else_ids, id, n0, n4);
    }
    Ok(Expr {
        kind: ExprKind::If(IfExpr { cond: Box::new(cond), then_block, elseifs, else_block }),
        span: Span::merge(start, end),
        id,
    })
}

/// `match e case pattern then ... end`, with at least one arm.
fn parse_match_expr(p: &mut Parser) -> (r: Result<Expr, Diagnostic>)
    requires
        old(p).wf(),
    ensures
        steps(*old(p), *final(p)),
        r is Ok ==> final(p).pos > old(p).pos,
        r matches Err(d) ==> parse_err(d),
        r matches Ok(e) ==> gave(*old(p), *final(p), expr_ids(e)),
        r matches Ok(e) ==> e.kind is Match,
        plain_match(*old(p)) ==> match r {
            Ok(e) => e.kind matches ExprKind::Match(_, arms) && arms@.len() == 1 && final(p).pos == old(p).pos + 6,
            Err(_) => old(p).next_node_id + 3 >= u32::MAX,
        },
    decreases old(p).tokens@.len() - old(p).pos, 2nat,
{
    let ghost n0 = p.next_node_id as int;
    let start = p.current_span();
    p.expect(&TokenKind::Match, "'match'")?;
    proof {
        if plain_match(*old(p)) {
            assert(old(p).pos + 1 < old(p).tokens@.len());
        }
    }
    let scrutinee = parse_expr(p)?;
    let ghost n1 = p.next_node_id as int;
    let ghost q = p.pos as int;
    p.consume_newlines();
    proof {
        if plain_match(*old(p)) && p.pos > q {
            assert(p.tokens@[q].kind is Newline);
        }
    }
    let mut arms: Vec<MatchArm> = Vec::new();
    assert(arms_ids(arms@) =~= Seq::<NodeId>::empty());
    while !matches!(p.peek_kind(), TokenKind::End)
        invariant
            steps(*old(p), *p),
            p.pos > old(p).pos,
            n1 <= p.next_node_id,
            fresh_ids(arms_ids(arms@), n1, p.next_node_id as int),
            plain_match(*old(p)) ==> (arms@.len() == 0 && p.pos == old(p).pos + 2 && p.next_node_id == old(p).next_node_id + 1)
                || (arms@.len() == 1 && p.pos == old(p).pos + 5 && p.cur() is End
                && p.next_node_id == old(p).next_node_id + 3),
        decreases p.tokens@.len() - p.pos,
    {
        if matches!(p.peek_kind(), TokenKind::Eof) {
            return Err(p.error_here("unexpected end of input inside match expression"));
        }
        let ghost m0 = p.next_node_id as int;
        let ghost before = arms@;
        let case_span = p.current_span();
        p.expect(&TokenKind::Case, "'case'")?;
        let pattern = parse_pattern(p)?;
        let ghost m1 = p.next_node_id as int;
        p.expect(&TokenKind::Then, "'then'")?;
        let body = parse_match_arm_body(p)?;
        let arm_span = Span::merge(case_span, body.span);
        arms.push(MatchArm { pattern, body, span: arm_span });
        proof {
            assert(arms@.drop_last() =~= before);
            lemma_fresh_join(arms_ids(before), pattern_ids(pattern), n1, m0, m0, m1);
            lemma_fresh_join(arms_ids(before) + pattern_ids(pattern), block_ids(body), n1, m1, m1, p.next_node_id as int);
        }
    }
    if arms.len() == 0 {
        return Err(p.error_here("match expression requires at least one `case` arm"));
    }
    let ghost n2 = p.next_node_id as int;
    let end = p.current_span();
    p.expect(&TokenKind::End, "'end'")?;
    let id = p.fresh_node_id()?;
    proof {
        lemma_fresh_join(expr_ids(scrutinee), arms_ids(arms@), n0, n1, n1, n2);
        lemma_fresh_snoc(expr_ids(scrutinee) + arms_ids(arms@), id, n0, n2);
    }
    Ok(Expr { kind: ExprKind::Match(Box::new(scrutinee), arms), span: Span::merge(start, end), id })
}

/// The pattern a single literal token (or `_`) stands for.
pub open spec fn literal_pattern_of(k: TokenKind) -> Option<PatternKind> {
    match k {
        TokenKind::Int(n) => Some(PatternKind::IntLit(n)),
        TokenKind::True => Some(PatternKind::BoolLit(true)),
        TokenKind::False => Some(PatternKind::BoolLit(false)),
        TokenKind::Str(s) => Some(PatternKind::StrLit(s)),
        TokenKind::Ident(n) => if n@ == "_"@ { Some(PatternKind::Wildcard) } else { None },
        _ => None,
    }
}

/// A `case` pattern: `_`, a binding, `Variant(p, ...)`, an integer
/// (optionally negated), `true`/`false` or a string. Float literals are
/// rejected.
pub fn parse_pattern(p: &mut Parser) -> (r: Result<Pattern, Diagnostic>)
    requires
        old(p).wf(),
    ensures
        steps(*old(p), *final(p)),
        r is Ok ==> final(p).pos > old(p).pos,
        r matches Err(d) ==> parse_err(d),
        literal_pattern_of(old(p).cur()) matches Some(k) ==> match r {
            Ok(q) => q.kind == k && q.span == cur_span(*old(p)),
            Err(_) => ids_exhausted(*old(p)),
        },
        old(p).cur() matches TokenKind::Ident(n) ==> (n@ != "_"@ ==> (r matches Ok(q) ==> match ahead(*old(p), 1) {
            TokenKind::LParen => q.kind matches PatternKind::Variant(m, _) && m == n,
            _ => q.kind == PatternKind::Ident(n),
        })),
        ahead(*old(p), 1) matches TokenKind::Int(n) ==> (old(p).cur() is Minus ==> (r matches Ok(q) ==> q.kind matches PatternKind::IntLit(v) && v == -n)),
        old(p).cur() matches TokenKind::Ident(n) ==> (n@ != "_"@ && !(ahead(*old(p), 1) is LParen) ==> match r {
            Ok(q) => q.kind == PatternKind::Ident(n) && q.span == cur_span(*old(p)) && final(p).pos == old(p).pos + 1
                && final(p).next_node_id == old(p).next_node_id + 1,
            Err(_) => ids_exhausted(*old(p)),
        }),
        old(p).cur() matches TokenKind::Ident(n) ==> (ahead(*old(p), 2) matches TokenKind::Ident(x) ==> (n@ != "_"@ && x@ != "_"@
            && ahead(*old(p), 1) is LParen && ahead(*old(p), 3) is RParen ==> match r {
            Ok(q) => q.kind matches PatternKind::Variant(m, subs) && m == n && subs@.len() == 1
                && subs@[0].kind == PatternKind::Ident(x) && final(p).pos == old(p).pos + 4,
            Err(_) => old(p).next_node_id + 1 >= u32::MAX,
        })),
        old(p).cur() is Float ==> (r matches Err(d) && d.message@ == FLOAT_PATTERN_REJECTED@ && d.span == cur_span(*old(p))),
        (old(p).cur() is Minus && ahead(*old(p), 1) is Float) ==> (r matches Err(d) && d.message@ == FLOAT_PATTERN_REJECTED@
            && d.span == Span::merge_spec(cur_span(*old(p)), old(p).tokens@[old(p).pos + 1].span)),
        (old(p).cur() is Minus && !(ahead(*old(p), 1) is Int)) ==> r is Err,
        !(old(p).cur() is Ident || old(p).cur() is Int || old(p).cur() is Minus || old(p).cur() is True
            || old(p).cur() is False || old(p).cur() is Str) ==> r is Err,
        r matches Ok(q) ==> gave(*old(p), *final(p), pattern_ids(q)),
    decreases old(p).tokens@.len() - old(p).pos, 0nat,
{
    let ghost n0 = p.next_node_id as int;
    proof {
        assert(Seq::<NodeId>::empty() + seq![NodeId(n0 as u32)] =~= seq![NodeId(n0 as u32)]);
        lemma_fresh_snoc(Seq::empty(), NodeId(n0 as u32), n0, n0);
    }
    let start = p.current_span();
    match p.peek_kind() {
        TokenKind::Ident(name) => {
            let n = name.clone();
            if str_eq(n.as_str(), "_") {
                let span = p.advance();
                let id = p.fresh_node_id()?;
                return Ok(Pattern { kind: PatternKind::Wildcard, span, id });
            }
            let ident_span = p.advance();
            if p.eat(&TokenKind::LParen) {
                let payload = parse_pattern_list(p)?;
                let ghost n1 = p.next_node_id as int;
                let end = p.current_span();
                p.expect(&TokenKind::RParen, "')'")?;
                let id = p.fresh_node_id()?;
                proof {
                    lemma_fresh_snoc(patterns_ids(payload@), id, n0, n1);
                }
                Ok(Pattern { kind: PatternKind::Variant(n, payload), span: Span::merge(start, end), id })
            } else {
                let id = p.fresh_node_id()?;
                Ok(Pattern { kind: PatternKind::Ident(n), span: ident_span, id })
            }
        },
        TokenKind::Int(n) => {
            let v = *n;
            let span = p.advance();
            let id = p.fresh_node_id()?;
            Ok(Pattern { kind: PatternKind::IntLit(v), span, id })
        },
        TokenKind::Minus => {
            p.advance();
            match p.peek_kind() {
                TokenKind::Int(n) => {
                    let v = *n;
                    if v == i64::MIN {
                        return Err(p.error_here("integer literal out of range"));
                    }
                    let int_span = p.advance();
                    let id = p.fresh_node_id()?;
                    Ok(Pattern { kind: PatternKind::IntLit(-v), span: Span::merge(start, int_span), id })
                },
                TokenKind::Float(_) => {
                    let float_span = p.current_span();
                    Err(Diagnostic::parse_error(Span::merge(start, float_span), FLOAT_PATTERN_REJECTED))
                },
                _ => Err(p.error_found("expected integer literal after '-' in pattern", "")),
            }
        },
        TokenKind::Float(_) => Err(Diagnostic::parse_error(start, FLOAT_PATTERN_REJECTED)),
        TokenKind::True => {
            let span = p.advance();
            let id = p.fresh_node_id()?;
            Ok(Pattern { kind: PatternKind::BoolLit(true), span, id })
        },
        TokenKind::False => {
            let span = p.advance();
            let id = p.fresh_node_id()?;
            Ok(Pattern { kind: PatternKind::BoolLit(false), span, id })
        },
        TokenKind::Str(s) => {
            let s = s.clone();
            let span = p.advance();
            let id = p.fresh_node_id()?;
            Ok(Pattern { kind: PatternKind::StrLit(s), span, id })
        },
        _ => Err(p.error_found("expected ", "pattern")),
    }
}

/// Sub-patterns of a variant pattern, after `(`; an empty list is
/// rejected.
fn parse_pattern_list(p: &mut Parser) -> (r: Result<Vec<Pattern>, Diagnostic>)
    requires
        old(p).wf(),
    ensures
        steps(*old(p), *final(p)),
        r matches Err(d) ==> parse_err(d),
        r matches Ok(v) ==> gave(*old(p), *final(p), patterns_ids(v@)),
        old(p).cur() matches TokenKind::Ident(x) ==> (x@ != "_"@ && ahead(*old(p), 1) is RParen ==> match r {
            Ok(v) => v@.len() == 1 && v@[0].kind == PatternKind::Ident(x) && final(p).pos == old(p).pos + 1
                && final(p).next_node_id == old(p).next_node_id + 1,
            Err(_) => ids_exhausted(*old(p)),
        }),
    decreases old(p).tokens@.len() - old(p).pos, 1nat,
{
    let ghost n0 = p.next_node_id as int;
    let ghost binder = old(p).cur() matches TokenKind::Ident(x) && x@ != "_"@ && ahead(*old(p), 1) is RParen;
    p.consume_newlines();
    proof {
        if binder && p.pos > old(p).pos {
            assert(p.tokens@[old(p).pos as int].kind is Newline);
        }
    }
    if p.at(&TokenKind::RParen) {
        return Err(p.error_here("empty payload list `()` is not allowed; use the variant name without parentheses"));
    }
    let mut items: Vec<Pattern> = Vec::new();
    let first = parse_pattern(p)?;
    items.push(first);
    proof {
        assert(items@.drop_last() =~= Seq::<Pattern>::empty());
        assert(patterns_ids(Seq::<Pattern>::empty()) =~= Seq::<NodeId>::empty());
        assert(patterns_ids(items@) =~= pattern_ids(first));
    }
    let ghost q1 = p.pos as int;
    p.consume_newlines();
    proof {
        if binder && p.pos > q1 {
            assert(p.tokens@[q1].kind is Newline);
        }
    }
    while p.eat(&TokenKind::Comma)
        invariant
            steps(*old(p), *p),
            n0 == old(p).next_node_id,
            gave(*old(p), *p, patterns_ids(items@)),
            binder == (old(p).cur() matches TokenKind::Ident(x) && x@ != "_"@ && ahead(*old(p), 1) is RParen),
            binder ==> p.pos == old(p).pos + 1 && items@.len() == 1 && items@[0] == first && p.cur() is RParen
                && p.next_node_id == old(p).next_node_id + 1,
        decreases p.tokens@.len() - p.pos,
    {
        p.consume_newlines();
        if p.at(&TokenKind::RParen) {
            break;
        }
        let ghost n1 = p.next_node_id as int;
        let ghost before = items@;
        let q = parse_pattern(p)?;
        items.push(q);
        proof {
            assert(items@.drop_last() =~= before);
            lemma_fresh_join(patterns_ids(before), pattern_ids(q), n0, n1, n1, p.next_node_id as int);
        }
        p.consume_newlines();
    }
    Ok(items)
}

} // verus!
