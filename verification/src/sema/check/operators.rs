//! Typing rules for operators: arithmetic with units and shapes,
//! exponentiation, comparisons, logical and unary operators.

use vstd::prelude::*;
use crate::ast::{BinOp, Expr, ExprKind, UnaryOp};
use crate::diag::{Diagnostic, Level, Phase};
use crate::sema::diag::{sema_error, ty_text};
use crate::sema::resolve::DefinitionTable;
use crate::text::{int_digits, nat_digits};
use crate::sema::check::{grows, keeps_types, TypeChecker};
use crate::source::Span;
use crate::text::{push_str, push_usize, string_of};
use crate::sema::dimension::{div_dims, div_spec, is_zero_dim, mul_dims, mul_spec, pow_dims, pow_spec, Dimension};
use crate::sema::ty::{Ty, TyV};

verus! {

/// The outcome of an arithmetic operator on two operand types.
pub enum ArithResult {
    Ty(Ty),
    /// The units of the operands disagree.
    DimensionMismatch,
    /// The shapes (lengths, matrix dimensions) of the operands disagree.
    ShapeMismatch,
    /// A unit exponent left the `i8` range.
    Overflow,
    /// A matrix operand in an unsupported combination.
    MatUnsupported,
    /// A vector operand in an unsupported combination.
    VecUnsupported,
    /// Operands that are not numeric.
    NotNumeric,
}

pub ghost enum ArithV {
    Ty(TyV),
    DimensionMismatch,
    ShapeMismatch,
    Overflow,
    MatUnsupported,
    VecUnsupported,
    NotNumeric,
}

impl View for ArithResult {
    type V = ArithV;

    open spec fn view(&self) -> ArithV {
        match self {
            ArithResult::Ty(t) => ArithV::Ty(t@),
            ArithResult::DimensionMismatch => ArithV::DimensionMismatch,
            ArithResult::ShapeMismatch => ArithV::ShapeMismatch,
            ArithResult::Overflow => ArithV::Overflow,
            ArithResult::MatUnsupported => ArithV::MatUnsupported,
            ArithResult::VecUnsupported => ArithV::VecUnsupported,
            ArithResult::NotNumeric => ArithV::NotNumeric,
        }
    }
}

pub open spec fn is_numeric_shape(t: TyV) -> bool {
    t is Scalar || t is Vec || t is Mat
}

/// An `Int` operand next to a `Scalar`, `Vec` or `Mat` is read as a
/// dimensionless `Scalar`.
pub open spec fn promote_spec(l: TyV, r: TyV) -> (TyV, TyV) {
    if l is Int && is_numeric_shape(r) {
        (TyV::Scalar(Dimension::zero_spec()), r)
    } else if is_numeric_shape(l) && r is Int {
        (l, TyV::Scalar(Dimension::zero_spec()))
    } else {
        (l, r)
    }
}

pub open spec fn dim_result(d: Option<Dimension>) -> ArithV {
    match d {
        Some(x) => ArithV::Ty(TyV::Scalar(x)),
        None => ArithV::Overflow,
    }
}

pub open spec fn vec_result(n: usize, d: Option<Dimension>) -> ArithV {
    match d {
        Some(x) => ArithV::Ty(TyV::Vec(n, x)),
        None => ArithV::Overflow,
    }
}

/// The arithmetic rules, tried in order on the promoted operands:
/// `Int op Int` is `Int`; `Scalar ± Scalar` needs equal units; `*` and `/`
/// combine units; `Mat ± Mat` needs equal shapes; `Mat * Mat` and
/// `Mat * Vec` need matching inner dimensions; a `Mat` scales only by a
/// dimensionless `Scalar`; `Vec ± Vec` needs equal length and unit; a
/// `Vec` scales by a `Scalar` (and divides by one).
pub open spec fn arith_spec(op: BinOp, l: TyV, r: TyV) -> ArithV {
    let (a, b) = promote_spec(l, r);
    let additive = op == BinOp::Add || op == BinOp::Sub;
    if a is Int && b is Int {
        ArithV::Ty(TyV::Int)
    } else if additive && a is Scalar && b is Scalar {
        if a->Scalar_0 == b->Scalar_0 { ArithV::Ty(a) } else { ArithV::DimensionMismatch }
    } else if op == BinOp::Mul && a is Scalar && b is Scalar {
        dim_result(mul_spec(a->Scalar_0, b->Scalar_0))
    } else if op == BinOp::Div && a is Scalar && b is Scalar {
        dim_result(div_spec(a->Scalar_0, b->Scalar_0))
    } else if additive && a is Mat && b is Mat {
        if a == b { ArithV::Ty(a) } else { ArithV::ShapeMismatch }
    } else if op == BinOp::Mul && a is Mat && b is Mat {
        if a->Mat_1 == b->Mat_0 { ArithV::Ty(TyV::Mat(a->Mat_0, b->Mat_1)) } else { ArithV::ShapeMismatch }
    } else if op == BinOp::Mul && a is Mat && b is Vec {
        if a->Mat_1 == b->Vec_0 { ArithV::Ty(TyV::Vec(a->Mat_0, b->Vec_1)) } else { ArithV::ShapeMismatch }
    } else if op == BinOp::Mul && a is Mat && b is Scalar {
        if is_zero_dim(b->Scalar_0) { ArithV::Ty(a) } else { ArithV::DimensionMismatch }
    } else if op == BinOp::Mul && a is Scalar && b is Mat {
        if is_zero_dim(a->Scalar_0) { ArithV::Ty(b) } else { ArithV::DimensionMismatch }
    } else if op == BinOp::Div && a is Mat && b is Scalar {
        if is_zero_dim(b->Scalar_0) { ArithV::Ty(a) } else { ArithV::DimensionMismatch }
    } else if a is Mat || b is Mat {
        ArithV::MatUnsupported
    } else if additive && a is Vec && b is Vec {
        if a->Vec_0 != b->Vec_0 {
            ArithV::ShapeMismatch
        } else if a->Vec_1 != b->Vec_1 {
            ArithV::DimensionMismatch
        } else {
            ArithV::Ty(a)
        }
    } else if op == BinOp::Mul && a is Vec && b is Scalar {
        vec_result(a->Vec_0, mul_spec(a->Vec_1, b->Scalar_0))
    } else if op == BinOp::Mul && a is Scalar && b is Vec {
        vec_result(b->Vec_0, mul_spec(b->Vec_1, a->Scalar_0))
    } else if op == BinOp::Div && a is Vec && b is Scalar {
        vec_result(a->Vec_0, div_spec(a->Vec_1, b->Scalar_0))
    } else if a is Vec || b is Vec {
        ArithV::VecUnsupported
    } else {
        ArithV::NotNumeric
    }
}

/// `d` is the diagnostic headed `head` on the operands `a` (at `ls`) and
/// `b` (at `rs`) of `op`: spanning both, with a label on each side.
pub open spec fn two_sided(
    d: Diagnostic,
    head: Seq<char>,
    defs: DefinitionTable,
    op: BinOp,
    ls: Span,
    a: TyV,
    rs: Span,
    b: TyV,
) -> bool {
    &&& d.level == Level::Error
    &&& d.phase == Phase::Sema
    &&& d.span == Span::merge_spec(ls, rs)
    &&& d.message@ == head + op_symbol_spec(op) + "': left side has "@ + ty_text(a, defs) + ", but right side has "@
        + ty_text(b, defs)
    &&& d.labels@.len() == 2
    &&& d.labels@[0].0 == ls
    &&& d.labels@[0].1@ == "left side has "@ + ty_text(a, defs)
    &&& d.labels@[1].0 == rs
    &&& d.labels@[1].1@ == "right side has "@ + ty_text(b, defs)
    &&& d.notes@.len() == 0
}

/// The diagnostic that refusing `l op r` (operands at `ls` and `rs`)
/// reports, for each refused outcome of `arith_spec`; the operand types
/// in it are the promoted ones.
pub open spec fn arith_report(defs: DefinitionTable, op: BinOp, l: TyV, r: TyV, ls: Span, rs: Span, d: Diagnostic) -> bool {
    let (a, b) = promote_spec(l, r);
    match arith_spec(op, l, r) {
        ArithV::Ty(_) => true,
        ArithV::DimensionMismatch => two_sided(d, "dimension mismatch in '"@, defs, op, ls, a, rs, b),
        ArithV::ShapeMismatch => two_sided(d, "shape mismatch in '"@, defs, op, ls, a, rs, b),
        ArithV::Overflow => sema_error(d, ls, "dimension component overflow in unit expression"@),
        ArithV::MatUnsupported => sema_error(
            d,
            ls,
            "Mat operation not supported for these operands (Mat +/- Mat requires equal shape; Mat * Mat, Mat * Vec, and Mat scaled by a dimensionless Scalar are supported; matrix division/inverse and Vec * Mat are not)"@,
        ),
        ArithV::VecUnsupported => sema_error(
            d,
            ls,
            "Vec operation not supported for these operands (Vec +/- Vec requires equal shape and dimension; use dot()/cross() for vector products; Vec scales by Scalar only)"@,
        ),
        ArithV::NotNumeric => sema_error(d, ls, "arithmetic operands must both be Int or Scalar"@),
    }
}

pub open spec fn is_arith_op(op: BinOp) -> bool {
    op == BinOp::Add || op == BinOp::Sub || op == BinOp::Mul || op == BinOp::Div
}

fn is_numeric_shape_ty(t: &Ty) -> (r: bool)
    ensures
        r == is_numeric_shape(t@),
{
    matches!(t, Ty::Scalar(_) | Ty::Vec(_, _) | Ty::Mat(_, _))
}

/// The operand types after `Int` promotion next to a numeric shape.
pub fn promote_int_to_scalar(l: &Ty, r: &Ty) -> (p: (Ty, Ty))
    ensures
        (p.0@, p.1@) == promote_spec(l@, r@),
{
    if matches!(l, Ty::Int) && is_numeric_shape_ty(r) {
        (Ty::Scalar(Dimension::zero()), r.dup())
    } else if is_numeric_shape_ty(l) && matches!(r, Ty::Int) {
        (l.dup(), Ty::Scalar(Dimension::zero()))
    } else {
        (l.dup(), r.dup())
    }
}

fn scalar_of(d: Option<Dimension>) -> (r: ArithResult)
    ensures
        r@ == dim_result(d),
{
    match d {
        Some(x) => ArithResult::Ty(Ty::Scalar(x)),
        None => ArithResult::Overflow,
    }
}

fn vec_of(n: usize, d: Option<Dimension>) -> (r: ArithResult)
    ensures
        r@ == vec_result(n, d),
{
    match d {
        Some(x) => ArithResult::Ty(Ty::Vec(n, x)),
        None => ArithResult::Overflow,
    }
}

/// Apply the arithmetic rules to promoted operands `a` and `b`.
pub fn arith_rule(op: BinOp, a: &Ty, b: &Ty) -> (r: ArithResult)
    requires
        promote_spec(a@, b@) == (a@, b@),
    ensures
        r@ == arith_spec(op, a@, b@),
{
    let additive = matches!(op, BinOp::Add | BinOp::Sub);
    let is_mul = matches!(op, BinOp::Mul);
    let is_div = matches!(op, BinOp::Div);
    match (a, b) {
        (Ty::Int, Ty::Int) => ArithResult::Ty(Ty::Int),
        (Ty::Scalar(d1), Ty::Scalar(d2)) => {
            if additive {
                if d1.same(*d2) { ArithResult::Ty(Ty::Scalar(*d1)) } else { ArithResult::DimensionMismatch }
            } else if is_mul {
                scalar_of(mul_dims(*d1, *d2))
            } else if is_div {
                scalar_of(div_dims(*d1, *d2))
            } else {
                ArithResult::NotNumeric
            }
        },
        (Ty::Mat(m1, n1), Ty::Mat(m2, n2)) => {
            if additive {
                if *m1 == *m2 && *n1 == *n2 { ArithResult::Ty(Ty::Mat(*m1, *n1)) } else { ArithResult::ShapeMismatch }
            } else if is_mul {
                if *n1 == *m2 { ArithResult::Ty(Ty::Mat(*m1, *n2)) } else { ArithResult::ShapeMismatch }
            } else {
                ArithResult::MatUnsupported
            }
        },
        (Ty::Mat(m, n1), Ty::Vec(n2, d)) => {
            if is_mul {
                if *n1 == *n2 { ArithResult::Ty(Ty::Vec(*m, *d)) } else { ArithResult::ShapeMismatch }
            } else {
                ArithResult::MatUnsupported
            }
        },
        (Ty::Mat(m, n), Ty::Scalar(d)) => {
            if is_mul || is_div {
                if d.is_dimensionless() { ArithResult::Ty(Ty::Mat(*m, *n)) } else { ArithResult::DimensionMismatch }
            } else {
                ArithResult::MatUnsupported
            }
        },
        (Ty::Scalar(d), Ty::Mat(m, n)) => {
            if is_mul {
                if d.is_dimensionless() { ArithResult::Ty(Ty::Mat(*m, *n)) } else { ArithResult::DimensionMismatch }
            } else {
                ArithResult::MatUnsupported
            }
        },
        (Ty::Mat(_, _), _) | (_, Ty::Mat(_, _)) => ArithResult::MatUnsupported,
        (Ty::Vec(n1, d1), Ty::Vec(n2, d2)) => {
            if additive {
                if *n1 != *n2 {
                    ArithResult::ShapeMismatch
                } else if !d1.same(*d2) {
                    ArithResult::DimensionMismatch
                } else {
                    ArithResult::Ty(Ty::Vec(*n1, *d1))
                }
            } else {
                ArithResult::VecUnsupported
            }
        },
        (Ty::Vec(n, dv), Ty::Scalar(ds)) => {
            if is_mul {
                vec_of(*n, mul_dims(*dv, *ds))
            } else if is_div {
                vec_of(*n, div_dims(*dv, *ds))
            } else {
                ArithResult::VecUnsupported
            }
        },
        (Ty::Scalar(ds), Ty::Vec(n, dv)) => {
            if is_mul {
                vec_of(*n, mul_dims(*dv, *ds))
            } else {
                ArithResult::VecUnsupported
            }
        },
        (Ty::Vec(_, _), _) | (_, Ty::Vec(_, _)) => ArithResult::VecUnsupported,
        _ => ArithResult::NotNumeric,
    }
}

/// Comparison operands: the same primitive type (`Int`, `Scalar`, `Bool`,
/// `String`), or `Int` against a dimensionless `Scalar`.
pub open spec fn comparable(l: TyV, r: TyV) -> bool {
    ||| (l == r && (l is Int || l is Scalar || l is Bool || l is Str))
    ||| (l is Int && r is Scalar && is_zero_dim(r->Scalar_0))
    ||| (l is Scalar && is_zero_dim(l->Scalar_0) && r is Int)
}

pub fn comparison_ok(l: &Ty, r: &Ty) -> (b: bool)
    ensures
        b == comparable(l@, r@),
{
    let same_primitive = l.same(r) && matches!(l, Ty::Int | Ty::Scalar(_) | Ty::Bool | Ty::String);
    let int_scalar = match (l, r) {
        (Ty::Int, Ty::Scalar(d)) => d.is_dimensionless(),
        (Ty::Scalar(d), Ty::Int) => d.is_dimensionless(),
        _ => false,
    };
    same_primitive || int_scalar
}

/// The type of unary `-` on an operand: `Int`, `Scalar`, `Vec` and `Mat`
/// keep their type; anything else has none.
pub open spec fn neg_spec(t: TyV) -> Option<TyV> {
    if t is Int || t is Scalar || t is Vec || t is Mat { Some(t) } else { None }
}

pub fn neg_rule(t: &Ty) -> (r: Option<Ty>)
    ensures
        match r {
            Some(x) => neg_spec(t@) == Some(x@),
            None => neg_spec(t@) is None,
        },
{
    match t {
        Ty::Int | Ty::Scalar(_) | Ty::Vec(_, _) | Ty::Mat(_, _) => Some(t.dup()),
        _ => None,
    }
}

/// The integer exponent written as a literal (optionally negated).
pub open spec fn exponent_spec(e: Expr) -> Option<int> {
    match e.kind {
        ExprKind::IntLit(n) => Some(n as int),
        ExprKind::UnaryOp(UnaryOp::Neg, inner) => match inner.kind {
            ExprKind::IntLit(n) => Some(-(n as int)),
            _ => None,
        },
        _ => None,
    }
}

/// The exponent of `^` as an `i64`, when it is an integer literal whose
/// negation fits.
pub fn exponent_literal(e: &Expr) -> (r: Option<i64>)
    ensures
        match r {
            Some(n) => exponent_spec(*e) == Some(n as int),
            None => exponent_spec(*e) is None || exponent_spec(*e) == Some(i64::MAX as int + 1),
        },
{
    match &e.kind {
        ExprKind::IntLit(n) => Some(*n),
        ExprKind::UnaryOp(UnaryOp::Neg, inner) => match &inner.kind {
            ExprKind::IntLit(n) => {
                if *n == i64::MIN {
                    None
                } else {
                    Some(-*n)
                }
            },
            _ => None,
        },
        _ => None,
    }
}

/// A numeric literal, possibly negated: these adopt an expected unit.
pub open spec fn numeric_literal_spec(e: Expr) -> bool {
    match e.kind {
        ExprKind::IntLit(_) | ExprKind::FloatLit(_) => true,
        ExprKind::UnaryOp(UnaryOp::Neg, inner) => inner.kind is IntLit || inner.kind is FloatLit,
        _ => false,
    }
}

pub fn is_numeric_literal(e: &Expr) -> (r: bool)
    ensures
        r == numeric_literal_spec(*e),
{
    match &e.kind {
        ExprKind::IntLit(_) | ExprKind::FloatLit(_) => true,
        ExprKind::UnaryOp(UnaryOp::Neg, inner) => matches!(inner.kind, ExprKind::IntLit(_) | ExprKind::FloatLit(_)),
        _ => false,
    }
}

pub open spec fn op_symbol_spec(op: BinOp) -> Seq<char> {
    match op {
        BinOp::Add => "+"@,
        BinOp::Sub => "-"@,
        BinOp::Mul => "*"@,
        BinOp::Div => "/"@,
        BinOp::Pow => "^"@,
        BinOp::Eq => "=="@,
        BinOp::Neq => "!="@,
        BinOp::Lt => "<"@,
        BinOp::Gt => ">"@,
        BinOp::Le => "<="@,
        BinOp::Ge => ">="@,
        BinOp::And => "and"@,
        BinOp::Or => "or"@,
    }
}

pub fn op_symbol(op: BinOp) -> (r: &'static str)
    ensures
        r@ == op_symbol_spec(op),
{
    match op {
        BinOp::Add => "+",
        BinOp::Sub => "-",
        BinOp::Mul => "*",
        BinOp::Div => "/",
        BinOp::Pow => "^",
        BinOp::Eq => "==",
        BinOp::Neq => "!=",
        BinOp::Lt => "<",
        BinOp::Gt => ">",
        BinOp::Le => "<=",
        BinOp::Ge => ">=",
        BinOp::And => "and",
        BinOp::Or => "or",
    }
}

/// The outcome of `base ^ n` for an integer-literal exponent `n`.
pub enum PowResult {
    Ty(Ty),
    NegativeIntExponent,
    VecBase,
    NonSquareMat(usize, usize),
    NegativeMatExponent,
    ExponentOutOfRange,
    Overflow,
    BadBase,
}

pub ghost enum PowV {
    Ty(TyV),
    NegativeIntExponent,
    VecBase,
    NonSquareMat(usize, usize),
    NegativeMatExponent,
    ExponentOutOfRange,
    Overflow,
    BadBase,
}

impl View for PowResult {
    type V = PowV;

    open spec fn view(&self) -> PowV {
        match self {
            PowResult::Ty(t) => PowV::Ty(t@),
            PowResult::NegativeIntExponent => PowV::NegativeIntExponent,
            PowResult::VecBase => PowV::VecBase,
            PowResult::NonSquareMat(m, n) => PowV::NonSquareMat(*m, *n),
            PowResult::NegativeMatExponent => PowV::NegativeMatExponent,
            PowResult::ExponentOutOfRange => PowV::ExponentOutOfRange,
            PowResult::Overflow => PowV::Overflow,
            PowResult::BadBase => PowV::BadBase,
        }
    }
}

/// `Int ^ n` needs `n >= 0`; `Scalar<u> ^ n` raises the unit to an
/// `i8` power; `Vec ^ n` is refused; `Mat ^ n` needs a square matrix and
/// `n >= 0`.
pub open spec fn pow_rule_spec(base: TyV, n: int) -> PowV {
    match base {
        TyV::Int => if n < 0 { PowV::NegativeIntExponent } else { PowV::Ty(TyV::Int) },
        TyV::Scalar(d) => if n < -128 || n > 127 {
            PowV::ExponentOutOfRange
        } else {
            match pow_spec(d, n as i8) {
                Some(x) => PowV::Ty(TyV::Scalar(x)),
                None => PowV::Overflow,
            }
        },
        TyV::Vec(_, _) => PowV::VecBase,
        TyV::Mat(m, c) => if m != c {
            PowV::NonSquareMat(m, c)
        } else if n < 0 {
            PowV::NegativeMatExponent
        } else {
            PowV::Ty(TyV::Mat(m, c))
        },
        _ => PowV::BadBase,
    }
}

/// The diagnostic that refusing `base ^ n` reports for a refused outcome
/// of `pow_rule_spec`, at the base's span `bs`.
pub open spec fn pow_report(defs: DefinitionTable, base: TyV, n: int, bs: Span, d: Diagnostic) -> bool {
    match pow_rule_spec(base, n) {
        PowV::Ty(_) => true,
        PowV::NegativeIntExponent => sema_error(
            d,
            bs,
            "`^` on an Int with a negative exponent is not supported (convert to a float (Scalar) first)"@,
        ),
        PowV::VecBase => sema_error(
            d,
            bs,
            "`^` on a Vec is not supported (vector exponentiation is ambiguous; use dot(v, v) or norm(v) for squared magnitude)"@,
        ),
        PowV::NonSquareMat(m, c) => sema_error(
            d,
            bs,
            "`^` on a Mat requires a square matrix, found Mat<"@ + nat_digits(m as nat) + ", "@ + nat_digits(c as nat) + ">"@,
        ),
        PowV::NegativeMatExponent => sema_error(
            d,
            bs,
            "`^` on a Mat with a negative exponent (matrix inverse) is not supported"@,
        ),
        PowV::ExponentOutOfRange => sema_error(
            d,
            bs,
            "unit exponent "@ + int_digits(n) + " out of valid range [-128, 127]"@,
        ),
        PowV::Overflow => sema_error(d, bs, "dimension component overflow in unit expression"@),
        PowV::BadBase => sema_error(d, bs, "`^` base"@ + " not defined for `"@ + ty_text(base, defs) + "`"@),
    }
}

pub fn pow_rule(base: &Ty, n: i64) -> (r: PowResult)
    ensures
        r@ == pow_rule_spec(base@, n as int),
{
    match base {
        Ty::Int => if n < 0 { PowResult::NegativeIntExponent } else { PowResult::Ty(Ty::Int) },
        Ty::Scalar(d) => {
            if n < -128 || n > 127 {
                PowResult::ExponentOutOfRange
            } else {
                match pow_dims(*d, n as i8) {
                    Some(x) => PowResult::Ty(Ty::Scalar(x)),
                    None => PowResult::Overflow,
                }
            }
        },
        Ty::Vec(_, _) => PowResult::VecBase,
        Ty::Mat(m, c) => {
            if *m != *c {
                PowResult::NonSquareMat(*m, *c)
            } else if n < 0 {
                PowResult::NegativeMatExponent
            } else {
                PowResult::Ty(Ty::Mat(*m, *c))
            }
        },
        _ => PowResult::BadBase,
    }
}

/// Adding two scalars of one unit keeps the unit, in either order; adding
/// scalars of different units is a dimension mismatch.
pub proof fn lemma_scalar_add(d1: Dimension, d2: Dimension)
    ensures
        arith_spec(BinOp::Add, TyV::Scalar(d1), TyV::Scalar(d2)) == if d1 == d2 {
            ArithV::Ty(TyV::Scalar(d1))
        } else {
            ArithV::DimensionMismatch
        },
        arith_spec(BinOp::Add, TyV::Scalar(d1), TyV::Scalar(d2)) is DimensionMismatch
            == arith_spec(BinOp::Add, TyV::Scalar(d2), TyV::Scalar(d1)) is DimensionMismatch,
{
}

/// Scalar multiplication does not depend on the order of the operands.
pub proof fn lemma_scalar_mul_commutes(d1: Dimension, d2: Dimension)
    ensures
        arith_spec(BinOp::Mul, TyV::Scalar(d1), TyV::Scalar(d2)) == arith_spec(BinOp::Mul, TyV::Scalar(d2), TyV::Scalar(d1)),
{
    crate::sema::dimension::lemma_mul_commutes(d1, d2);
}

/// An `Int` operand next to a dimensionless `Scalar` behaves as that
/// `Scalar`.
pub proof fn lemma_int_promotes(op: BinOp, d: Dimension)
    requires
        is_zero_dim(d),
    ensures
        arith_spec(op, TyV::Int, TyV::Scalar(d)) == arith_spec(op, TyV::Scalar(d), TyV::Scalar(d)),
        arith_spec(op, TyV::Scalar(d), TyV::Int) == arith_spec(op, TyV::Scalar(d), TyV::Scalar(d)),
{
    let z = Dimension::zero_spec();
    assert(is_zero_dim(z)) by {
        let w = Dimension([0i8, 0i8, 0i8, 0i8, 0i8, 0i8, 0i8]);
        assert(is_zero_dim(w));
    }
    crate::sema::dimension::lemma_zero_unique(z, d);
}


/// The type of a unary operator applied to an operand of type `t`
/// (`Error` on an `Error` operand or a type the operator refuses).
pub open spec fn unary_spec(op: UnaryOp, t: TyV) -> TyV {
    if t is Error {
        TyV::Error
    } else {
        match op {
            UnaryOp::Neg => match neg_spec(t) {
                Some(x) => x,
                None => TyV::Error,
            },
            UnaryOp::Not => if t is Bool { TyV::Bool } else { TyV::Error },
        }
    }
}

/// A comparison operator.
pub open spec fn is_comparison(op: BinOp) -> bool {
    op is Eq || op is Neq || op is Lt || op is Gt || op is Le || op is Ge
}

impl TypeChecker {
    /// A binary operator: both operands are synthesized; an `Error`
    /// operand makes the result `Error` without further reports.
    pub fn synth_binop(&mut self, e: &Expr) -> (r: Ty)
        requires
            old(self).ok(),
        ensures
            final(self).ok(),
            final(self).same_tables(*old(self)),
            grows(old(self).diagnostics@, final(self).diagnostics@),
            keeps_types(old(self).types, final(self).types),
            e.kind matches ExprKind::BinOp(op, _, rhs) ==> (final(self).types.at(rhs.id) matches Some(rt) && {
                &&& rt@ is Error ==> r@ == TyV::Error
                &&& (is_comparison(op) || op is And || op is Or) ==> (r@ == TyV::Bool || r@ == TyV::Error)
            }),
        decreases e, 0nat,
    {
        if let ExprKind::BinOp(op, l, r) = &e.kind {
            let lt = self.synth_expr(l);
            let rt = self.synth_expr(r);
            if matches!(lt, Ty::Error) || matches!(rt, Ty::Error) {
                return Ty::Error;
            }
            match op {
                BinOp::Add | BinOp::Sub | BinOp::Mul | BinOp::Div => self.synth_arith(*op, &lt, &rt, l.span, r.span),
                BinOp::Pow => self.synth_pow(&lt, r, l.span),
                BinOp::Eq | BinOp::Neq | BinOp::Lt | BinOp::Gt | BinOp::Le | BinOp::Ge => {
                    if comparison_ok(&lt, &rt) {
                        Ty::Bool
                    } else {
                        self.report(crate::sema::diag::type_mismatch(l.span, "comparison operands must have the same primitive type"));
                        Ty::Error
                    }
                },
                BinOp::And | BinOp::Or => self.synth_logical(&lt, &rt, l.span, r.span),
            }
        } else {
            Ty::Error
        }
    }

    /// Unary `-` keeps a numeric type; `not` needs a `Bool`.
    pub fn synth_unaryop(&mut self, e: &Expr) -> (r: Ty)
        requires
            old(self).ok(),
        ensures
            final(self).ok(),
            final(self).same_tables(*old(self)),
            grows(old(self).diagnostics@, final(self).diagnostics@),
            keeps_types(old(self).types, final(self).types),
            e.kind matches ExprKind::UnaryOp(op, x) ==> (final(self).types.at(x.id) matches Some(xt) && r@ == unary_spec(op, xt@)),
        decreases e, 0nat,
    {
        if let ExprKind::UnaryOp(op, x) = &e.kind {
            let xt = self.synth_expr(x);
            if matches!(xt, Ty::Error) {
                return Ty::Error;
            }
            match op {
                UnaryOp::Neg => match neg_rule(&xt) {
                    Some(t) => t,
                    None => {
                        let d = crate::sema::diag::op_type_error(&self.definitions, x.span, "unary `-`", &xt);
                        self.report(d);
                        Ty::Error
                    },
                },
                UnaryOp::Not => {
                    if matches!(xt, Ty::Bool) {
                        Ty::Bool
                    } else {
                        let d = crate::sema::diag::op_type_error(&self.definitions, x.span, "unary `not`", &xt);
                        self.report(d);
                        Ty::Error
                    }
                },
            }
        } else {
            Ty::Error
        }
    }

    /// Arithmetic on two synthesized operand types, reporting the outcome
    /// of `arith_spec`.
    pub fn synth_arith(&mut self, op: BinOp, l: &Ty, r: &Ty, l_span: Span, r_span: Span) -> (t: Ty)
        requires
            old(self).ok(),
        ensures
            final(self).ok(),
            final(self).same_tables(*old(self)),
            final(self).types == old(self).types,
            grows(old(self).diagnostics@, final(self).diagnostics@),
            keeps_types(old(self).types, final(self).types),
            (l@ is Error || r@ is Error) ==> t@ == TyV::Error && final(self).diagnostics == old(self).diagnostics,
            !(l@ is Error) && !(r@ is Error) ==> match arith_spec(op, l@, r@) {
                ArithV::Ty(x) => t@ == x && final(self).diagnostics == old(self).diagnostics,
                _ => t@ == TyV::Error && final(self).diagnostics@.len() == old(self).diagnostics@.len() + 1
                    && final(self).diagnostics@.drop_last() == old(self).diagnostics@
                    && arith_report(old(self).definitions, op, l@, r@, l_span, r_span, final(self).diagnostics@.last()),
            },
    {
        if matches!(l, Ty::Error) || matches!(r, Ty::Error) {
            return Ty::Error;
        }
        let (a, b) = promote_int_to_scalar(l, r);
        proof {
            assert(promote_spec(a@, b@) == (a@, b@));
        }
        match arith_rule(op, &a, &b) {
            ArithResult::Ty(t) => t,
            ArithResult::DimensionMismatch => {
                let d = crate::sema::diag::dimension_mismatch(&self.definitions, op_symbol(op), l_span, &a, r_span, &b);
                self.report(d);
                Ty::Error
            },
            ArithResult::ShapeMismatch => {
                let d = crate::sema::diag::shape_mismatch(&self.definitions, op_symbol(op), l_span, &a, r_span, &b);
                self.report(d);
                Ty::Error
            },
            ArithResult::Overflow => {
                self.report(crate::sema::diag::dimension_overflow(l_span));
                Ty::Error
            },
            ArithResult::MatUnsupported => {
                self.report(crate::sema::diag::type_mismatch(
                    l_span,
                    "Mat operation not supported for these operands (Mat +/- Mat requires equal shape; Mat * Mat, Mat * Vec, and Mat scaled by a dimensionless Scalar are supported; matrix division/inverse and Vec * Mat are not)",
                ));
                Ty::Error
            },
            ArithResult::VecUnsupported => {
                self.report(crate::sema::diag::type_mismatch(
                    l_span,
                    "Vec operation not supported for these operands (Vec +/- Vec requires equal shape and dimension; use dot()/cross() for vector products; Vec scales by Scalar only)",
                ));
                Ty::Error
            },
            ArithResult::NotNumeric => {
                self.report(crate::sema::diag::type_mismatch(l_span, "arithmetic operands must both be Int or Scalar"));
                Ty::Error
            },
        }
    }

    /// `base ^ exponent`: the exponent must be an integer literal.
    pub fn synth_pow(&mut self, base_ty: &Ty, exponent: &Expr, base_span: Span) -> (t: Ty)
        requires
            old(self).ok(),
        ensures
            final(self).ok(),
            final(self).same_tables(*old(self)),
            grows(old(self).diagnostics@, final(self).diagnostics@),
            keeps_types(old(self).types, final(self).types),
            final(self).types == old(self).types,
            base_ty@ is Error ==> t@ == TyV::Error && final(self).diagnostics == old(self).diagnostics,
            !(base_ty@ is Error) ==> match exponent_spec(*exponent) {
                Some(n) => match (if n == i64::MAX as int + 1 { PowV::ExponentOutOfRange } else { pow_rule_spec(base_ty@, n) }) {
                    PowV::Ty(x) => t@ == x && final(self).diagnostics == old(self).diagnostics,
                    _ => t@ == TyV::Error && final(self).diagnostics@.len() == old(self).diagnostics@.len() + 1,
                },
                None => t@ == TyV::Error && final(self).diagnostics@.len() == old(self).diagnostics@.len() + 1,
            },
            !(base_ty@ is Error) && t@ is Error ==> final(self).diagnostics@.drop_last() == old(self).diagnostics@,
            !(base_ty@ is Error) ==> match exponent_spec(*exponent) {
                None => sema_error(final(self).diagnostics@.last(), exponent.span, "`^` exponent must be an integer literal"@),
                Some(n) => if n == i64::MAX as int + 1 {
                    sema_error(
                        final(self).diagnostics@.last(),
                        base_span,
                        "unit exponent "@ + int_digits(i64::MIN as int) + " out of valid range [-128, 127]"@,
                    )
                } else {
                    pow_report(old(self).definitions, base_ty@, n, base_span, final(self).diagnostics@.last())
                },
            },
    {
        if matches!(base_ty, Ty::Error) {
            return Ty::Error;
        }
        let n = match exponent_literal(exponent) {
            Some(n) => n,
            None => {
                let is_lit = match &exponent.kind {
                    ExprKind::UnaryOp(UnaryOp::Neg, inner) => matches!(inner.kind, ExprKind::IntLit(_)),
                    _ => false,
                };
                if is_lit {
                    // `-i64::MIN` does not fit an `i64`; it is out of every
                    // supported exponent range.
                    self.report(crate::sema::diag::unit_exponent_out_of_range(base_span, i64::MIN));
                } else {
                    self.report(Diagnostic::type_error(exponent.span, "`^` exponent must be an integer literal"));
                }
                return Ty::Error;
            },
        };
        match pow_rule(base_ty, n) {
            PowResult::Ty(t) => t,
            PowResult::NegativeIntExponent => {
                self.report(Diagnostic::type_error(
                    base_span,
                    "`^` on an Int with a negative exponent is not supported (convert to a float (Scalar) first)",
                ));
                Ty::Error
            },
            PowResult::VecBase => {
                self.report(Diagnostic::type_error(
                    base_span,
                    "`^` on a Vec is not supported (vector exponentiation is ambiguous; use dot(v, v) or norm(v) for squared magnitude)",
                ));
                Ty::Error
            },
            PowResult::NonSquareMat(m, c) => {
                let mut msg = string_of("`^` on a Mat requires a square matrix, found Mat<");
                push_usize(&mut msg, m);
                push_str(&mut msg, ", ");
                push_usize(&mut msg, c);
                push_str(&mut msg, ">");
                self.report(Diagnostic::error_owned(crate::diag::Phase::Sema, base_span, msg));
                Ty::Error
            },
            PowResult::NegativeMatExponent => {
                self.report(Diagnostic::type_error(
                    base_span,
                    "`^` on a Mat with a negative exponent (matrix inverse) is not supported",
                ));
                Ty::Error
            },
            PowResult::ExponentOutOfRange => {
                self.report(crate::sema::diag::unit_exponent_out_of_range(base_span, n));
                Ty::Error
            },
            PowResult::Overflow => {
                self.report(crate::sema::diag::dimension_overflow(base_span));
                Ty::Error
            },
            PowResult::BadBase => {
                let d = crate::sema::diag::op_type_error(&self.definitions, base_span, "`^` base", base_ty);
                self.report(d);
                Ty::Error
            },
        }
    }

    /// `and` / `or` need two `Bool`s; the first non-`Bool` operand is
    /// reported.
    pub fn synth_logical(&mut self, l: &Ty, r: &Ty, l_span: Span, r_span: Span) -> (t: Ty)
        requires
            old(self).ok(),
        ensures
            final(self).ok(),
            final(self).same_tables(*old(self)),
            final(self).types == old(self).types,
            grows(old(self).diagnostics@, final(self).diagnostics@),
            keeps_types(old(self).types, final(self).types),
            (l@ is Bool && r@ is Bool) ==> t@ == TyV::Bool && final(self).diagnostics == old(self).diagnostics,
            !(l@ is Bool && r@ is Bool) ==> t@ == TyV::Error && final(self).diagnostics@.len() == old(self).diagnostics@.len() + 1,
    {
        if matches!(l, Ty::Bool) && matches!(r, Ty::Bool) {
            return Ty::Bool;
        }
        let (offender, span) = if !matches!(l, Ty::Bool) { (l, l_span) } else { (r, r_span) };
        let d = crate::sema::diag::op_type_error(&self.definitions, span, "logical (`&&` / `||`)", offender);
        self.report(d);
        Ty::Error
    }
}
} // verus!
