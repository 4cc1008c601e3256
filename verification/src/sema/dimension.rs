//! Dimension vectors, the SI unit registry, and unit-expression evaluation.

use vstd::prelude::*;
use crate::ast::{UnitExpr, UnitExprKind};
use crate::diag::{appends_sema_errors, lemma_appends_push, lemma_appends_refl, lemma_appends_trans, emit, Diagnostic, Level, Phase};
use crate::text::{int_digits, push_char, push_i64, push_str, str_eq, string_of};

verus! {

broadcast use vstd::array::group_array_axioms;

/// Integer exponent vector over the seven SI base dimensions, in the order
/// `[m, kg, s, A, K, mol, cd]`.
#[derive(Clone, Copy, Debug, PartialEq, Eq, Hash)]
pub struct Dimension(pub [i8; 7]);

/// Exponent `i` of `d`.
pub open spec fn ex(d: Dimension, i: int) -> int {
    d.0@[i] as int
}

/// Every component of `d` is zero.
pub open spec fn is_zero_dim(d: Dimension) -> bool {
    forall|i: int| 0 <= i < 7 ==> ex(d, i) == 0
}

/// A dimension whose components are exactly `f(i)`.
pub open spec fn dim_is(d: Dimension, f: spec_fn(int) -> int) -> bool {
    forall|i: int| 0 <= i < 7 ==> ex(d, i) == f(i)
}

/// Every `f(i)` fits an `i8`.
pub open spec fn fits_i8(f: spec_fn(int) -> int) -> bool {
    forall|i: int| 0 <= i < 7 ==> -128 <= #[trigger] f(i) <= 127
}

/// The name of base dimension `i`.
pub open spec fn base_name_spec(i: int) -> Seq<char> {
    if i == 0 { "m"@ }
    else if i == 1 { "kg"@ }
    else if i == 2 { "s"@ }
    else if i == 3 { "A"@ }
    else if i == 4 { "K"@ }
    else if i == 5 { "mol"@ }
    else { "cd"@ }
}

/// The rendered factor for base dimension `i` of `d`: its name, followed
/// by `^n` unless the exponent is 1.
pub open spec fn si_factor(d: Dimension, i: int) -> Seq<char> {
    if ex(d, i) == 1 {
        base_name_spec(i)
    } else {
        base_name_spec(i) + seq!['^'] + int_digits(ex(d, i))
    }
}

/// The `*`-joined factors of the non-zero exponents among the first `n`
/// base dimensions.
pub open spec fn si_join(d: Dimension, n: int) -> Seq<char>
    decreases n,
{
    if n <= 0 {
        Seq::<char>::empty()
    } else if ex(d, n - 1) == 0 {
        si_join(d, n - 1)
    } else if si_join(d, n - 1).len() == 0 {
        si_factor(d, n - 1)
    } else {
        si_join(d, n - 1) + seq!['*'] + si_factor(d, n - 1)
    }
}

/// Canonical SI base form: `"1"` when dimensionless, else the joined factors.
pub open spec fn format_si_spec(d: Dimension) -> Seq<char> {
    if is_zero_dim(d) { "1"@ } else { si_join(d, 7) }
}

fn base_name(i: usize) -> (r: &'static str)
    requires
        i < 7,
    ensures
        r@ == base_name_spec(i as int),
{
    if i == 0 { "m" }
    else if i == 1 { "kg" }
    else if i == 2 { "s" }
    else if i == 3 { "A" }
    else if i == 4 { "K" }
    else if i == 5 { "mol" }
    else { "cd" }
}

/// Reported when a dimension component would leave the `i8` range.
#[derive(Clone, Copy, Debug, PartialEq, Eq, Structural)]
pub struct OverflowError;

/// Two dimensionless vectors are the same vector.
pub proof fn lemma_zero_unique(a: Dimension, b: Dimension)
    requires
        is_zero_dim(a),
        is_zero_dim(b),
    ensures
        a == b,
{
    assert forall|i: int| 0 <= i < 7 implies a.0@[i] == b.0@[i] by {
        assert(ex(a, i) == 0 && ex(b, i) == 0);
    }
    assert(a.0@ =~= b.0@);
    assert(a.0 =~= b.0);
}

impl Dimension {
    /// The dimensionless vector.
    pub open spec fn zero_spec() -> Dimension {
        choose|d: Dimension| is_zero_dim(d)
    }

    /// The dimensionless vector (all exponents zero).
    pub fn zero() -> (r: Dimension)
        ensures
            is_zero_dim(r),
            r == Dimension::zero_spec(),
    {
        let r = Dimension([0i8, 0i8, 0i8, 0i8, 0i8, 0i8, 0i8]);
        assert(is_zero_dim(r));
        proof { lemma_zero_unique(r, Dimension::zero_spec()); }
        r
    }

    /// Exponent-wise equality.
    pub fn same(self, other: Dimension) -> (r: bool)
        ensures
            r == (self == other),
    {
        let mut i: usize = 0;
        while i < 7
            invariant
                i <= 7,
                forall|k: int| 0 <= k < i ==> self.0@[k] == other.0@[k],
            decreases 7 - i,
        {
            if self.0[i] != other.0[i] {
                return false;
            }
            i = i + 1;
        }
        assert(self.0 =~= other.0);
        true
    }

    /// Returns true iff this dimension is the dimensionless `ZERO`.
    pub fn is_dimensionless(self) -> (r: bool)
        ensures
            r == is_zero_dim(self),
    {
        let mut i: usize = 0;
        while i < 7
            invariant
                i <= 7,
                forall|k: int| 0 <= k < i ==> ex(self, k) == 0,
            decreases 7 - i,
        {
            if self.0[i] != 0 {
                assert(ex(self, i as int) != 0);
                return false;
            }
            i = i + 1;
        }
        true
    }

    /// Renders the canonical SI base form, e.g. `"m*kg*s^-2"`; `"1"` when
    /// dimensionless. Exponents of 1 are elided, zero exponents skipped.
    pub fn format_si(self) -> (r: String)
        ensures
            r@ == format_si_spec(self),
    {
        if self.is_dimensionless() {
            return string_of("1");
        }
        let mut out = String::new();
        let mut empty = true;
        let mut i: usize = 0;
        while i < 7
            invariant
                i <= 7,
                out@ == si_join(self, i as int),
                empty == (out@.len() == 0),
            decreases 7 - i,
        {
            let e = self.0[i];
            if e != 0 {
                if !empty {
                    push_char(&mut out, '*');
                }
                empty = false;
                proof { lemma_base_name_nonempty(i as int); }
                push_str(&mut out, base_name(i));
                if e != 1 {
                    push_char(&mut out, '^');
                    push_i64(&mut out, e as i64);
                }
            }
            proof { lemma_si_join_step(self, i as int); }
            i = i + 1;
        }
        out
    }

    /// Pointwise sum of exponents (unit multiplication). `Err` when any
    /// component leaves the `i8` range.
    pub fn mul(self, other: Dimension) -> (r: Result<Dimension, OverflowError>)
        ensures
            r is Ok <==> fits_i8(|i: int| ex(self, i) + ex(other, i)),
            r matches Ok(d) ==> dim_is(d, |i: int| ex(self, i) + ex(other, i)),
    {
        self.pointwise(other, true)
    }

    /// Pointwise difference of exponents (unit division). `Err` when any
    /// component leaves the `i8` range.
    pub fn div(self, other: Dimension) -> (r: Result<Dimension, OverflowError>)
        ensures
            r is Ok <==> fits_i8(|i: int| ex(self, i) - ex(other, i)),
            r matches Ok(d) ==> dim_is(d, |i: int| ex(self, i) - ex(other, i)),
    {
        self.pointwise(other, false)
    }

    /// Every exponent multiplied by `n`. `Err` when any component leaves
    /// the `i8` range.
    pub fn pow(self, n: i8) -> (r: Result<Dimension, OverflowError>)
        ensures
            r is Ok <==> fits_i8(|i: int| ex(self, i) * n),
            r matches Ok(d) ==> dim_is(d, |i: int| ex(self, i) * n),
    {
        let ghost f = |i: int| ex(self, i) * n;
        let mut out: [i8; 7] = [0i8; 7];
        let mut i: usize = 0;
        while i < 7
            invariant
                i <= 7,
                out@.len() == 7,
                f == (|i: int| ex(self, i) * n),
                forall|k: int| 0 <= k < i ==> -128 <= #[trigger] f(k) <= 127,
                forall|k: int| 0 <= k < i ==> out@[k] as int == f(k),
            decreases 7 - i,
        {
            let a = self.0[i] as i16;
            assert(-128 <= a <= 127);
            assert(a as int * n as int <= 16384 && a as int * n as int >= -16384) by (nonlinear_arith)
                requires -128 <= a <= 127, -128 <= n <= 127;
            let p: i16 = a * (n as i16);
            assert(p == f(i as int));
            if p < -128 || p > 127 {
                return Err(OverflowError);
            }
            out[i] = p as i8;
            i = i + 1;
        }
        let d = Dimension(out);
        assert(dim_is(d, f));
        Ok(d)
    }

    fn pointwise(self, other: Dimension, add: bool) -> (r: Result<Dimension, OverflowError>)
        ensures
            add ==> (r is Ok <==> fits_i8(|i: int| ex(self, i) + ex(other, i))),
            add ==> (r matches Ok(d) ==> dim_is(d, |i: int| ex(self, i) + ex(other, i))),
            !add ==> (r is Ok <==> fits_i8(|i: int| ex(self, i) - ex(other, i))),
            !add ==> (r matches Ok(d) ==> dim_is(d, |i: int| ex(self, i) - ex(other, i))),
    {
        let ghost f = if add { |i: int| ex(self, i) + ex(other, i) } else { |i: int| ex(self, i) - ex(other, i) };
        let mut out: [i8; 7] = [0i8; 7];
        let mut i: usize = 0;
        while i < 7
            invariant
                i <= 7,
                out@.len() == 7,
                f == (if add { |i: int| ex(self, i) + ex(other, i) } else { |i: int| ex(self, i) - ex(other, i) }),
                forall|k: int| 0 <= k < i ==> -128 <= #[trigger] f(k) <= 127,
                forall|k: int| 0 <= k < i ==> out@[k] as int == f(k),
            decreases 7 - i,
        {
            let a = self.0[i] as i16;
            let b = other.0[i] as i16;
            let s: i16 = if add { a + b } else { a - b };
            assert(s == f(i as int));
            if s < -128 || s > 127 {
                return Err(OverflowError);
            }
            out[i] = s as i8;
            i = i + 1;
        }
        let d = Dimension(out);
        assert(dim_is(d, f));
        Ok(d)
    }
}

proof fn lemma_base_name_nonempty(i: int)
    ensures
        base_name_spec(i).len() > 0,
{
    reveal_strlit("m");
    reveal_strlit("kg");
    reveal_strlit("s");
    reveal_strlit("A");
    reveal_strlit("K");
    reveal_strlit("mol");
    reveal_strlit("cd");
}

proof fn lemma_si_join_step(d: Dimension, i: int)
    requires
        0 <= i < 7,
    ensures
        si_join(d, i + 1) == (if ex(d, i) == 0 {
            si_join(d, i)
        } else if si_join(d, i).len() == 0 {
            si_factor(d, i)
        } else {
            si_join(d, i) + seq!['*'] + si_factor(d, i)
        }),
{
}

/// The built-in unit registry: SI base units and eight derived units, each
/// mapped to its canonical base-form dimension.
pub open spec fn unit_dim(name: Seq<char>) -> Option<Dimension> {
    if name == "m"@ { Some(Dimension([1i8, 0i8, 0i8, 0i8, 0i8, 0i8, 0i8])) }
    else if name == "kg"@ { Some(Dimension([0i8, 1i8, 0i8, 0i8, 0i8, 0i8, 0i8])) }
    else if name == "s"@ { Some(Dimension([0i8, 0i8, 1i8, 0i8, 0i8, 0i8, 0i8])) }
    else if name == "A"@ { Some(Dimension([0i8, 0i8, 0i8, 1i8, 0i8, 0i8, 0i8])) }
    else if name == "K"@ { Some(Dimension([0i8, 0i8, 0i8, 0i8, 1i8, 0i8, 0i8])) }
    else if name == "mol"@ { Some(Dimension([0i8, 0i8, 0i8, 0i8, 0i8, 1i8, 0i8])) }
    else if name == "cd"@ { Some(Dimension([0i8, 0i8, 0i8, 0i8, 0i8, 0i8, 1i8])) }
    else if name == "N"@ { Some(Dimension([1i8, 1i8, -2i8, 0i8, 0i8, 0i8, 0i8])) }
    else if name == "J"@ { Some(Dimension([2i8, 1i8, -2i8, 0i8, 0i8, 0i8, 0i8])) }
    else if name == "W"@ { Some(Dimension([2i8, 1i8, -3i8, 0i8, 0i8, 0i8, 0i8])) }
    else if name == "Pa"@ { Some(Dimension([-1i8, 1i8, -2i8, 0i8, 0i8, 0i8, 0i8])) }
    else if name == "Hz"@ { Some(Dimension([0i8, 0i8, -1i8, 0i8, 0i8, 0i8, 0i8])) }
    else if name == "C"@ { Some(Dimension([0i8, 0i8, 1i8, 1i8, 0i8, 0i8, 0i8])) }
    else if name == "V"@ { Some(Dimension([2i8, 1i8, -3i8, -1i8, 0i8, 0i8, 0i8])) }
    else if name == "Ω"@ { Some(Dimension([2i8, 1i8, -3i8, -2i8, 0i8, 0i8, 0i8])) }
    else { None }
}

/// Static built-in unit registry.
pub struct UnitRegistry;

impl UnitRegistry {
    /// Look up a unit name; `None` for names outside the registry.
    pub fn lookup(name: &str) -> (r: Option<Dimension>)
        ensures
            r == unit_dim(name@),
    {
        if str_eq(name, "m") { Some(Dimension([1, 0, 0, 0, 0, 0, 0])) }
        else if str_eq(name, "kg") { Some(Dimension([0, 1, 0, 0, 0, 0, 0])) }
        else if str_eq(name, "s") { Some(Dimension([0, 0, 1, 0, 0, 0, 0])) }
        else if str_eq(name, "A") { Some(Dimension([0, 0, 0, 1, 0, 0, 0])) }
        else if str_eq(name, "K") { Some(Dimension([0, 0, 0, 0, 1, 0, 0])) }
        else if str_eq(name, "mol") { Some(Dimension([0, 0, 0, 0, 0, 1, 0])) }
        else if str_eq(name, "cd") { Some(Dimension([0, 0, 0, 0, 0, 0, 1])) }
        else if str_eq(name, "N") { Some(Dimension([1, 1, -2, 0, 0, 0, 0])) }
        else if str_eq(name, "J") { Some(Dimension([2, 1, -2, 0, 0, 0, 0])) }
        else if str_eq(name, "W") { Some(Dimension([2, 1, -3, 0, 0, 0, 0])) }
        else if str_eq(name, "Pa") { Some(Dimension([-1, 1, -2, 0, 0, 0, 0])) }
        else if str_eq(name, "Hz") { Some(Dimension([0, 0, -1, 0, 0, 0, 0])) }
        else if str_eq(name, "C") { Some(Dimension([0, 0, 1, 1, 0, 0, 0])) }
        else if str_eq(name, "V") { Some(Dimension([2, 1, -3, -1, 0, 0, 0])) }
        else if str_eq(name, "Ω") { Some(Dimension([2, 1, -3, -2, 0, 0, 0])) }
        else { None }
    }
}


/// The dimension whose components are `f(0), ..., f(6)` (meaningful when
/// every `f(i)` fits an `i8`).
pub open spec fn dim_of(f: spec_fn(int) -> int) -> Dimension {
    choose|d: Dimension| dim_is(d, f)
}

/// Value of a unit expression: atoms come from the registry, `*` and `/`
/// add and subtract exponents, `^n` multiplies them by `n`; `None` on an
/// unknown atom, an exponent outside `i8`, or a component leaving `i8`.
pub open spec fn unit_eval(u: UnitExpr) -> Option<Dimension>
    decreases u,
{
    match u.kind {
        UnitExprKind::Atom(name) => unit_dim(name@),
        UnitExprKind::Mul(a, b) => match (unit_eval(*a), unit_eval(*b)) {
            (Some(x), Some(y)) => {
                let f = |i: int| ex(x, i) + ex(y, i);
                if fits_i8(f) { Some(dim_of(f)) } else { None }
            },
            _ => None,
        },
        UnitExprKind::Div(a, b) => match (unit_eval(*a), unit_eval(*b)) {
            (Some(x), Some(y)) => {
                let f = |i: int| ex(x, i) - ex(y, i);
                if fits_i8(f) { Some(dim_of(f)) } else { None }
            },
            _ => None,
        },
        UnitExprKind::Pow(base, n) => {
            if n < -128 || n > 127 {
                None
            } else {
                match unit_eval(*base) {
                    Some(x) => {
                        let f = |i: int| ex(x, i) * n;
                        if fits_i8(f) { Some(dim_of(f)) } else { None }
                    },
                    None => None,
                }
            }
        },
    }
}

proof fn lemma_dim_of(d: Dimension, f: spec_fn(int) -> int)
    requires
        dim_is(d, f),
    ensures
        d == dim_of(f),
{
    let e = dim_of(f);
    assert(dim_is(e, f));
    assert forall|i: int| 0 <= i < 7 implies d.0[i] == e.0[i] by {
        assert(ex(d, i) == f(i));
        assert(ex(e, i) == f(i));
    }
    assert(d.0 =~= e.0);
}

/// The messages of a list of diagnostics, in order.
pub open spec fn msgs(ds: Seq<Diagnostic>) -> Seq<Seq<char>> {
    Seq::new(ds.len(), |i: int| ds[i].message@)
}

/// `ms` with `m` added at the end unless it is already there.
pub open spec fn add_unique(ms: Seq<Seq<char>>, m: Seq<char>) -> Seq<Seq<char>> {
    if ms.contains(m) { ms } else { ms.push(m) }
}

/// The message of a dimension overflow in a unit expression.
pub open spec fn overflow_msg() -> Seq<char> {
    "dimension component overflow in unit expression"@
}

/// The messages after evaluating `u` on top of `ms`: an unknown atom's
/// once per distinct atom, an exponent out of `i8` range, and an overflow
/// where the operands evaluated but their combination does not fit;
/// both operands of `*` and `/` are evaluated, left first.
pub open spec fn unit_msgs(u: UnitExpr, ms: Seq<Seq<char>>) -> Seq<Seq<char>>
    decreases u,
{
    match u.kind {
        UnitExprKind::Atom(name) => if unit_dim(name@) is Some {
            ms
        } else {
            add_unique(ms, "unknown unit `"@ + name@ + "`"@)
        },
        UnitExprKind::Mul(a, b) => {
            let m2 = unit_msgs(*b, unit_msgs(*a, ms));
            if unit_eval(*a) is Some && unit_eval(*b) is Some && unit_eval(u) is None { m2.push(overflow_msg()) } else { m2 }
        },
        UnitExprKind::Div(a, b) => {
            let m2 = unit_msgs(*b, unit_msgs(*a, ms));
            if unit_eval(*a) is Some && unit_eval(*b) is Some && unit_eval(u) is None { m2.push(overflow_msg()) } else { m2 }
        },
        UnitExprKind::Pow(base, n) => if n < -128 || n > 127 {
            ms.push("unit exponent "@ + int_digits(n as int) + " out of valid range [-128, 127]"@)
        } else {
            let m1 = unit_msgs(*base, ms);
            if unit_eval(*base) is Some && unit_eval(u) is None { m1.push(overflow_msg()) } else { m1 }
        },
    }
}

proof fn lemma_msgs_push(ds: Seq<Diagnostic>, d: Diagnostic)
    ensures
        msgs(ds.push(d)) == msgs(ds).push(d.message@),
{
    assert(msgs(ds.push(d)) =~= msgs(ds).push(d.message@));
}

/// Pushes `d` unless a diagnostic with the same message is already present.
fn push_unique(diags: &mut Vec<Diagnostic>, d: Diagnostic)
    requires
        d.phase == Phase::Sema,
        d.level == Level::Error,
    ensures
        appends_sema_errors(old(diags)@, final(diags)@),
        final(diags)@.len() <= old(diags)@.len() + 1,
        msgs(final(diags)@) == add_unique(msgs(old(diags)@), d.message@),
{
    let mut i: usize = 0;
    while i < diags.len()
        invariant
            i <= diags@.len(),
            forall|k: int| 0 <= k < i ==> diags@[k].message@ != d.message@,
        decreases diags@.len() - i,
    {
        if diags[i].message == d.message {
            proof {
                lemma_appends_refl(diags@);
                assert(msgs(diags@)[i as int] == d.message@);
            }
            return;
        }
        i = i + 1;
    }
    proof {
        if msgs(diags@).contains(d.message@) {
            let k = choose|k: int| 0 <= k < msgs(diags@).len() && msgs(diags@)[k] == d.message@;
            assert(diags@[k].message@ == d.message@);
        }
    }
    let ghost before = diags@;
    diags.push(d);
    proof { lemma_appends_refl(before); lemma_appends_push(before, before, d); lemma_msgs_push(before, d); }
}

/// Evaluate a unit expression to a `Dimension`. Unknown atoms (reported once
/// per distinct message), exponents outside `i8`, and component overflow
/// each push a diagnostic and yield `Err(())`. Both operands of `*` and `/`
/// are evaluated before an error is propagated, so every unknown atom of a
/// compound annotation is reported.
pub fn eval_unit_expr(u: &UnitExpr, diags: &mut Vec<Diagnostic>) -> (r: Result<Dimension, ()>)
    ensures
        r matches Ok(d) ==> unit_eval(*u) == Some(d),
        r is Err ==> unit_eval(*u) is None,
        appends_sema_errors(old(diags)@, final(diags)@),
        r is Ok ==> final(diags)@ == old(diags)@,
        msgs(final(diags)@) == unit_msgs(*u, msgs(old(diags)@)),
    decreases u,
{
    proof { lemma_appends_refl(old(diags)@); }
    match &u.kind {
        UnitExprKind::Atom(name) => match UnitRegistry::lookup(name.as_str()) {
            Some(dim) => Ok(dim),
            None => {
                let d = crate::sema::diag::unknown_unit(u.span, name.as_str());
                push_unique(diags, d);
                Err(())
            },
        },
        UnitExprKind::Mul(a, b) => {
            let ghost d0 = diags@;
            let l = eval_unit_expr(a, diags);
            let ghost d1 = diags@;
            let r = eval_unit_expr(b, diags);
            proof { lemma_appends_trans(d0, d1, diags@); }
            match (l, r) {
                (Ok(x), Ok(y)) => match x.mul(y) {
                    Ok(d) => {
                        assert(diags@ == d0);
                        proof { lemma_dim_of(d, |i: int| ex(x, i) + ex(y, i)); }
                        Ok(d)
                    },
                    Err(_) => {
                        let ghost before_emit = diags@;
                        let dd = crate::sema::diag::dimension_overflow(u.span);
                        emit(diags, dd);
                        proof { lemma_msgs_push(before_emit, dd); }
                        proof { lemma_appends_trans(old(diags)@, d1, diags@); }
                        Err(())
                    },
                },
                _ => Err(()),
            }
        },
        UnitExprKind::Div(a, b) => {
            let ghost d0 = diags@;
            let l = eval_unit_expr(a, diags);
            let ghost d1 = diags@;
            let r = eval_unit_expr(b, diags);
            proof { lemma_appends_trans(d0, d1, diags@); }
            match (l, r) {
                (Ok(x), Ok(y)) => match x.div(y) {
                    Ok(d) => {
                        proof { lemma_dim_of(d, |i: int| ex(x, i) - ex(y, i)); }
                        Ok(d)
                    },
                    Err(_) => {
                        let ghost before_emit = diags@;
                        let dd = crate::sema::diag::dimension_overflow(u.span);
                        emit(diags, dd);
                        proof { lemma_msgs_push(before_emit, dd); }
                        proof { lemma_appends_trans(old(diags)@, d1, diags@); }
                        Err(())
                    },
                },
                _ => Err(()),
            }
        },
        UnitExprKind::Pow(base, n) => {
            if *n < -128 || *n > 127 {
                let ghost before_emit = diags@;
                let dd = crate::sema::diag::unit_exponent_out_of_range(u.span, *n);
                emit(diags, dd);
                proof { lemma_msgs_push(before_emit, dd); }
                return Err(());
            }
            let exp = *n as i8;
            let ghost d0 = diags@;
            let res = eval_unit_expr(base, diags);
            let ghost d1 = diags@;
            match res {
                Ok(x) => match x.pow(exp) {
                    Ok(d) => {
                        proof { lemma_dim_of(d, |i: int| ex(x, i) * exp); }
                        Ok(d)
                    },
                    Err(_) => {
                        let ghost before_emit = diags@;
                        let dd = crate::sema::diag::dimension_overflow(u.span);
                        emit(diags, dd);
                        proof { lemma_msgs_push(before_emit, dd); }
                        proof { lemma_appends_trans(old(diags)@, d1, diags@); }
                        Err(())
                    },
                },
                Err(()) => Err(()),
            }
        },
    }
}


/// Product of two dimensions (exponents added); `None` on overflow.
pub open spec fn mul_spec(x: Dimension, y: Dimension) -> Option<Dimension> {
    let f = |i: int| ex(x, i) + ex(y, i);
    if fits_i8(f) { Some(dim_of(f)) } else { None }
}

/// Quotient of two dimensions (exponents subtracted); `None` on overflow.
pub open spec fn div_spec(x: Dimension, y: Dimension) -> Option<Dimension> {
    let f = |i: int| ex(x, i) - ex(y, i);
    if fits_i8(f) { Some(dim_of(f)) } else { None }
}

/// Power of a dimension (exponents multiplied); `None` on overflow.
pub open spec fn pow_spec(x: Dimension, n: i8) -> Option<Dimension> {
    let f = |i: int| ex(x, i) * n;
    if fits_i8(f) { Some(dim_of(f)) } else { None }
}

pub fn mul_dims(x: Dimension, y: Dimension) -> (r: Option<Dimension>)
    ensures
        r == mul_spec(x, y),
{
    match x.mul(y) {
        Ok(d) => {
            proof { lemma_dim_of(d, |i: int| ex(x, i) + ex(y, i)); }
            Some(d)
        },
        Err(_) => None,
    }
}

pub fn div_dims(x: Dimension, y: Dimension) -> (r: Option<Dimension>)
    ensures
        r == div_spec(x, y),
{
    match x.div(y) {
        Ok(d) => {
            proof { lemma_dim_of(d, |i: int| ex(x, i) - ex(y, i)); }
            Some(d)
        },
        Err(_) => None,
    }
}

pub fn pow_dims(x: Dimension, n: i8) -> (r: Option<Dimension>)
    ensures
        r == pow_spec(x, n),
{
    match x.pow(n) {
        Ok(d) => {
            proof { lemma_dim_of(d, |i: int| ex(x, i) * n); }
            Some(d)
        },
        Err(_) => None,
    }
}

/// Multiplying dimensions does not depend on the order of the operands.
pub proof fn lemma_mul_commutes(x: Dimension, y: Dimension)
    ensures
        mul_spec(x, y) == mul_spec(y, x),
{
    let f = |i: int| ex(x, i) + ex(y, i);
    let g = |i: int| ex(y, i) + ex(x, i);
    assert(f =~= g);
}

/// Dividing a dimension by itself gives the dimensionless vector.
pub proof fn lemma_div_self(x: Dimension)
    ensures
        div_spec(x, x) matches Some(d) && is_zero_dim(d),
{
    let f = |i: int| ex(x, i) - ex(x, i);
    assert(fits_i8(f));
    let d = Dimension([0i8, 0i8, 0i8, 0i8, 0i8, 0i8, 0i8]);
    assert(dim_is(d, f));
    lemma_dim_of(d, f);
}

/// The all-zero vector is what `Dimension::zero_spec` picks.
pub proof fn lemma_zero_spec_is_zero()
    ensures
        is_zero_dim(Dimension::zero_spec()),
{
    let z = Dimension([0i8, 0i8, 0i8, 0i8, 0i8, 0i8, 0i8]);
    assert(is_zero_dim(z));
}

/// Exponents that all fit an `i8` make up a dimension.
proof fn lemma_dim_of_fits(f: spec_fn(int) -> int)
    requires
        fits_i8(f),
    ensures
        dim_is(dim_of(f), f),
{
    let d = Dimension([f(0) as i8, f(1) as i8, f(2) as i8, f(3) as i8, f(4) as i8, f(5) as i8, f(6) as i8]);
    assert(-128 <= f(0) <= 127 && -128 <= f(1) <= 127 && -128 <= f(2) <= 127 && -128 <= f(3) <= 127);
    assert(-128 <= f(4) <= 127 && -128 <= f(5) <= 127 && -128 <= f(6) <= 127);
    assert(dim_is(d, f));
}

/// The dimensionless vector is the unit of multiplication and division.
pub proof fn lemma_mul_div_zero(x: Dimension)
    ensures
        mul_spec(x, Dimension::zero_spec()) == Some(x),
        div_spec(x, Dimension::zero_spec()) == Some(x),
{
    lemma_zero_spec_is_zero();
    let z = Dimension::zero_spec();
    let f = |i: int| ex(x, i) + ex(z, i);
    let g = |i: int| ex(x, i) - ex(z, i);
    assert(dim_is(x, f));
    assert(dim_is(x, g));
    lemma_dim_of(x, f);
    lemma_dim_of(x, g);
}

/// Dividing a product by one of its factors gives back the other.
pub proof fn lemma_mul_then_div(x: Dimension, y: Dimension)
    requires
        mul_spec(x, y) is Some,
    ensures
        div_spec(mul_spec(x, y)->0, y) == Some(x),
{
    let f = |i: int| ex(x, i) + ex(y, i);
    lemma_dim_of_fits(f);
    let z = mul_spec(x, y)->0;
    let g = |i: int| ex(z, i) - ex(y, i);
    assert(dim_is(x, g));
    lemma_dim_of(x, g);
}

/// The first power of a dimension is itself, the zeroth the dimensionless
/// vector, and the square its product with itself.
pub proof fn lemma_pow_small(x: Dimension)
    ensures
        pow_spec(x, 1) == Some(x),
        pow_spec(x, 0) == Some(Dimension::zero_spec()),
        pow_spec(x, 2) == mul_spec(x, x),
{
    let f1 = |i: int| ex(x, i) * 1i8;
    assert(dim_is(x, f1));
    lemma_dim_of(x, f1);
    let f0 = |i: int| ex(x, i) * 0i8;
    lemma_zero_spec_is_zero();
    assert(dim_is(Dimension::zero_spec(), f0));
    lemma_dim_of(Dimension::zero_spec(), f0);
    let f2 = |i: int| ex(x, i) * 2i8;
    let g2 = |i: int| ex(x, i) + ex(x, i);
    assert(f2 =~= g2);
}
} // verus!
