//! Unification table for type variables.
//!
//! A vector of optional bindings indexed by `TypeVarId`. Binding only ever
//! happens to an unbound variable, and a bound variable never changes.

use vstd::prelude::*;
use crate::sema::ty::{
    clone_tys, lemma_tys_view_index, lemma_tys_view_len, lemma_tys_view_pointwise, tys_view, Ty,
    TyV, TypeVarId,
};

verus! {

broadcast use vstd::std_specs::vec::group_vec_axioms;

/// Upper bound on the nesting depth that `resolve_deep` and `unify` walk.
pub const DEPTH_LIMIT: usize = 1000;

pub open spec fn opt_view(o: Option<Ty>) -> Option<TyV> {
    match o {
        Some(t) => Some(t@),
        None => None,
    }
}

/// Follow a chain of bound variables for at most `fuel` steps.
pub open spec fn resolve_spec(cells: Seq<Option<TyV>>, t: TyV, fuel: nat) -> TyV
    decreases fuel,
{
    if fuel == 0 {
        t
    } else {
        match t {
            TyV::Var(v) => if v < cells.len() && cells[v as int] is Some {
                resolve_spec(cells, cells[v as int]->0, (fuel - 1) as nat)
            } else {
                t
            },
            _ => t,
        }
    }
}

/// Replace bound variables everywhere inside `t`, down to depth `fuel`.
pub open spec fn resolve_deep_spec(cells: Seq<Option<TyV>>, t: TyV, fuel: nat) -> TyV
    decreases 2 * fuel + 1,
{
    if fuel == 0 {
        t
    } else {
        let head = resolve_spec(cells, t, (cells.len() + 1) as nat);
        match head {
            TyV::Function(args, ret) => TyV::Function(
                deep_all(cells, args, (fuel - 1) as nat),
                Box::new(resolve_deep_spec(cells, *ret, (fuel - 1) as nat)),
            ),
            TyV::Enum(d, args) => TyV::Enum(d, deep_all(cells, args, (fuel - 1) as nat)),
            TyV::Array(e) => TyV::Array(Box::new(resolve_deep_spec(cells, *e, (fuel - 1) as nat))),
            TyV::Dict(k, v) => TyV::Dict(
                Box::new(resolve_deep_spec(cells, *k, (fuel - 1) as nat)),
                Box::new(resolve_deep_spec(cells, *v, (fuel - 1) as nat)),
            ),
            _ => head,
        }
    }
}

/// A type variable occurs somewhere in `t`.
pub open spec fn has_var(t: TyV) -> bool
    decreases t,
{
    match t {
        TyV::Var(_) => true,
        TyV::Array(e) => has_var(*e),
        TyV::Dict(k, v) => has_var(*k) || has_var(*v),
        TyV::Function(args, ret) => any_var(args) || has_var(*ret),
        TyV::Enum(_, args) => any_var(args),
        _ => false,
    }
}

/// A type variable occurs in one of `ts`.
pub open spec fn any_var(ts: Seq<TyV>) -> bool
    decreases ts,
{
    if ts.len() == 0 {
        false
    } else {
        any_var(ts.subrange(0, ts.len() - 1)) || has_var(ts[ts.len() - 1])
    }
}

/// Whether a type variable occurs in `t`.
pub fn ty_has_var(t: &Ty) -> (r: bool)
    ensures
        r == has_var(t@),
    decreases t, 0nat,
{
    match t {
        Ty::Var(v) => {
            assert(t@ == TyV::Var(v.0));
            true
        },
        Ty::Array(e) => {
            assert(t@ == TyV::Array(Box::new(e@)));
            ty_has_var(e)
        },
        Ty::Dict(k, v) => {
            assert(t@ == TyV::Dict(Box::new(k@), Box::new(v@)));
            ty_has_var(k) || ty_has_var(v)
        },
        Ty::Function(args, ret) => {
            proof { lemma_tys_view_len(args@); }
            assert(t@ == TyV::Function(tys_view(args@), Box::new(ret@)));
            assert(tys_view(args@).subrange(0, args@.len() as int) =~= tys_view(args@));
            tys_have_var(args, args.len()) || ty_has_var(ret)
        },
        Ty::Enum(d, args) => {
            proof { lemma_tys_view_len(args@); }
            assert(t@ == TyV::Enum(*d, tys_view(args@)));
            assert(tys_view(args@).subrange(0, args@.len() as int) =~= tys_view(args@));
            tys_have_var(args, args.len())
        },
        _ => false,
    }
}

/// Whether a type variable occurs in one of the first `n` of `ts`.
fn tys_have_var(ts: &Vec<Ty>, n: usize) -> (r: bool)
    requires
        n <= ts@.len(),
    ensures
        r == any_var(tys_view(ts@).subrange(0, n as int)),
    decreases ts, n,
{
    proof { lemma_tys_view_len(ts@); }
    let ghost s = tys_view(ts@).subrange(0, n as int);
    if n == 0 {
        return false;
    }
    proof {
        assert(s.subrange(0, s.len() - 1) =~= tys_view(ts@).subrange(0, n - 1));
        lemma_tys_view_index(ts@, n - 1);
    }
    if tys_have_var(ts, n - 1) {
        return true;
    }
    ty_has_var(&ts[n - 1])
}

/// `resolve_deep_spec` applied to each element.
pub open spec fn deep_all(cells: Seq<Option<TyV>>, ts: Seq<TyV>, fuel: nat) -> Seq<TyV>
    decreases 2 * fuel + 2,
{
    Seq::new(ts.len(), |i: int| if 0 <= i < ts.len() { resolve_deep_spec(cells, ts[i], fuel) } else { TyV::Error })
}

/// A type with no children that unification could descend into.
pub open spec fn is_leaf(t: TyV) -> bool {
    !(t is Function || t is Enum || t is Array || t is Dict || t is Var || t is Param || t is Error)
}

/// Two resolved heads that unification descends into pairwise.
pub open spec fn same_shape(a: TyV, b: TyV) -> bool {
    match (a, b) {
        (TyV::Function(x, _), TyV::Function(y, _)) => x.len() == y.len(),
        (TyV::Enum(d, x), TyV::Enum(e, y)) => d == e && x.len() == y.len(),
        (TyV::Array(_), TyV::Array(_)) => true,
        (TyV::Dict(_, _), TyV::Dict(_, _)) => true,
        _ => false,
    }
}

pub open spec fn res_view(r: Result<(), (Ty, Ty)>) -> Result<(), (TyV, TyV)> {
    match r {
        Ok(()) => Ok(()),
        Err((x, y)) => Err((x@, y@)),
    }
}

/// What `unify(a, b)` does, decided by the resolved heads of `a` and `b`:
/// the table only ever gains bindings; an `Error` side succeeds; a `Param`
/// side fails; an unbound variable is bound to the other side; equal
/// leaves succeed; differing heads fail with both resolved types.
pub open spec fn unify_post(
    c0: Seq<Option<TyV>>,
    a: TyV,
    b: TyV,
    c1: Seq<Option<TyV>>,
    r: Result<(), (TyV, TyV)>,
) -> bool {
    let ra = resolve_spec(c0, a, (c0.len() + 1) as nat);
    let rb = resolve_spec(c0, b, (c0.len() + 1) as nat);
    let neither_special = !(ra is Error || rb is Error || ra is Param || rb is Param || ra is Var || rb is Var);
    &&& extends(c0, c1)
    &&& (ra is Error || rb is Error) ==> r is Ok && c1 == c0
    &&& (!(ra is Error || rb is Error) && (ra is Param || rb is Param)) ==> r == Err::<(), (TyV, TyV)>((ra, rb)) && c1 == c0
    &&& (ra is Var && rb is Var && ra == rb) ==> r is Ok && c1 == c0
    &&& (ra is Var && ra->Var_0 < c0.len() && c0[ra->Var_0 as int] is None && !(rb is Error || rb is Param) && ra != rb)
            ==> r is Ok && c1 == c0.update(ra->Var_0 as int, Some(rb))
    &&& (rb is Var && rb->Var_0 < c0.len() && c0[rb->Var_0 as int] is None && !(ra is Error || ra is Param || ra is Var))
            ==> r is Ok && c1 == c0.update(rb->Var_0 as int, Some(ra))
    &&& (is_leaf(ra) && is_leaf(rb) && ra == rb) ==> r is Ok && c1 == c0
    &&& ((is_leaf(ra) || is_leaf(rb)) && neither_special && ra != rb) ==> r == Err::<(), (TyV, TyV)>((ra, rb)) && c1 == c0
    &&& (!is_leaf(ra) && !is_leaf(rb) && neither_special && !same_shape(ra, rb)) ==> r == Err::<(), (TyV, TyV)>((ra, rb)) && c1 == c0
}

pub proof fn lemma_extends_trans(a: Seq<Option<TyV>>, b: Seq<Option<TyV>>, c: Seq<Option<TyV>>)
    requires
        extends(a, b),
        extends(b, c),
    ensures
        extends(a, c),
{
    assert forall|v: int| 0 <= v < a.len() && a[v] is Some implies #[trigger] c[v] == a[v] by {
        assert(b[v] == a[v]);
    }
}

/// Every binding of `old` is still present, unchanged, in `new`.
pub open spec fn extends(old: Seq<Option<TyV>>, new: Seq<Option<TyV>>) -> bool {
    &&& new.len() == old.len()
    &&& forall|v: int| 0 <= v < old.len() && old[v] is Some ==> #[trigger] new[v] == old[v]
}

pub struct Table {
    cells: Vec<Option<Ty>>,
}

impl Table {
    /// Bindings of the variables, by index.
    pub closed spec fn cells(self) -> Seq<Option<TyV>> {
        Seq::new(self.cells@.len(), |i: int| opt_view(self.cells@[i]))
    }

    pub fn new() -> (r: Table)
        ensures
            r.cells().len() == 0,
    {
        Table { cells: Vec::new() }
    }

    /// A fresh unbound variable, numbered by the table's size.
    pub fn fresh(&mut self) -> (r: TypeVarId)
        ensures
            r.0 == old(self).cells().len() as u32,
            final(self).cells() == old(self).cells().push(None),
    {
        let id = TypeVarId(self.cells.len() as u32);
        self.cells.push(None);
        assert(self.cells() =~= old(self).cells().push(None));
        id
    }

    /// Follow `Var` bindings from `ty` until an unbound variable or a
    /// non-variable type is reached.
    pub fn resolve(&self, ty: &Ty) -> (r: Ty)
        ensures
            r@ == resolve_spec(self.cells(), ty@, (self.cells().len() + 1) as nat),
    {
        let mut cur = ty.dup();
        let bound = self.cells.len();
        let mut f: usize = bound;
        loop
            invariant
                bound == self.cells@.len(),
                f <= bound,
                resolve_spec(self.cells(), cur@, (f + 1) as nat)
                    == resolve_spec(self.cells(), ty@, (bound + 1) as nat),
            decreases f,
        {
            match &cur {
                Ty::Var(v) => {
                    let idx = v.0 as usize;
                    if idx < self.cells.len() {
                        match &self.cells[idx] {
                            Some(t) => {
                                let next = t.dup();
                                assert(self.cells()[idx as int] == opt_view(self.cells@[idx as int]));
                                cur = next;
                                if f == 0 {
                                    proof { reveal_with_fuel(resolve_spec, 2); }
                                    return cur;
                                }
                                f = f - 1;
                            },
                            None => {
                                return cur;
                            },
                        }
                    } else {
                        return cur;
                    }
                },
                _ => {
                    return cur;
                },
            }
        }
    }

    /// `ty` with every bound variable replaced, recursively.
    pub fn resolve_deep(&self, ty: &Ty) -> (r: Ty)
        ensures
            r@ == resolve_deep_spec(self.cells(), ty@, DEPTH_LIMIT as nat),
    {
        self.resolve_deep_fuel(ty, DEPTH_LIMIT)
    }

    fn resolve_deep_fuel(&self, ty: &Ty, fuel: usize) -> (r: Ty)
        ensures
            r@ == resolve_deep_spec(self.cells(), ty@, fuel as nat),
        decreases 2 * fuel + 1,
    {
        if fuel == 0 {
            return ty.dup();
        }
        let head = self.resolve(ty);
        let ghost hv = head@;
        match head {
            Ty::Function(args, ret) => {
                let new_args = self.resolve_all(&args, fuel - 1);
                let new_ret = self.resolve_deep_fuel(&ret, fuel - 1);
                let r = Ty::Function(new_args, Box::new(new_ret));
                proof {
                    lemma_tys_view_len(args@);
                    let sv = deep_all(self.cells(), tys_view(args@), (fuel - 1) as nat);
                    assert forall|i: int| 0 <= i < args@.len() implies tys_view(new_args@)[i] == sv[i] by {
                        lemma_tys_view_index(args@, i);
                    }
                    lemma_tys_view_len(new_args@);
                    assert(tys_view(new_args@) =~= sv);
                }
                r
            },
            Ty::Enum(d, args) => {
                let new_args = self.resolve_all(&args, fuel - 1);
                let r = Ty::Enum(d, new_args);
                proof {
                    lemma_tys_view_len(args@);
                    let sv = deep_all(self.cells(), tys_view(args@), (fuel - 1) as nat);
                    assert forall|i: int| 0 <= i < args@.len() implies tys_view(new_args@)[i] == sv[i] by {
                        lemma_tys_view_index(args@, i);
                    }
                    lemma_tys_view_len(new_args@);
                    assert(tys_view(new_args@) =~= sv);
                }
                r
            },
            Ty::Array(t) => Ty::Array(Box::new(self.resolve_deep_fuel(&t, fuel - 1))),
            Ty::Dict(k, v) => Ty::Dict(
                Box::new(self.resolve_deep_fuel(&k, fuel - 1)),
                Box::new(self.resolve_deep_fuel(&v, fuel - 1)),
            ),
            other => other,
        }
    }

    /// Unify `a` with `b`, binding unbound variables as needed. On failure
    /// the conflicting resolved types are returned.
    pub fn unify(&mut self, a: &Ty, b: &Ty) -> (r: Result<(), (Ty, Ty)>)
        ensures
            unify_post(old(self).cells(), a@, b@, final(self).cells(), res_view(r)),
    {
        self.unify_fuel(a, b, DEPTH_LIMIT)
    }

    fn unify_fuel(&mut self, a: &Ty, b: &Ty, fuel: usize) -> (r: Result<(), (Ty, Ty)>)
        ensures
            unify_post(old(self).cells(), a@, b@, final(self).cells(), res_view(r)),
        decreases fuel,
    {
        let ra = self.resolve(a);
        let rb = self.resolve(b);
        let ghost c0 = self.cells();
        if matches!(ra, Ty::Error) || matches!(rb, Ty::Error) {
            return Ok(());
        }
        if matches!(ra, Ty::Param(_)) || matches!(rb, Ty::Param(_)) {
            return Err((ra, rb));
        }
        if let Ty::Var(v) = &ra {
            if let Ty::Var(w) = &rb {
                if v.0 == w.0 {
                    return Ok(());
                }
            }
            let idx = v.0 as usize;
            if idx < self.cells.len() && self.cells[idx].is_none() {
                self.cells.set(idx, Some(rb));
                proof {
                    assert(self.cells() =~= c0.update(idx as int, Some(rb@)));
                }
                return Ok(());
            }
            return Err((ra, rb));
        }
        if let Ty::Var(w) = &rb {
            let idx = w.0 as usize;
            if idx < self.cells.len() && self.cells[idx].is_none() {
                self.cells.set(idx, Some(ra));
                proof {
                    assert(self.cells() =~= c0.update(idx as int, Some(ra@)));
                }
                return Ok(());
            }
            return Err((ra, rb));
        }
        if fuel == 0 {
            if ra.same(&rb) {
                return Ok(());
            }
            return Err((ra, rb));
        }
        match (&ra, &rb) {
            (Ty::Function(xa, ya), Ty::Function(xb, yb)) => {
                if xa.len() == xb.len() {
                    proof { lemma_tys_view_len(xa@); lemma_tys_view_len(xb@); }
                    let mut i: usize = 0;
                    while i < xa.len()
                        invariant
                            xa@.len() == xb@.len(),
                            i <= xa@.len(),
                            fuel > 0,
                            extends(c0, self.cells()),
                            c0 == old(self).cells(),
                            ra@ == resolve_spec(c0, a@, (c0.len() + 1) as nat),
                            rb@ == resolve_spec(c0, b@, (c0.len() + 1) as nat),
                            ra@ is Function,
                            rb@ is Function,
                            same_shape(ra@, rb@),
                        decreases xa@.len() - i,
                    {
                        let ghost before = self.cells();
                        let res = self.unify_fuel(&xa[i], &xb[i], fuel - 1);
                        proof { lemma_extends_trans(c0, before, self.cells()); }
                        if res.is_err() {
                            return res;
                        }
                        i = i + 1;
                    }
                    let ghost before = self.cells();
                    let res = self.unify_fuel(ya, yb, fuel - 1);
                    proof { lemma_extends_trans(c0, before, self.cells()); }
                    return res;
                }
                proof { lemma_tys_view_len(xa@); lemma_tys_view_len(xb@); }
                return Err((ra, rb));
            },
            (Ty::Enum(da, xa), Ty::Enum(db, xb)) => {
                proof { lemma_tys_view_len(xa@); lemma_tys_view_len(xb@); }
                if da.0 == db.0 && xa.len() == xb.len() {
                    let mut i: usize = 0;
                    while i < xa.len()
                        invariant
                            xa@.len() == xb@.len(),
                            i <= xa@.len(),
                            fuel > 0,
                            extends(c0, self.cells()),
                            c0 == old(self).cells(),
                            ra@ == resolve_spec(c0, a@, (c0.len() + 1) as nat),
                            rb@ == resolve_spec(c0, b@, (c0.len() + 1) as nat),
                            ra@ is Enum,
                            rb@ is Enum,
                            same_shape(ra@, rb@),
                        decreases xa@.len() - i,
                    {
                        let ghost before = self.cells();
                        let res = self.unify_fuel(&xa[i], &xb[i], fuel - 1);
                        proof { lemma_extends_trans(c0, before, self.cells()); }
                        if res.is_err() {
                            return res;
                        }
                        i = i + 1;
                    }
                    return Ok(());
                }
                return Err((ra, rb));
            },
            (Ty::Array(ta), Ty::Array(tb)) => {
                return self.unify_fuel(ta, tb, fuel - 1);
            },
            (Ty::Dict(ka, va), Ty::Dict(kb, vb)) => {
                let res = self.unify_fuel(ka, kb, fuel - 1);
                if res.is_err() {
                    return res;
                }
                let ghost before = self.cells();
                let res2 = self.unify_fuel(va, vb, fuel - 1);
                proof { lemma_extends_trans(c0, before, self.cells()); }
                return res2;
            },
            _ => {
                if ra.same(&rb) {
                    return Ok(());
                }
                return Err((ra, rb));
            },
        }
    }

    /// The resolved type of `ty`, or the unsolved variable it ends at.
    pub fn assert_resolved(&self, ty: &Ty) -> (r: Result<Ty, TypeVarId>)
        ensures
            ({
                let t = resolve_spec(self.cells(), ty@, (self.cells().len() + 1) as nat);
                match r {
                    Ok(x) => x@ == t && !(t is Var),
                    Err(v) => t == TyV::Var(v.0),
                }
            }),
    {
        let t = self.resolve(ty);
        match t {
            Ty::Var(v) => Err(v),
            other => Ok(other),
        }
    }

    fn resolve_all(&self, ts: &Vec<Ty>, fuel: usize) -> (r: Vec<Ty>)
        ensures
            r@.len() == ts@.len(),
            forall|i: int| 0 <= i < ts@.len() ==> (#[trigger] r@[i])@ == resolve_deep_spec(self.cells(), ts@[i]@, fuel as nat),
            tys_view(r@).len() == ts@.len(),
            forall|i: int| 0 <= i < ts@.len() ==> #[trigger] tys_view(r@)[i] == resolve_deep_spec(self.cells(), ts@[i]@, fuel as nat),
        decreases 2 * fuel + 2,
    {
        let mut out: Vec<Ty> = Vec::new();
        let mut i: usize = 0;
        while i < ts.len()
            invariant
                i <= ts@.len(),
                out@.len() == i,
                forall|k: int| 0 <= k < i ==> (#[trigger] out@[k])@ == resolve_deep_spec(self.cells(), ts@[k]@, fuel as nat),
            decreases ts@.len() - i,
        {
            out.push(self.resolve_deep_fuel(&ts[i], fuel));
            i = i + 1;
        }
        proof {
            lemma_tys_view_len(out@);
            assert forall|k: int| 0 <= k < ts@.len() implies #[trigger] tys_view(out@)[k] == resolve_deep_spec(self.cells(), ts@[k]@, fuel as nat) by {
                lemma_tys_view_index(out@, k);
            }
        }
        out
    }
}

} // verus!
