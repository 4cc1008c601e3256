//! Type representation for the sema phase.

use vstd::prelude::*;
use crate::ast::{Type, TypeArg, TypeKind, UnitExpr, UnitExprKind};
use crate::diag::{appends_sema_errors, emit, lemma_appends_refl, lemma_appends_trans, Diagnostic};
use crate::ids::DefId;
use crate::sema::dimension::{eval_unit_expr, unit_dim, unit_eval, Dimension};
use crate::sema::resolve::{DefKind, DefinitionTable, ResolveTable};
use crate::text::{nat_digits, push_str, str_eq, string_of};
use crate::sema::diag::sema_error;

verus! {

broadcast use vstd::std_specs::vec::group_vec_axioms;

/// Internal type representation.
#[derive(Debug, PartialEq, Eq)]
pub enum Ty {
    Int,
    Scalar(Dimension),
    Bool,
    String,
    /// `Vec<N, unit>`: fixed length N, element unit.
    Vec(usize, Dimension),
    /// `Mat<M, N>`: rows by cols, always dimensionless.
    Mat(usize, usize),
    Array(Box<Ty>),
    Dict(Box<Ty>, Box<Ty>),
    /// Parameter types and return type.
    Function(Vec<Ty>, Box<Ty>),
    /// User-defined struct.
    Struct(DefId),
    /// User-defined enum with its (instantiated) type arguments.
    Enum(DefId, Vec<Ty>),
    /// Unification variable.
    Var(TypeVarId),
    /// Type-parameter sentinel, indexed by position in the parent
    /// definition's type-parameter list; only stored in schemas.
    Param(usize),
    /// Sentinel for nodes whose type could not be determined because of an
    /// earlier diagnostic; compatible with any type.
    Error,
}

/// Index into a unification table.
#[derive(Clone, Copy, Debug, PartialEq, Eq, Hash, PartialOrd, Ord, Structural)]
pub struct TypeVarId(pub u32);

/// Parent enum and lowered payload types of an enum variant.
#[derive(Debug, PartialEq, Eq)]
pub struct VariantPayload {
    pub parent_enum: DefId,
    pub payload: Vec<Ty>,
}

/// The mathematical value of a `Ty`: the same tree with sequences in place
/// of vectors.
pub ghost enum TyV {
    Int,
    Scalar(Dimension),
    Bool,
    Str,
    Vec(usize, Dimension),
    Mat(usize, usize),
    Array(Box<TyV>),
    Dict(Box<TyV>, Box<TyV>),
    Function(Seq<TyV>, Box<TyV>),
    Struct(DefId),
    Enum(DefId, Seq<TyV>),
    Var(u32),
    Param(usize),
    Error,
}

/// Pointwise view of a sequence of types.
pub open spec fn tys_view(ts: Seq<Ty>) -> Seq<TyV>
    decreases ts,
{
    if ts.len() == 0 {
        Seq::empty()
    } else {
        tys_view(ts.drop_last()).push(ts.last().view_ty())
    }
}

impl Ty {
    pub open spec fn view_ty(&self) -> TyV
        decreases self,
    {
        match self {
            Ty::Int => TyV::Int,
            Ty::Scalar(d) => TyV::Scalar(*d),
            Ty::Bool => TyV::Bool,
            Ty::String => TyV::Str,
            Ty::Vec(n, d) => TyV::Vec(*n, *d),
            Ty::Mat(m, n) => TyV::Mat(*m, *n),
            Ty::Array(t) => TyV::Array(Box::new(t.view_ty())),
            Ty::Dict(k, v) => TyV::Dict(Box::new(k.view_ty()), Box::new(v.view_ty())),
            Ty::Function(args, ret) => TyV::Function(tys_view(args@), Box::new(ret.view_ty())),
            Ty::Struct(id) => TyV::Struct(*id),
            Ty::Enum(id, args) => TyV::Enum(*id, tys_view(args@)),
            Ty::Var(v) => TyV::Var(v.0),
            Ty::Param(i) => TyV::Param(*i),
            Ty::Error => TyV::Error,
        }
    }
}

impl View for Ty {
    type V = TyV;

    open spec fn view(&self) -> TyV {
        self.view_ty()
    }
}

pub proof fn lemma_tys_view_len(ts: Seq<Ty>)
    ensures
        tys_view(ts).len() == ts.len(),
    decreases ts.len(),
{
    if ts.len() > 0 {
        lemma_tys_view_len(ts.drop_last());
    }
}

pub proof fn lemma_tys_view_index(ts: Seq<Ty>, i: int)
    requires
        0 <= i < ts.len(),
    ensures
        tys_view(ts).len() == ts.len(),
        tys_view(ts)[i] == ts[i]@,
    decreases ts.len(),
{
    lemma_tys_view_len(ts);
    if i < ts.len() - 1 {
        lemma_tys_view_index(ts.drop_last(), i);
    }
}

/// `tys_view` agrees with the pointwise view.
pub proof fn lemma_tys_view_pointwise(ts: Seq<Ty>, vs: Seq<TyV>)
    requires
        ts.len() == vs.len(),
        forall|i: int| 0 <= i < ts.len() ==> vs[i] == (#[trigger] ts[i])@,
    ensures
        tys_view(ts) == vs,
{
    lemma_tys_view_len(ts);
    assert forall|i: int| 0 <= i < ts.len() implies tys_view(ts)[i] == vs[i] by {
        lemma_tys_view_index(ts, i);
    }
    assert(tys_view(ts) =~= vs);
}

/// Substitute `Param(i)` with `args[i]` (`Error` when `i` is out of range).
pub open spec fn subst_spec(t: TyV, args: Seq<TyV>) -> TyV
    decreases t,
{
    match t {
        TyV::Param(i) => if i < args.len() { args[i as int] } else { TyV::Error },
        TyV::Array(e) => TyV::Array(Box::new(subst_spec(*e, args))),
        TyV::Dict(k, v) => TyV::Dict(Box::new(subst_spec(*k, args)), Box::new(subst_spec(*v, args))),
        TyV::Function(ps, r) => TyV::Function(substs_spec(ps, args), Box::new(subst_spec(*r, args))),
        TyV::Enum(d, ps) => TyV::Enum(d, substs_spec(ps, args)),
        _ => t,
    }
}

pub open spec fn substs_spec(ts: Seq<TyV>, args: Seq<TyV>) -> Seq<TyV>
    decreases ts,
{
    if ts.len() == 0 {
        Seq::empty()
    } else {
        substs_spec(ts.drop_last(), args).push(subst_spec(ts.last(), args))
    }
}

pub proof fn lemma_substs_index(ts: Seq<TyV>, args: Seq<TyV>, i: int)
    requires
        0 <= i < ts.len(),
    ensures
        substs_spec(ts, args).len() == ts.len(),
        substs_spec(ts, args)[i] == subst_spec(ts[i], args),
    decreases ts.len(),
{
    lemma_substs_len(ts, args);
    if i < ts.len() - 1 {
        lemma_substs_index(ts.drop_last(), args, i);
    }
}

pub proof fn lemma_substs_len(ts: Seq<TyV>, args: Seq<TyV>)
    ensures
        substs_spec(ts, args).len() == ts.len(),
    decreases ts.len(),
{
    if ts.len() > 0 {
        lemma_substs_len(ts.drop_last(), args);
    }
}

/// A copy of each type in `ts`.
pub fn clone_tys(ts: &Vec<Ty>) -> (r: Vec<Ty>)
    ensures
        tys_view(r@) == tys_view(ts@),
        r@.len() == ts@.len(),
    decreases ts@,
{
    let mut out: Vec<Ty> = Vec::new();
    let mut i: usize = 0;
    while i < ts.len()
        invariant
            i <= ts@.len(),
            out@.len() == i,
            forall|k: int| 0 <= k < i ==> (#[trigger] out@[k])@ == ts@[k]@,
        decreases ts@.len() - i,
    {
        let c = ts[i].dup();
        out.push(c);
        i = i + 1;
    }
    proof {
        lemma_tys_view_len(ts@);
        assert forall|k: int| 0 <= k < ts@.len() implies tys_view(ts@)[k] == (#[trigger] out@[k])@ by {
            lemma_tys_view_index(ts@, k);
        }
        lemma_tys_view_pointwise(out@, tys_view(ts@));
    }
    out
}

impl Ty {
    /// A copy of this type.
    pub fn dup(&self) -> (r: Ty)
        ensures
            r@ == self@,
        decreases self,
    {
        match self {
            Ty::Int => Ty::Int,
            Ty::Scalar(d) => Ty::Scalar(*d),
            Ty::Bool => Ty::Bool,
            Ty::String => Ty::String,
            Ty::Vec(n, d) => Ty::Vec(*n, *d),
            Ty::Mat(m, n) => Ty::Mat(*m, *n),
            Ty::Array(t) => Ty::Array(Box::new(t.dup())),
            Ty::Dict(k, v) => Ty::Dict(Box::new(k.dup()), Box::new(v.dup())),
            Ty::Function(args, ret) => Ty::Function(clone_tys(args), Box::new(ret.dup())),
            Ty::Struct(id) => Ty::Struct(*id),
            Ty::Enum(id, args) => Ty::Enum(*id, clone_tys(args)),
            Ty::Var(v) => Ty::Var(*v),
            Ty::Param(i) => Ty::Param(*i),
            Ty::Error => Ty::Error,
        }
    }
}


/// Pointwise equality of two type lists.
pub fn tys_eq(a: &Vec<Ty>, b: &Vec<Ty>) -> (r: bool)
    ensures
        r == (tys_view(a@) == tys_view(b@)),
    decreases a@,
{
    proof {
        lemma_tys_view_len(a@);
        lemma_tys_view_len(b@);
    }
    if a.len() != b.len() {
        return false;
    }
    let mut i: usize = 0;
    while i < a.len()
        invariant
            a@.len() == b@.len(),
            i <= a@.len(),
            forall|k: int| 0 <= k < i ==> (#[trigger] a@[k])@ == b@[k]@,
        decreases a@.len() - i,
    {
        if !a[i].same(&b[i]) {
            proof {
                lemma_tys_view_index(a@, i as int);
                lemma_tys_view_index(b@, i as int);
            }
            return false;
        }
        i = i + 1;
    }
    proof {
        assert forall|k: int| 0 <= k < a@.len() implies tys_view(a@)[k] == tys_view(b@)[k] by {
            lemma_tys_view_index(a@, k);
            lemma_tys_view_index(b@, k);
        }
        assert(tys_view(a@) =~= tys_view(b@));
    }
    true
}

/// Substitute `Param(i)` with `args[i]` in each type of `ts`.
pub fn subst_tys(ts: &Vec<Ty>, args: &Vec<Ty>) -> (r: Vec<Ty>)
    ensures
        tys_view(r@) == substs_spec(tys_view(ts@), tys_view(args@)),
    decreases ts@,
{
    let mut out: Vec<Ty> = Vec::new();
    let mut i: usize = 0;
    while i < ts.len()
        invariant
            i <= ts@.len(),
            out@.len() == i,
            forall|k: int| 0 <= k < i ==> (#[trigger] out@[k])@ == subst_spec(ts@[k]@, tys_view(args@)),
        decreases ts@.len() - i,
    {
        out.push(ts[i].subst_with_args(args));
        i = i + 1;
    }
    proof {
        let tv = tys_view(ts@);
        lemma_tys_view_len(ts@);
        lemma_substs_len(tv, tys_view(args@));
        assert forall|k: int| 0 <= k < ts@.len() implies substs_spec(tv, tys_view(args@))[k] == (#[trigger] out@[k])@ by {
            lemma_tys_view_index(ts@, k);
            lemma_substs_index(tv, tys_view(args@), k);
        }
        lemma_tys_view_pointwise(out@, substs_spec(tv, tys_view(args@)));
    }
    out
}

impl Ty {
    /// Structural equality.
    pub fn same(&self, other: &Ty) -> (r: bool)
        ensures
            r == (self@ == other@),
        decreases self,
    {
        match (self, other) {
            (Ty::Int, Ty::Int) => true,
            (Ty::Scalar(a), Ty::Scalar(b)) => a.same(*b),
            (Ty::Bool, Ty::Bool) => true,
            (Ty::String, Ty::String) => true,
            (Ty::Vec(n1, d1), Ty::Vec(n2, d2)) => *n1 == *n2 && d1.same(*d2),
            (Ty::Mat(m1, n1), Ty::Mat(m2, n2)) => *m1 == *m2 && *n1 == *n2,
            (Ty::Array(a), Ty::Array(b)) => a.same(b),
            (Ty::Dict(k1, v1), Ty::Dict(k2, v2)) => k1.same(k2) && v1.same(v2),
            (Ty::Function(a1, r1), Ty::Function(a2, r2)) => tys_eq(a1, a2) && r1.same(r2),
            (Ty::Struct(a), Ty::Struct(b)) => a.0 == b.0,
            (Ty::Enum(a, x), Ty::Enum(b, y)) => a.0 == b.0 && tys_eq(x, y),
            (Ty::Var(a), Ty::Var(b)) => a.0 == b.0,
            (Ty::Param(a), Ty::Param(b)) => *a == *b,
            (Ty::Error, Ty::Error) => true,
            _ => false,
        }
    }

    /// Substitute every `Param(i)` with `type_args[i]`; an index past the
    /// end of `type_args` becomes `Error`.
    pub fn subst_with_args(&self, type_args: &Vec<Ty>) -> (r: Ty)
        ensures
            r@ == subst_spec(self@, tys_view(type_args@)),
        decreases self,
    {
        match self {
            Ty::Param(i) => {
                proof { lemma_tys_view_len(type_args@); }
                if *i < type_args.len() {
                    proof { lemma_tys_view_index(type_args@, *i as int); }
                    type_args[*i].dup()
                } else {
                    Ty::Error
                }
            },
            Ty::Array(t) => Ty::Array(Box::new(t.subst_with_args(type_args))),
            Ty::Dict(k, v) => Ty::Dict(Box::new(k.subst_with_args(type_args)), Box::new(v.subst_with_args(type_args))),
            Ty::Function(args, ret) => Ty::Function(subst_tys(args, type_args), Box::new(ret.subst_with_args(type_args))),
            Ty::Enum(d, args) => Ty::Enum(*d, subst_tys(args, type_args)),
            _ => self.dup(),
        }
    }
}


/// Lower a type annotation to a `Ty`. Annotation errors are reported and
/// yield `Ty::Error`.
pub fn lower_type(ast_ty: &Type, resolutions: &ResolveTable, definitions: &DefinitionTable, diags: &mut Vec<Diagnostic>) -> (r: Ty)
    ensures
        appends_sema_errors(old(diags)@, final(diags)@),
        r@ == lower_spec(*ast_ty, *resolutions, *definitions, None),
        builtin_named(ast_ty, None) matches Some(t) ==> r@ == t && final(diags)@ == old(diags)@,
        unit_generic(*ast_ty) && r@ != TyV::Error ==> final(diags)@ == old(diags)@,
        annotation_report(*ast_ty, *resolutions, *definitions) matches Some(m) ==> reports_one(old(diags)@, final(diags)@, ast_ty.span, m),
{
    lower_type_inner(ast_ty, resolutions, definitions, None, diags)
}

/// Lower a type annotation inside a generic enum, where the names in
/// `subst` stand for the enum's type parameters (`Ty::Param(i)` for the
/// last occurrence of a name at position `i`).
pub fn lower_type_with_subst(
    ast_ty: &Type,
    resolutions: &ResolveTable,
    definitions: &DefinitionTable,
    subst: &Vec<String>,
    diags: &mut Vec<Diagnostic>,
) -> (r: Ty)
    ensures
        appends_sema_errors(old(diags)@, final(diags)@),
        builtin_named(ast_ty, Some(names_of(subst@))) matches Some(t) ==> r@ == t && final(diags)@ == old(diags)@,
        r@ == lower_spec(*ast_ty, *resolutions, *definitions, Some(names_of(subst@))),
        unit_generic(*ast_ty) && r@ != TyV::Error ==> final(diags)@ == old(diags)@,
        annotation_report(*ast_ty, *resolutions, *definitions) matches Some(m) ==> reports_one(old(diags)@, final(diags)@, ast_ty.span, m),
{
    lower_type_inner(ast_ty, resolutions, definitions, Some(subst), diags)
}

pub open spec fn names_of(v: Seq<String>) -> Seq<Seq<char>> {
    Seq::new(v.len(), |i: int| v[i]@)
}

/// The last position of `name` in `names`.
pub open spec fn last_index_of(names: Seq<Seq<char>>, name: Seq<char>) -> Option<nat>
    decreases names.len(),
{
    if names.len() == 0 {
        None
    } else if names.last() == name {
        Some((names.len() - 1) as nat)
    } else {
        last_index_of(names.drop_last(), name)
    }
}

/// The lowering of a bare name that needs no table: a type parameter in
/// scope, or `Int`, `Bool`, `String` or `Scalar`.
pub open spec fn builtin_named(t: &Type, subst: Option<Seq<Seq<char>>>) -> Option<TyV> {
    match t.kind {
        TypeKind::Named(name) => {
            let p = match subst {
                Some(s) => last_index_of(s, name@),
                None => None,
            };
            if p is Some {
                Some(TyV::Param(p->0 as usize))
            } else if name@ == "Int"@ {
                Some(TyV::Int)
            } else if name@ == "Bool"@ {
                Some(TyV::Bool)
            } else if name@ == "String"@ {
                Some(TyV::Str)
            } else if name@ == "Scalar"@ {
                Some(TyV::Scalar(Dimension::zero_spec()))
            } else {
                None
            }
        },
        _ => None,
    }
}

/// The dimension a unit argument stands for: a unit expression, or a bare
/// name read as a unit atom.
pub open spec fn unit_arg_spec(a: TypeArg) -> Option<Dimension> {
    match a {
        TypeArg::Unit(u) => unit_eval(u),
        TypeArg::Type(t) => match t.kind {
            TypeKind::Named(name) => unit_dim(name@),
            _ => None,
        },
        TypeArg::Int(_) => None,
    }
}

/// `Scalar<..>`: no argument, or one unit argument.
pub open spec fn scalar_spec(args: Seq<TypeArg>) -> TyV {
    if args.len() == 0 {
        TyV::Scalar(Dimension::zero_spec())
    } else if args.len() > 1 {
        TyV::Error
    } else {
        match unit_arg_spec(args[0]) {
            Some(d) => TyV::Scalar(d),
            None => TyV::Error,
        }
    }
}

/// `Vec<n>` or `Vec<n, unit>` with `n` a positive size.
pub open spec fn vec_spec(args: Seq<TypeArg>) -> TyV {
    if args.len() == 0 || !(args[0] is Int && 0 < args[0]->Int_0 <= usize::MAX) || args.len() > 2 {
        TyV::Error
    } else {
        let n = args[0]->Int_0 as usize;
        if args.len() == 1 {
            TyV::Vec(n, Dimension::zero_spec())
        } else {
            match unit_arg_spec(args[1]) {
                Some(d) => TyV::Vec(n, d),
                None => TyV::Error,
            }
        }
    }
}

/// `Mat<m, n>` with positive sizes.
pub open spec fn mat_spec(args: Seq<TypeArg>) -> TyV {
    if args.len() == 2 && args[0] is Int && args[1] is Int && 0 < args[0]->Int_0 <= usize::MAX
        && 0 < args[1]->Int_0 <= usize::MAX {
        TyV::Mat(args[0]->Int_0 as usize, args[1]->Int_0 as usize)
    } else {
        TyV::Error
    }
}

/// A bare user type name: the struct, or the enum without arguments, that
/// the name resolved to.
pub open spec fn user_named_spec(t: Type, resolutions: ResolveTable, definitions: DefinitionTable) -> TyV {
    match resolutions.at(t.id) {
        Some(d) => match definitions.at(d) {
            Some(info) => if info.kind == DefKind::Struct {
                TyV::Struct(d)
            } else if info.kind == DefKind::Enum {
                TyV::Enum(d, Seq::empty())
            } else {
                TyV::Error
            },
            None => TyV::Error,
        },
        None => TyV::Error,
    }
}

/// `d1` is `d0` with one more diagnostic: a sema error at `span` with
/// message `msg`.
pub open spec fn reports_one(d0: Seq<Diagnostic>, d1: Seq<Diagnostic>, span: crate::source::Span, msg: Seq<char>) -> bool {
    d1.len() == d0.len() + 1 && d1.take(d0.len() as int) == d0 && sema_error(d1.last(), span, msg)
}

/// The refusal `Scalar<..>` reports for arguments that are no unit at all.
pub open spec fn scalar_report(args: Seq<TypeArg>) -> Option<Seq<char>> {
    if args.len() > 1 || (args.len() == 1 && args[0] is Int) {
        Some("`Scalar` accepts at most one unit argument"@)
    } else if args.len() == 1 && (args[0] matches TypeArg::Type(t) && !(t.kind is Named)) {
        Some("`Scalar` accepts a unit expression as its argument"@)
    } else {
        None
    }
}

/// The refusal `Vec<..>` reports for a bad size, too many arguments, or a
/// second argument that is no unit at all.
pub open spec fn vec_report(args: Seq<TypeArg>) -> Option<Seq<char>> {
    if args.len() == 0 || !(args[0] is Int && 0 < args[0]->Int_0 <= usize::MAX) {
        Some("`Vec` requires a positive integer size as its first argument"@)
    } else if args.len() > 2 {
        Some("`Vec` accepts at most a size and an optional unit argument"@)
    } else if args.len() == 2 && args[1] is Int {
        Some("`Vec` second argument must be a unit, not an integer"@)
    } else if args.len() == 2 && (args[1] matches TypeArg::Type(t) && !(t.kind is Named)) {
        Some("`Vec` second argument must be a unit expression, not a type"@)
    } else {
        None
    }
}

/// The message of the one diagnostic an annotation's own shape gets: a
/// refused `Scalar`, `Vec` or `Mat`, or an enum given the wrong number of
/// type arguments.
pub open spec fn annotation_report(t: Type, resolutions: ResolveTable, definitions: DefinitionTable) -> Option<Seq<char>> {
    match t.kind {
        TypeKind::Generic(name, args) => if name@ == "Scalar"@ {
            scalar_report(args@)
        } else if name@ == "Vec"@ {
            vec_report(args@)
        } else if name@ == "Mat"@ {
            if mat_spec(args@) is Error { Some("`Mat` requires two positive integer dimensions (e.g. `Mat<3, 4>`)"@) } else { None }
        } else if name@ == "Array"@ || name@ == "Dict"@ {
            None
        } else {
            match resolutions.at(t.id) {
                Some(d) => match definitions.at(d) {
                    Some(info) => if info.kind == DefKind::Enum && info.type_params@.len() != args@.len() {
                        Some("`"@ + name@ + "` expects "@ + nat_digits(info.type_params@.len()) + " type argument(s), but "@
                            + nat_digits(args@.len()) + " were provided"@)
                    } else {
                        None
                    },
                    None => None,
                },
                None => None,
            }
        },
        _ => None,
    }
}

/// A `Scalar`, `Vec` or `Mat` annotation.
pub open spec fn unit_generic(t: Type) -> bool {
    t.kind matches TypeKind::Generic(name, _) && (name@ == "Scalar"@ || name@ == "Vec"@ || name@ == "Mat"@)
}

/// The `Ty` a type annotation stands for. Annotations that break a rule
/// (a wrong number or kind of arguments, an unknown unit, a name that is
/// no type) stand for `Error`; within a function type or an enum's
/// arguments only the offending part does.
pub open spec fn lower_spec(t: Type, resolutions: ResolveTable, definitions: DefinitionTable, subst: Option<Seq<Seq<char>>>) -> TyV
    decreases t,
{
    match t.kind {
        TypeKind::Named(name) => match builtin_named(&t, subst) {
            Some(v) => v,
            None => if name@ == "Vec"@ || name@ == "Mat"@ || name@ == "Array"@ || name@ == "Dict"@ {
                TyV::Error
            } else {
                user_named_spec(t, resolutions, definitions)
            },
        },
        TypeKind::Generic(name, args) => {
            if name@ == "Scalar"@ {
                scalar_spec(args@)
            } else if name@ == "Vec"@ {
                vec_spec(args@)
            } else if name@ == "Mat"@ {
                mat_spec(args@)
            } else if name@ == "Array"@ {
                if args@.len() == 1 && args@[0] is Type {
                    TyV::Array(Box::new(lower_spec(args@[0]->Type_0, resolutions, definitions, subst)))
                } else {
                    TyV::Error
                }
            } else if name@ == "Dict"@ {
                if args@.len() == 2 && args@[0] is Type && args@[1] is Type {
                    TyV::Dict(
                        Box::new(lower_spec(args@[0]->Type_0, resolutions, definitions, subst)),
                        Box::new(lower_spec(args@[1]->Type_0, resolutions, definitions, subst)),
                    )
                } else {
                    TyV::Error
                }
            } else {
                match resolutions.at(t.id) {
                    Some(d) => match definitions.at(d) {
                        Some(info) => if info.kind == DefKind::Enum && info.type_params@.len() == args@.len() {
                            TyV::Enum(d, Seq::new(args@.len(), |i: int|
                                if 0 <= i < args@.len() && args@[i] is Type {
                                    lower_spec(args@[i]->Type_0, resolutions, definitions, subst)
                                } else {
                                    TyV::Error
                                }))
                        } else {
                            TyV::Error
                        },
                        None => TyV::Error,
                    },
                    None => TyV::Error,
                }
            }
        },
        TypeKind::Function(args, ret) => TyV::Function(
            Seq::new(args@.len(), |i: int|
                if 0 <= i < args@.len() { lower_spec(args@[i], resolutions, definitions, subst) } else { TyV::Error }),
            Box::new(lower_spec(*ret, resolutions, definitions, subst)),
        ),
    }
}

fn find_param(subst: &Vec<String>, name: &str) -> (r: Option<usize>)
    ensures
        match last_index_of(names_of(subst@), name@) {
            Some(i) => r == Some(i as usize),
            None => r is None,
        },
{
    let ghost ns = names_of(subst@);
    let mut k: usize = subst.len();
    assert(ns.take(k as int) =~= ns);
    while k > 0
        invariant
            k <= ns.len(),
            ns == names_of(subst@),
            last_index_of(ns, name@) == last_index_of(ns.take(k as int), name@),
        decreases k,
    {
        assert(ns.take(k as int).drop_last() =~= ns.take(k - 1));
        assert(ns.take(k as int).last() == subst@[k - 1]@);
        if str_eq(subst[k - 1].as_str(), name) {
            return Some(k - 1);
        }
        k = k - 1;
    }
    None
}

/// The names of the type parameters in scope, if any.
pub open spec fn subst_names(subst: Option<&Vec<String>>) -> Option<Seq<Seq<char>>> {
    match subst {
        Some(s) => Some(names_of(s@)),
        None => None,
    }
}

fn annotation_error(diags: &mut Vec<Diagnostic>, span: crate::source::Span, msg: String)
    ensures
        appends_sema_errors(old(diags)@, final(diags)@),
        final(diags)@.len() == old(diags)@.len() + 1,
        reports_one(old(diags)@, final(diags)@, span, msg@),
{
    emit(diags, Diagnostic::error_owned(crate::diag::Phase::Sema, span, msg));
}

#[verifier::loop_isolation(false)]
fn lower_type_inner(
    ast_ty: &Type,
    resolutions: &ResolveTable,
    definitions: &DefinitionTable,
    subst: Option<&Vec<String>>,
    diags: &mut Vec<Diagnostic>,
) -> (r: Ty)
    ensures
        appends_sema_errors(old(diags)@, final(diags)@),
        builtin_named(ast_ty, subst_names(subst)) matches Some(t) ==> r@ == t && final(diags)@ == old(diags)@,
        r@ == lower_spec(*ast_ty, *resolutions, *definitions, subst_names(subst)),
        unit_generic(*ast_ty) && r@ != TyV::Error ==> final(diags)@ == old(diags)@,
        annotation_report(*ast_ty, *resolutions, *definitions) matches Some(m) ==> reports_one(old(diags)@, final(diags)@, ast_ty.span, m),
    decreases ast_ty, 1nat,
{
    proof { lemma_appends_refl(diags@); }
    match &ast_ty.kind {
        TypeKind::Named(name) => {
            if let Some(s) = subst {
                if let Some(i) = find_param(s, name.as_str()) {
                    return Ty::Param(i);
                }
            }
            if str_eq(name.as_str(), "Int") {
                Ty::Int
            } else if str_eq(name.as_str(), "Bool") {
                Ty::Bool
            } else if str_eq(name.as_str(), "String") {
                Ty::String
            } else if str_eq(name.as_str(), "Scalar") {
                Ty::Scalar(Dimension::zero())
            } else if str_eq(name.as_str(), "Vec") || str_eq(name.as_str(), "Mat") || str_eq(name.as_str(), "Array")
                || str_eq(name.as_str(), "Dict") {
                let mut m = string_of("`");
                push_str(&mut m, name.as_str());
                push_str(&mut m, "` requires type arguments (e.g. `");
                push_str(&mut m, name.as_str());
                push_str(&mut m, "<3>`)");
                annotation_error(diags, ast_ty.span, m);
                Ty::Error
            } else {
                lower_user_named(name.as_str(), ast_ty, resolutions, definitions, diags)
            }
        },
        TypeKind::Generic(name, args) => {
            if str_eq(name.as_str(), "Scalar") {
                lower_scalar(args, ast_ty.span, diags)
            } else if str_eq(name.as_str(), "Vec") {
                lower_vec(args, ast_ty.span, diags)
            } else if str_eq(name.as_str(), "Mat") {
                lower_mat(args, ast_ty.span, diags)
            } else if str_eq(name.as_str(), "Array") {
                lower_array(args, ast_ty.span, resolutions, definitions, subst, diags)
            } else if str_eq(name.as_str(), "Dict") {
                lower_dict(args, ast_ty.span, resolutions, definitions, subst, diags)
            } else {
                lower_user_generic(name.as_str(), args, ast_ty, resolutions, definitions, subst, diags)
            }
        },
        TypeKind::Function(args, ret) => {
            let mut arg_tys: Vec<Ty> = Vec::new();
            let mut i: usize = 0;
            while i < args.len()
                invariant
                    appends_sema_errors(old(diags)@, diags@),
                    i <= args@.len(),
                    arg_tys@.len() == i,
                    forall|k: int| 0 <= k < i ==> (#[trigger] arg_tys@[k])@ == lower_spec(args@[k], *resolutions, *definitions, subst_names(subst)),
                decreases args@.len() - i,
            {
                let ghost d1 = diags@;
                let t = lower_type_inner(&args[i], resolutions, definitions, subst, diags);
                proof { lemma_appends_trans(old(diags)@, d1, diags@); }
                arg_tys.push(t);
                i = i + 1;
            }
            let ghost d2 = diags@;
            let ret_ty = lower_type_inner(ret, resolutions, definitions, subst, diags);
            proof { lemma_appends_trans(old(diags)@, d2, diags@); }
            proof {
                lemma_tys_view_len(arg_tys@);
                assert forall|k: int| 0 <= k < arg_tys@.len() implies tys_view(arg_tys@)[k] == lower_spec(args@[k], *resolutions, *definitions, subst_names(subst)) by {
                    lemma_tys_view_index(arg_tys@, k);
                }
                assert(tys_view(arg_tys@) =~= lower_spec(*ast_ty, *resolutions, *definitions, subst_names(subst))->Function_0);
            }
            Ty::Function(arg_tys, Box::new(ret_ty))
        },
    }
}

/// A bare user type name: a struct, or an enum with no arguments.
fn lower_user_named(name: &str, ast_ty: &Type, resolutions: &ResolveTable, definitions: &DefinitionTable, diags: &mut Vec<Diagnostic>) -> (r: Ty)
    ensures
        appends_sema_errors(old(diags)@, final(diags)@),
        r@ == user_named_spec(*ast_ty, *resolutions, *definitions),
{
    proof { lemma_appends_refl(diags@); }
    let def_id = match resolutions.get(&ast_ty.id) {
        Some(d) => *d,
        None => {
            return Ty::Error;
        },
    };
    match definitions.get(&def_id) {
        Some(info) => match info.kind {
            DefKind::Struct => Ty::Struct(def_id),
            DefKind::Enum => {
                let none: Vec<Ty> = Vec::new();
                proof { assert(tys_view(none@) =~= Seq::<TyV>::empty()); }
                Ty::Enum(def_id, none)
            },
            _ => {
                let mut m = string_of("`");
                push_str(&mut m, name);
                push_str(&mut m, "` is not a type");
                annotation_error(diags, ast_ty.span, m);
                Ty::Error
            },
        },
        None => Ty::Error,
    }
}

/// A user generic type: an enum applied to exactly as many type arguments
/// as it declares parameters.
#[verifier::loop_isolation(false)]
fn lower_user_generic(
    name: &str,
    args: &Vec<TypeArg>,
    ast_ty: &Type,
    resolutions: &ResolveTable,
    definitions: &DefinitionTable,
    subst: Option<&Vec<String>>,
    diags: &mut Vec<Diagnostic>,
) -> (r: Ty)
    requires
        ast_ty.kind matches TypeKind::Generic(n, a) && n@ == name@ && a == *args,
        !(name@ == "Scalar"@ || name@ == "Vec"@ || name@ == "Mat"@ || name@ == "Array"@ || name@ == "Dict"@),
    ensures
        appends_sema_errors(old(diags)@, final(diags)@),
        r@ == lower_spec(*ast_ty, *resolutions, *definitions, subst_names(subst)),
        annotation_report(*ast_ty, *resolutions, *definitions) matches Some(m) ==> reports_one(old(diags)@, final(diags)@, ast_ty.span, m),
    decreases ast_ty, 0nat,
{
    proof { lemma_appends_refl(diags@); }
    let def_id = match resolutions.get(&ast_ty.id) {
        Some(d) => *d,
        None => {
            return Ty::Error;
        },
    };
    let is_enum = match definitions.get(&def_id) {
        Some(info) => matches!(info.kind, DefKind::Enum),
        None => {
            return Ty::Error;
        },
    };
    if !is_enum {
        let mut m = string_of("`");
        push_str(&mut m, name);
        push_str(&mut m, "` is not a generic type");
        annotation_error(diags, ast_ty.span, m);
        return Ty::Error;
    }
    let expected = expected_type_param_count(def_id, definitions);
    let actual = args.len();
    if expected != actual {
        emit(diags, crate::sema::diag::wrong_type_arity(ast_ty.span, name, expected, actual));
        return Ty::Error;
    }
    let mut lowered: Vec<Ty> = Vec::new();
    let mut i: usize = 0;
    while i < args.len()
        invariant
            appends_sema_errors(old(diags)@, diags@),
            i <= args@.len(),
            lowered@.len() == i,
            forall|k: int| 0 <= k < i ==> (#[trigger] lowered@[k])@ == (if args@[k] is Type {
                lower_spec(args@[k]->Type_0, *resolutions, *definitions, subst_names(subst))
            } else {
                TyV::Error
            }),
        decreases args@.len() - i,
    {
        let ghost d1 = diags@;
        let t = match &args[i] {
            TypeArg::Type(t) => lower_type_inner(t, resolutions, definitions, subst, diags),
            _ => {
                let mut m = string_of("`");
                push_str(&mut m, name);
                push_str(&mut m, "` type arguments must be types, not int/unit literals");
                annotation_error(diags, ast_ty.span, m);
                Ty::Error
            },
        };
        proof { lemma_appends_trans(old(diags)@, d1, diags@); }
        lowered.push(t);
        i = i + 1;
    }
    proof {
        lemma_tys_view_len(lowered@);
        assert forall|k: int| 0 <= k < lowered@.len() implies tys_view(lowered@)[k] == (if args@[k] is Type {
            lower_spec(args@[k]->Type_0, *resolutions, *definitions, subst_names(subst))
        } else {
            TyV::Error
        }) by {
            lemma_tys_view_index(lowered@, k);
        }
        assert(tys_view(lowered@) =~= lower_spec(*ast_ty, *resolutions, *definitions, subst_names(subst))->Enum_1);
    }
    Ty::Enum(def_id, lowered)
}

/// The number of type parameters the definition declares (0 when absent).
pub fn expected_type_param_count(def_id: DefId, definitions: &DefinitionTable) -> (r: usize)
    ensures
        r == match definitions.at(def_id) {
            Some(info) => info.type_params@.len(),
            None => 0,
        },
{
    match definitions.get(&def_id) {
        Some(info) => info.type_params.len(),
        None => 0,
    }
}

/// The dimension of a unit argument; a bare name argument is read as a
/// unit atom.
fn lower_unit_arg(arg: &TypeArg, span: crate::source::Span, what: &str, diags: &mut Vec<Diagnostic>) -> (r: Result<Dimension, ()>)
    ensures
        appends_sema_errors(old(diags)@, final(diags)@),
        r matches Ok(d) ==> unit_arg_spec(*arg) == Some(d),
        r is Err ==> unit_arg_spec(*arg) is None,
        r is Ok ==> final(diags)@ == old(diags)@,
        *arg is Int || (*arg matches TypeArg::Type(t) && !(t.kind is Named)) ==> reports_one(old(diags)@, final(diags)@, span, what@),
{
    proof { lemma_appends_refl(diags@); }
    match arg {
        TypeArg::Unit(u) => eval_unit_expr(u, diags),
        TypeArg::Type(t) => match &t.kind {
            TypeKind::Named(name) => {
                let atom = synthesize_atom_unit_expr(t, name.as_str());
                eval_unit_expr(&atom, diags)
            },
            _ => {
                let m = string_of(what);
                annotation_error(diags, span, m);
                Err(())
            },
        },
        TypeArg::Int(_) => {
            let m = string_of(what);
            annotation_error(diags, span, m);
            Err(())
        },
    }
}

/// `Scalar` or `Scalar<unit>`.
fn lower_scalar(args: &Vec<TypeArg>, span: crate::source::Span, diags: &mut Vec<Diagnostic>) -> (r: Ty)
    ensures
        appends_sema_errors(old(diags)@, final(diags)@),
        r@ == scalar_spec(args@),
        r@ != TyV::Error ==> final(diags)@ == old(diags)@,
        scalar_report(args@) matches Some(m) ==> reports_one(old(diags)@, final(diags)@, span, m),
{
    proof { lemma_appends_refl(diags@); }
    if args.len() == 0 {
        return Ty::Scalar(Dimension::zero());
    }
    if args.len() > 1 {
        annotation_error(diags, span, string_of("`Scalar` accepts at most one unit argument"));
        return Ty::Error;
    }
    let what = match &args[0] {
        TypeArg::Int(_) => "`Scalar` accepts at most one unit argument",
        _ => "`Scalar` accepts a unit expression as its argument",
    };
    match lower_unit_arg(&args[0], span, what, diags) {
        Ok(d) => Ty::Scalar(d),
        Err(()) => Ty::Error,
    }
}

/// `Vec<n>` or `Vec<n, unit>` with a positive size `n`.
fn lower_vec(args: &Vec<TypeArg>, span: crate::source::Span, diags: &mut Vec<Diagnostic>) -> (r: Ty)
    ensures
        appends_sema_errors(old(diags)@, final(diags)@),
        r@ == vec_spec(args@),
        r@ != TyV::Error ==> final(diags)@ == old(diags)@,
        vec_report(args@) matches Some(m) ==> reports_one(old(diags)@, final(diags)@, span, m),
{
    proof { lemma_appends_refl(diags@); }
    let n: usize = if args.len() > 0 {
        match &args[0] {
            TypeArg::Int(n) => {
                if *n > 0 && (*n as u64) <= (usize::MAX as u64) {
                    *n as usize
                } else {
                    0
                }
            },
            _ => 0,
        }
    } else {
        0
    };
    if n == 0 {
        annotation_error(diags, span, string_of("`Vec` requires a positive integer size as its first argument"));
        return Ty::Error;
    }
    if args.len() > 2 {
        annotation_error(diags, span, string_of("`Vec` accepts at most a size and an optional unit argument"));
        return Ty::Error;
    }
    if args.len() == 1 {
        return Ty::Vec(n, Dimension::zero());
    }
    let what = match &args[1] {
        TypeArg::Int(_) => "`Vec` second argument must be a unit, not an integer",
        _ => "`Vec` second argument must be a unit expression, not a type",
    };
    match lower_unit_arg(&args[1], span, what, diags) {
        Ok(d) => Ty::Vec(n, d),
        Err(()) => Ty::Error,
    }
}

/// A unit atom standing where the parser saw a bare type name.
fn synthesize_atom_unit_expr(t: &Type, name: &str) -> (r: UnitExpr)
    ensures
        r.kind == UnitExprKind::Atom(r.kind->Atom_0),
        r.kind->Atom_0@ == name@,
        r.span == t.span,
        r.id == t.id,
{
    UnitExpr { kind: UnitExprKind::Atom(string_of(name)), span: t.span, id: t.id }
}

/// `Mat<m, n>` with positive dimensions.
fn lower_mat(args: &Vec<TypeArg>, span: crate::source::Span, diags: &mut Vec<Diagnostic>) -> (r: Ty)
    ensures
        appends_sema_errors(old(diags)@, final(diags)@),
        r@ == mat_spec(args@),
        r@ != TyV::Error ==> final(diags)@ == old(diags)@,
        r@ == TyV::Error ==> reports_one(old(diags)@, final(diags)@, span, "`Mat` requires two positive integer dimensions (e.g. `Mat<3, 4>`)"@),
{
    proof { lemma_appends_refl(diags@); }
    if args.len() == 2 {
        if let (TypeArg::Int(m), TypeArg::Int(n)) = (&args[0], &args[1]) {
            if *m > 0 && *n > 0 && (*m as u64) <= (usize::MAX as u64) && (*n as u64) <= (usize::MAX as u64) {
                return Ty::Mat(*m as usize, *n as usize);
            }
        }
    }
    annotation_error(diags, span, string_of("`Mat` requires two positive integer dimensions (e.g. `Mat<3, 4>`)"));
    Ty::Error
}

/// `Array<T>`.
fn lower_array(
    args: &Vec<TypeArg>,
    span: crate::source::Span,
    resolutions: &ResolveTable,
    definitions: &DefinitionTable,
    subst: Option<&Vec<String>>,
    diags: &mut Vec<Diagnostic>,
) -> (r: Ty)
    ensures
        appends_sema_errors(old(diags)@, final(diags)@),
        r@ == (if args@.len() == 1 && args@[0] is Type {
            TyV::Array(Box::new(lower_spec(args@[0]->Type_0, *resolutions, *definitions, subst_names(subst))))
        } else {
            TyV::Error
        }),
    decreases args, 0nat,
{
    proof { lemma_appends_refl(diags@); }
    if args.len() == 1 {
        if let TypeArg::Type(t) = &args[0] {
            return Ty::Array(Box::new(lower_type_inner(t, resolutions, definitions, subst, diags)));
        }
    }
    annotation_error(diags, span, string_of("`Array` requires exactly one type argument"));
    Ty::Error
}

/// `Dict<K, V>`.
fn lower_dict(
    args: &Vec<TypeArg>,
    span: crate::source::Span,
    resolutions: &ResolveTable,
    definitions: &DefinitionTable,
    subst: Option<&Vec<String>>,
    diags: &mut Vec<Diagnostic>,
) -> (r: Ty)
    ensures
        appends_sema_errors(old(diags)@, final(diags)@),
        r@ == (if args@.len() == 2 && args@[0] is Type && args@[1] is Type {
            TyV::Dict(
                Box::new(lower_spec(args@[0]->Type_0, *resolutions, *definitions, subst_names(subst))),
                Box::new(lower_spec(args@[1]->Type_0, *resolutions, *definitions, subst_names(subst))),
            )
        } else {
            TyV::Error
        }),
    decreases args, 0nat,
{
    proof { lemma_appends_refl(diags@); }
    if args.len() == 2 {
        if let (TypeArg::Type(k), TypeArg::Type(v)) = (&args[0], &args[1]) {
            let kt = lower_type_inner(k, resolutions, definitions, subst, diags);
            let ghost d1 = diags@;
            let vt = lower_type_inner(v, resolutions, definitions, subst, diags);
            proof { lemma_appends_trans(old(diags)@, d1, diags@); }
            return Ty::Dict(Box::new(kt), Box::new(vt));
        }
    }
    annotation_error(diags, span, string_of("`Dict` requires exactly two type arguments (key, value)"));
    Ty::Error
}
} // verus!
