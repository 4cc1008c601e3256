//! Exhaustiveness of `match` arms.
//!
//! An enum scrutinee must have every variant covered (by a variant
//! pattern or a bare variant name), unless a catch-all arm is present;
//! each covered variant's payload columns are checked one level deep. A
//! `Bool` scrutinee needs `true` and `false` (or a catch-all); `Int`,
//! `Scalar`, `String` and the collections need a catch-all. Structs
//! always match; a function value may not be matched.

use vstd::prelude::*;
use crate::ast::{MatchArm, Pattern, PatternKind};
use crate::diag::{Diagnostic, Level, Phase};
use crate::ids::DefId;
use crate::idmap::DefMap;
use crate::sema::resolve::{DefinitionTable, ResolveTable};
use crate::sema::ty::{lemma_substs_index, lemma_tys_view_index, lemma_tys_view_len, subst_spec, tys_view, Ty, TyV, VariantPayload};
use crate::source::Span;
use crate::sema::diag::{join_names, names_view, sema_error};
use crate::text::{str_eq, string_of};

verus! {

broadcast use vstd::std_specs::vec::group_vec_axioms;

pub open spec fn all_sema_errors(ds: Seq<Diagnostic>) -> bool {
    forall|i: int| 0 <= i < ds.len() ==> (#[trigger] ds[i]).phase == Phase::Sema && ds[i].level == Level::Error
}

/// `d` is a variant of the enum `e`.
pub open spec fn is_variant_of(vp: DefMap<VariantPayload>, e: DefId, d: DefId) -> bool {
    vp.at(d) matches Some(info) && info.parent_enum == e
}

/// The definition `d` is named `name`.
pub open spec fn named(definitions: DefinitionTable, d: DefId, name: Seq<char>) -> bool {
    definitions.at(d) matches Some(info) && info.name@ == name
}

/// A pattern that matches every value of the enum `e`: `_`, or a bare
/// name that is no variant of `e` (a binding).
pub open spec fn enum_catch_all(p: Pattern, e: DefId, definitions: DefinitionTable, vp: DefMap<VariantPayload>) -> bool {
    ||| p.kind is Wildcard
    ||| p.kind matches PatternKind::Ident(n) && forall|d: DefId| is_variant_of(vp, e, d) ==> !#[trigger] named(definitions, d, n@)
}

/// The pattern `p` covers the variant `d`: a bare name naming it, or a
/// variant pattern resolved to it.
pub open spec fn covers_variant(p: Pattern, d: DefId, resolutions: ResolveTable, definitions: DefinitionTable) -> bool {
    ||| p.kind matches PatternKind::Ident(n) && named(definitions, d, n@)
    ||| p.kind is Variant && resolutions.at(p.id) == Some(d)
}

/// The patterns cover every value of the enum `e` at the top level:
/// one of them catches all, or every named variant of `e` is covered.
pub open spec fn enum_covered(
    ps: Seq<&Pattern>,
    e: DefId,
    resolutions: ResolveTable,
    definitions: DefinitionTable,
    vp: DefMap<VariantPayload>,
) -> bool {
    ||| exists|i: int| 0 <= i < ps.len() && enum_catch_all(*#[trigger] ps[i], e, definitions, vp)
    ||| forall|d: DefId| #[trigger] is_variant_of(vp, e, d) && definitions.at(d) is Some
            ==> exists|i: int| 0 <= i < ps.len() && covers_variant(*#[trigger] ps[i], d, resolutions, definitions)
}

/// No two variants of the enum `e` bear the same name.
pub open spec fn distinct_variant_names(vp: DefMap<VariantPayload>, e: DefId, definitions: DefinitionTable) -> bool {
    forall|d1: DefId, d2: DefId, n: Seq<char>|
        #![trigger named(definitions, d1, n), named(definitions, d2, n)]
        is_variant_of(vp, e, d1) && is_variant_of(vp, e, d2) && named(definitions, d1, n) && named(definitions, d2, n)
            ==> d1 == d2
}

/// Some pattern covers the variant `d`.
pub open spec fn some_covers(ps: Seq<&Pattern>, d: DefId, resolutions: ResolveTable, definitions: DefinitionTable) -> bool {
    exists|k: int| 0 <= k < ps.len() && #[trigger] covers_variant(*ps[k], d, resolutions, definitions)
}

/// `vs` lists, in increasing id order (the order of declaration), exactly
/// the named variants of `e` that no pattern covers.
pub open spec fn missing_in_order(
    vs: Seq<DefId>,
    ps: Seq<&Pattern>,
    e: DefId,
    resolutions: ResolveTable,
    definitions: DefinitionTable,
    vp: DefMap<VariantPayload>,
) -> bool {
    &&& forall|a: int, b: int| 0 <= a < b < vs.len() ==> (#[trigger] vs[a]).0 < (#[trigger] vs[b]).0
    &&& forall|d: DefId| #[trigger] vs.contains(d) <==> (is_variant_of(vp, e, d) && definitions.at(d) is Some
        && !some_covers(ps, d, resolutions, definitions))
}

/// The names the definitions of `vs` bear, in order.
pub open spec fn def_names(definitions: DefinitionTable, vs: Seq<DefId>) -> Seq<Seq<char>> {
    Seq::new(vs.len(), |q: int| definitions.at(vs[q])->0.name@)
}

/// The sub-pattern lists of the variant patterns among `ps` that name the
/// variant `v` of the enum `e`, in order.
pub open spec fn variant_subs<'a>(
    ps: Seq<&'a Pattern>,
    v: DefId,
    e: DefId,
    resolutions: ResolveTable,
    vp: DefMap<VariantPayload>,
) -> Seq<&'a Vec<Pattern>>
    decreases ps.len(),
{
    if ps.len() == 0 {
        Seq::empty()
    } else {
        let rest = variant_subs(ps.drop_last(), v, e, resolutions, vp);
        let q = ps.last();
        match &q.kind {
            PatternKind::Variant(_, subs) => if resolutions.at(q.id) == Some(v) && is_variant_of(vp, e, v) {
                rest.push(subs)
            } else {
                rest
            },
            _ => rest,
        }
    }
}

/// The `col`-th patterns of those lists in `subs` that have one.
pub open spec fn column_of<'a>(subs: Seq<&'a Vec<Pattern>>, col: int) -> Seq<&'a Pattern>
    decreases subs.len(),
{
    if subs.len() == 0 {
        Seq::empty()
    } else {
        let rest = column_of(subs.drop_last(), col);
        let l = subs.last();
        if 0 <= col < l@.len() {
            rest.push(&l[col])
        } else {
            rest
        }
    }
}

/// The payload column `col` of the variant `v` that the arms `ps` give:
/// the `col`-th sub-patterns of the variant patterns naming `v`.
pub open spec fn payload_column<'a>(
    ps: Seq<&'a Pattern>,
    v: DefId,
    e: DefId,
    col: int,
    resolutions: ResolveTable,
    vp: DefMap<VariantPayload>,
) -> Seq<&'a Pattern> {
    column_of(variant_subs(ps, v, e, resolutions, vp), col)
}

/// A non-empty payload column `col` of the variant `v` covers, at the top
/// level, the `col`-th payload type of `v` with the enum's type
/// arguments `args` put in.
pub open spec fn column_covered(
    ps: Seq<&Pattern>,
    v: DefId,
    e: DefId,
    args: Seq<TyV>,
    col: int,
    resolutions: ResolveTable,
    definitions: DefinitionTable,
    vp: DefMap<VariantPayload>,
) -> bool {
    0 <= col < vp.at(v)->0.payload@.len() && payload_column(ps, v, e, col, resolutions, vp).len() > 0 ==> top_level_covered(
        subst_spec(tys_view(vp.at(v)->0.payload@)[col], args),
        payload_column(ps, v, e, col, resolutions, vp),
        resolutions,
        definitions,
        vp,
    )
}

/// Every payload column the arms give for a variant of `e` is covered.
pub open spec fn payload_columns_covered(
    ps: Seq<&Pattern>,
    e: DefId,
    args: Seq<TyV>,
    resolutions: ResolveTable,
    definitions: DefinitionTable,
    vp: DefMap<VariantPayload>,
) -> bool {
    forall|v: DefId, col: int| is_variant_of(vp, e, v) ==> #[trigger] column_covered(ps, v, e, args, col, resolutions, definitions, vp)
}

/// No pattern is a variant pattern (so no payload column is checked).
pub open spec fn no_variant_patterns(ps: Seq<&Pattern>) -> bool {
    forall|k: int| 0 <= k < ps.len() ==> !((#[trigger] ps[k]).kind is Variant)
}

/// A catch-all pattern for any scrutinee: `_` or a binding.
pub open spec fn is_catch_all(p: Pattern) -> bool {
    p.kind is Wildcard || p.kind is Ident
}

/// The patterns cover both `true` and `false`.
pub open spec fn bool_covered(ps: Seq<&Pattern>) -> bool {
    ||| exists|i: int| 0 <= i < ps.len() && is_catch_all(*#[trigger] ps[i])
    ||| (exists|i: int| 0 <= i < ps.len() && (#[trigger] ps[i]).kind == PatternKind::BoolLit(true))
            && (exists|i: int| 0 <= i < ps.len() && (#[trigger] ps[i]).kind == PatternKind::BoolLit(false))
}

/// What the arms of a match on a value of type `t` must do at the top
/// level for the match to be exhaustive.
pub open spec fn top_level_covered(
    t: TyV,
    ps: Seq<&Pattern>,
    resolutions: ResolveTable,
    definitions: DefinitionTable,
    vp: DefMap<VariantPayload>,
) -> bool {
    match t {
        TyV::Enum(e, _) => enum_covered(ps, e, resolutions, definitions, vp),
        TyV::Bool => bool_covered(ps),
        TyV::Int | TyV::Scalar(_) | TyV::Str | TyV::Vec(_, _) | TyV::Mat(_, _) | TyV::Array(_) | TyV::Dict(_, _) =>
            exists|i: int| 0 <= i < ps.len() && is_catch_all(*#[trigger] ps[i]),
        TyV::Function(_, _) => false,
        _ => true,
    }
}

/// Some arm is the wildcard `_`.
pub open spec fn has_wildcard_arm(arms: Seq<MatchArm>) -> bool {
    exists|i: int| 0 <= i < arms.len() && (#[trigger] arms[i]).pattern.kind is Wildcard
}

/// Diagnostics for the arms of a match on a value of type `scrut_ty`.
/// All are sema errors, and a match with a `_` arm on anything but a
/// function value has none. When there are none, the arms cover every
/// value of the scrutinee's type at the top level: every variant of an
/// enum, both booleans, or anything at all through a catch-all.
/// Conversely, on a scrutinee other than an enum, covering it is enough
/// for there to be none; on an enum whose variants have distinct names,
/// so is covering every variant when no arm is a variant pattern (whose
/// payload columns are checked in turn). When there are none on an enum
/// and no arm catches everything, each variant's payload columns that the
/// variant patterns give cover, at the top level, the payload types with
/// the enum's type arguments put in (an `Int` column of literals alone
/// does not).
pub fn check_exhaustive(
    scrut_ty: &Ty,
    arms: &Vec<MatchArm>,
    span: Span,
    resolutions: &ResolveTable,
    definitions: &DefinitionTable,
    variant_payloads: &DefMap<VariantPayload>,
) -> (r: Vec<Diagnostic>)
    ensures
        all_sema_errors(r@),
        has_wildcard_arm(arms@) && !(scrut_ty@ is Function) ==> r@.len() == 0,
        r@.len() == 0 ==> top_level_covered(scrut_ty@, arm_patterns(&arms@), *resolutions, *definitions, *variant_payloads),
        !(scrut_ty@ is Enum) ==> (r@.len() == 0 <==> top_level_covered(
            scrut_ty@,
            arm_patterns(&arms@),
            *resolutions,
            *definitions,
            *variant_payloads,
        )),
        scrut_ty@ matches TyV::Enum(e, _) && top_level_covered(
            scrut_ty@,
            arm_patterns(&arms@),
            *resolutions,
            *definitions,
            *variant_payloads,
        ) && distinct_variant_names(*variant_payloads, e, *definitions) && no_variant_patterns(arm_patterns(&arms@))
            ==> r@.len() == 0,
        scrut_ty@ matches TyV::Enum(e, args) ==> (r@.len() == 0
            && (forall|k: int| 0 <= k < arms@.len() ==> !enum_catch_all(#[trigger] arms@[k].pattern, e, *definitions, *variant_payloads))
            ==> payload_columns_covered(arm_patterns(&arms@), e, args, *resolutions, *definitions, *variant_payloads)),
{
    let mut patterns: Vec<&Pattern> = Vec::new();
    let mut i: usize = 0;
    while i < arms.len()
        invariant
            i <= arms@.len(),
            patterns@.len() == i,
            forall|k: int| 0 <= k < i ==> *(#[trigger] patterns@[k]) == arms@[k].pattern,
        decreases arms@.len() - i,
    {
        patterns.push(&arms[i].pattern);
        i = i + 1;
    }
    proof {
        assert(patterns@ =~= arm_patterns(&arms@));
        if has_wildcard_arm(arms@) {
            let k = choose|k: int| 0 <= k < arms@.len() && (#[trigger] arms@[k]).pattern.kind is Wildcard;
            assert(patterns@[k].kind is Wildcard);
        }
    }
    check_patterns(scrut_ty, &patterns, span, resolutions, definitions, variant_payloads, true)
}

/// The arms' patterns, in order.
pub open spec fn arm_patterns<'a>(arms: &'a Seq<MatchArm>) -> Seq<&'a Pattern> {
    Seq::new(arms.len(), |i: int| &arms[i].pattern)
}

pub open spec fn has_wildcard(ps: Seq<&Pattern>) -> bool {
    exists|i: int| 0 <= i < ps.len() && (#[trigger] ps[i]).kind is Wildcard
}

fn check_patterns(
    scrut_ty: &Ty,
    patterns: &Vec<&Pattern>,
    span: Span,
    resolutions: &ResolveTable,
    definitions: &DefinitionTable,
    variant_payloads: &DefMap<VariantPayload>,
    recurse_payload: bool,
) -> (r: Vec<Diagnostic>)
    ensures
        all_sema_errors(r@),
        has_wildcard(patterns@) && !(scrut_ty@ is Function) ==> r@.len() == 0,
        r@.len() == 0 ==> top_level_covered(scrut_ty@, patterns@, *resolutions, *definitions, *variant_payloads),
        !(scrut_ty@ is Enum) ==> (r@.len() == 0 <==> top_level_covered(
            scrut_ty@,
            patterns@,
            *resolutions,
            *definitions,
            *variant_payloads,
        )),
        scrut_ty@ matches TyV::Enum(e, _) && top_level_covered(scrut_ty@, patterns@, *resolutions, *definitions, *variant_payloads)
            && distinct_variant_names(*variant_payloads, e, *definitions) && (!recurse_payload || no_variant_patterns(
            patterns@,
        )) ==> r@.len() == 0,
        scrut_ty@ matches TyV::Enum(e, args) ==> (recurse_payload && r@.len() == 0
            && (forall|k: int| 0 <= k < patterns@.len() ==> !enum_catch_all(*#[trigger] patterns@[k], e, *definitions, *variant_payloads))
            ==> payload_columns_covered(patterns@, e, args, *resolutions, *definitions, *variant_payloads)),
    decreases (if recurse_payload { 1nat } else { 0nat }), 1nat,
{
    match scrut_ty {
        Ty::Enum(def_id, type_args) => check_enum_coverage(
            *def_id,
            type_args,
            patterns,
            span,
            resolutions,
            definitions,
            variant_payloads,
            recurse_payload,
        ),
        Ty::Bool => check_bool_coverage(patterns, span),
        Ty::Int | Ty::Scalar(_) | Ty::String | Ty::Vec(_, _) | Ty::Mat(_, _) | Ty::Array(_) | Ty::Dict(_, _) => {
            require_catchall(patterns, span, kind_name(scrut_ty))
        },
        Ty::Function(_, _) => {
            let mut v: Vec<Diagnostic> = Vec::new();
            v.push(Diagnostic::type_error(span, "match on function value is not allowed"));
            v
        },
        _ => Vec::new(),
    }
}

/// A catch-all arm: `_` or a binding.
fn has_catchall(patterns: &Vec<&Pattern>) -> (r: bool)
    ensures
        has_wildcard(patterns@) ==> r,
        r == exists|i: int| 0 <= i < patterns@.len() && is_catch_all(*#[trigger] patterns@[i]),
{
    let mut i: usize = 0;
    while i < patterns.len()
        invariant
            i <= patterns@.len(),
            forall|k: int| 0 <= k < i ==> !is_catch_all(*#[trigger] patterns@[k]),
        decreases patterns@.len() - i,
    {
        if matches!(patterns[i].kind, PatternKind::Wildcard | PatternKind::Ident(_)) {
            return true;
        }
        i = i + 1;
    }
    false
}

fn require_catchall(patterns: &Vec<&Pattern>, span: Span, kind: &str) -> (r: Vec<Diagnostic>)
    ensures
        all_sema_errors(r@),
        has_wildcard(patterns@) ==> r@.len() == 0,
        r@.len() == 0 <==> exists|i: int| 0 <= i < patterns@.len() && is_catch_all(*#[trigger] patterns@[i]),
{
    let mut v: Vec<Diagnostic> = Vec::new();
    if !has_catchall(patterns) {
        v.push(crate::sema::diag::requires_wildcard(span, kind));
    }
    v
}

fn check_bool_coverage(patterns: &Vec<&Pattern>, span: Span) -> (r: Vec<Diagnostic>)
    ensures
        all_sema_errors(r@),
        has_wildcard(patterns@) ==> r@.len() == 0,
        r@.len() == 0 <==> bool_covered(patterns@),
{
    let mut v: Vec<Diagnostic> = Vec::new();
    if has_catchall(patterns) {
        return v;
    }
    let mut seen_true = false;
    let mut seen_false = false;
    let mut i: usize = 0;
    while i < patterns.len()
        invariant
            i <= patterns@.len(),
            seen_true <==> exists|k: int| 0 <= k < i && (#[trigger] patterns@[k]).kind == PatternKind::BoolLit(true),
            seen_false <==> exists|k: int| 0 <= k < i && (#[trigger] patterns@[k]).kind == PatternKind::BoolLit(false),
        decreases patterns@.len() - i,
    {
        if let PatternKind::BoolLit(b) = &patterns[i].kind {
            if *b {
                seen_true = true;
            } else {
                seen_false = true;
            }
        }
        i = i + 1;
    }
    let mut missing: Vec<String> = Vec::new();
    if !seen_true {
        missing.push(string_of("true"));
    }
    if !seen_false {
        missing.push(string_of("false"));
    }
    if missing.len() > 0 {
        v.push(crate::sema::diag::non_exhaustive_bool(span, &missing));
    }
    v
}

/// The variant of the enum named `name`, if it has one.
fn variant_def_by_name(name: &str, all_variants: &Vec<DefId>, definitions: &DefinitionTable) -> (r: Option<DefId>)
    ensures
        r matches Some(d) ==> all_variants@.contains(d) && named(*definitions, d, name@),
        r is None ==> forall|k: int| 0 <= k < all_variants@.len() ==> !named(*definitions, #[trigger] all_variants@[k], name@),
{
    let mut i: usize = 0;
    while i < all_variants.len()
        invariant
            i <= all_variants@.len(),
            forall|k: int| 0 <= k < i ==> !named(*definitions, #[trigger] all_variants@[k], name@),
        decreases all_variants@.len() - i,
    {
        if let Some(info) = definitions.get(&all_variants[i]) {
            if str_eq(info.name.as_str(), name) {
                return Some(all_variants[i]);
            }
        }
        i = i + 1;
    }
    None
}

fn contains_def(v: &Vec<DefId>, d: DefId) -> (r: bool)
    ensures
        r == v@.contains(d),
{
    let mut i: usize = 0;
    while i < v.len()
        invariant
            i <= v@.len(),
            forall|k: int| 0 <= k < i ==> v@[k] != d,
        decreases v@.len() - i,
    {
        if v[i].0 == d.0 {
            return true;
        }
        i = i + 1;
    }
    false
}

/// The diagnostics of a match over the enum `def_id`: none when a pattern
/// catches every value; else, when variants are left out, first one that
/// lists their names in declaration order, then those of the payload
/// columns of the covered variants.
#[verifier::loop_isolation(false)]
#[verifier::rlimit(40)]
fn check_enum_coverage(
    def_id: DefId,
    type_args: &Vec<Ty>,
    patterns: &Vec<&Pattern>,
    span: Span,
    resolutions: &ResolveTable,
    definitions: &DefinitionTable,
    variant_payloads: &DefMap<VariantPayload>,
    recurse_payload: bool,
) -> (r: Vec<Diagnostic>)
    ensures
        all_sema_errors(r@),
        has_wildcard(patterns@) ==> r@.len() == 0,
        r@.len() == 0 ==> enum_covered(patterns@, def_id, *resolutions, *definitions, *variant_payloads),
        enum_covered(patterns@, def_id, *resolutions, *definitions, *variant_payloads) && distinct_variant_names(
            *variant_payloads,
            def_id,
            *definitions,
        ) && (!recurse_payload || no_variant_patterns(patterns@)) ==> r@.len() == 0,
        distinct_variant_names(*variant_payloads, def_id, *definitions)
            && (forall|k: int| 0 <= k < patterns@.len() ==> !enum_catch_all(*#[trigger] patterns@[k], def_id, *definitions, *variant_payloads))
            ==> exists|vs: Seq<DefId>| #[trigger] missing_in_order(vs, patterns@, def_id, *resolutions, *definitions, *variant_payloads)
                && (vs.len() > 0 ==> r@.len() > 0 && sema_error(r@[0], span,
                    "non-exhaustive match: missing variant(s) "@ + join_names(def_names(*definitions, vs)))),
        recurse_payload && r@.len() == 0
            && (forall|k: int| 0 <= k < patterns@.len() ==> !enum_catch_all(*#[trigger] patterns@[k], def_id, *definitions, *variant_payloads))
            ==> payload_columns_covered(patterns@, def_id, tys_view(type_args@), *resolutions, *definitions, *variant_payloads),
    decreases (if recurse_payload { 1nat } else { 0nat }), 0nat,
{
    // The enum's variants, in declaration (id) order.
    let keys = variant_payloads.keys();
    let mut all_variants: Vec<DefId> = Vec::new();
    let mut i: usize = 0;
    while i < keys.len()
        invariant
            i <= keys@.len(),
            forall|a: int| 0 <= a < all_variants@.len() ==> is_variant_of(*variant_payloads, def_id, #[trigger] all_variants@[a]),
            forall|j: int| 0 <= j < i && is_variant_of(*variant_payloads, def_id, #[trigger] keys@[j]) ==> all_variants@.contains(keys@[j]),
            forall|a: int, b: int| 0 <= a < b < all_variants@.len() ==> (#[trigger] all_variants@[a]).0 < (#[trigger] all_variants@[b]).0,
            i < keys@.len() ==> forall|a: int| 0 <= a < all_variants@.len() ==> (#[trigger] all_variants@[a]).0 < keys@[i as int].0,
        decreases keys@.len() - i,
    {
        let ghost prev = all_variants@;
        if let Some(info) = variant_payloads.get(&keys[i]) {
            if info.parent_enum.0 == def_id.0 {
                all_variants.push(keys[i]);
            }
        }
        proof {
            assert forall|j: int| 0 <= j < i + 1 && is_variant_of(*variant_payloads, def_id, #[trigger] keys@[j]) implies all_variants@.contains(keys@[j]) by {
                if j < i {
                    assert(prev.contains(keys@[j]));
                    let a = choose|a: int| 0 <= a < prev.len() && prev[a] == keys@[j];
                    assert(all_variants@[a] == prev[a]);
                } else {
                    assert(all_variants@[all_variants@.len() - 1] == keys@[j]);
                }
            }
        }
        i = i + 1;
    }
    proof {
        assert forall|d: DefId| is_variant_of(*variant_payloads, def_id, d) implies #[trigger] all_variants@.contains(d) by {
            let j = choose|j: int| 0 <= j < keys@.len() && keys@[j] == d;
            assert(is_variant_of(*variant_payloads, def_id, keys@[j]));
        }
    }

    let mut covered: Vec<DefId> = Vec::new();
    let mut i: usize = 0;
    while i < patterns.len()
        invariant
            i <= patterns@.len(),
            forall|k: int| 0 <= k < i ==> !((#[trigger] patterns@[k]).kind is Wildcard),
            forall|a: int| 0 <= a < covered@.len() ==> exists|k: int| 0 <= k < i && covers_variant(*#[trigger] patterns@[k], #[trigger] covered@[a], *resolutions, *definitions),
            forall|k: int| 0 <= k < i ==> !enum_catch_all(*#[trigger] patterns@[k], def_id, *definitions, *variant_payloads),
            distinct_variant_names(*variant_payloads, def_id, *definitions) ==> forall|k: int, d: DefId|
                0 <= k < i && is_variant_of(*variant_payloads, def_id, d) && #[trigger] covers_variant(*patterns@[k], d, *resolutions, *definitions)
                    ==> covered@.contains(d),
            forall|d: DefId| is_variant_of(*variant_payloads, def_id, d) ==> #[trigger] all_variants@.contains(d),
            forall|a: int| 0 <= a < all_variants@.len() ==> is_variant_of(*variant_payloads, def_id, #[trigger] all_variants@[a]),
            forall|a: int, b: int| 0 <= a < b < all_variants@.len() ==> (#[trigger] all_variants@[a]).0 < (#[trigger] all_variants@[b]).0,
        decreases patterns@.len() - i,
    {
        let p = patterns[i];
        let ghost cov0 = covered@;
        match &p.kind {
            PatternKind::Wildcard => {
                proof { assert(enum_catch_all(*patterns@[i as int], def_id, *definitions, *variant_payloads)); }
                return Vec::new();
            },
            PatternKind::Ident(name) => {
                match variant_def_by_name(name.as_str(), &all_variants, definitions) {
                    Some(v) => {
                        if !contains_def(&covered, v) {
                            covered.push(v);
                        }
                        proof {
                            assert(covers_variant(*patterns@[i as int], v, *resolutions, *definitions));
                            assert(is_variant_of(*variant_payloads, def_id, v));
                            assert(!enum_catch_all(*patterns@[i as int], def_id, *definitions, *variant_payloads));
                            if cov0.contains(v) {
                                let a = choose|a: int| 0 <= a < cov0.len() && cov0[a] == v;
                                assert(covered@[a] == cov0[a]);
                            } else {
                                assert(covered@[covered@.len() - 1] == v);
                            }
                            assert(covered@.contains(v));
                            assert forall|k: int, d: DefId|
                                distinct_variant_names(*variant_payloads, def_id, *definitions) && 0 <= k < i + 1
                                    && is_variant_of(*variant_payloads, def_id, d)
                                    && #[trigger] covers_variant(*patterns@[k], d, *resolutions, *definitions)
                                implies covered@.contains(d) by {
                                if k < i {
                                    assert(cov0.contains(d));
                                    let a = choose|a: int| 0 <= a < cov0.len() && cov0[a] == d;
                                    assert(covered@[a] == cov0[a]);
                                } else {
                                    assert(named(*definitions, d, name@));
                                    assert(named(*definitions, v, name@));
                                }
                            }
                        }
                    },
                    None => {
                        proof {
                            assert forall|d: DefId| is_variant_of(*variant_payloads, def_id, d) implies !#[trigger] named(*definitions, d, name@) by {
                                assert(all_variants@.contains(d));
                            }
                            assert(enum_catch_all(*patterns@[i as int], def_id, *definitions, *variant_payloads));
                        }
                        return Vec::new();
                    },
                }
            },
            PatternKind::Variant(_, _) => {
                if let Some(v) = resolutions.get(&p.id) {
                    if let Some(info) = variant_payloads.get(v) {
                        if info.parent_enum.0 == def_id.0 && !contains_def(&covered, *v) {
                            covered.push(*v);
                            proof {
                                assert(covers_variant(*patterns@[i as int], *v, *resolutions, *definitions));
                            }
                        }
                    }
                }
                proof {
                    assert forall|k: int, d: DefId|
                        distinct_variant_names(*variant_payloads, def_id, *definitions) && 0 <= k < i + 1
                            && is_variant_of(*variant_payloads, def_id, d)
                            && #[trigger] covers_variant(*patterns@[k], d, *resolutions, *definitions)
                        implies covered@.contains(d) by {
                        if k < i {
                            assert(cov0.contains(d));
                            let a = choose|a: int| 0 <= a < cov0.len() && cov0[a] == d;
                            assert(covered@[a] == cov0[a]);
                        } else {
                            assert(resolutions.at(p.id) == Some(d));
                            if !cov0.contains(d) {
                                assert(covered@[covered@.len() - 1] == d);
                            } else {
                                let a = choose|a: int| 0 <= a < cov0.len() && cov0[a] == d;
                                assert(covered@[a] == cov0[a]);
                            }
                        }
                    }
                }
            },
            _ => {
                proof {
                    assert(!enum_catch_all(*patterns@[i as int], def_id, *definitions, *variant_payloads));
                    assert forall|k: int, d: DefId|
                        distinct_variant_names(*variant_payloads, def_id, *definitions) && 0 <= k < i + 1
                            && is_variant_of(*variant_payloads, def_id, d)
                            && #[trigger] covers_variant(*patterns@[k], d, *resolutions, *definitions)
                        implies covered@.contains(d) by {
                    }
                }
            },
        }
        proof {
            assert forall|a: int| 0 <= a < covered@.len() implies exists|k: int| 0 <= k < i + 1 && covers_variant(*#[trigger] patterns@[k], #[trigger] covered@[a], *resolutions, *definitions) by {
                if a < cov0.len() {
                    assert(covered@[a] == cov0[a]);
                }
            }
        }
        i = i + 1;
    }

    let mut diags: Vec<Diagnostic> = Vec::new();
    let mut missing: Vec<String> = Vec::new();
    let ghost mut mv: Seq<DefId> = Seq::empty();
    let mut i: usize = 0;
    while i < all_variants.len()
        invariant
            i <= all_variants@.len(),
            mv.len() == missing@.len(),
            forall|q: int| 0 <= q < mv.len() ==> (#[trigger] missing@[q])@ == definitions.at(mv[q])->0.name@,
            forall|a: int, b: int| 0 <= a < b < mv.len() ==> (#[trigger] mv[a]).0 < (#[trigger] mv[b]).0,
            i < all_variants@.len() ==> forall|q: int| 0 <= q < mv.len() ==> (#[trigger] mv[q]).0 < all_variants@[i as int].0,
            forall|q: int| 0 <= q < mv.len() ==> all_variants@.subrange(0, i as int).contains(#[trigger] mv[q]),
            forall|a: int| 0 <= a < i ==> (mv.contains(#[trigger] all_variants@[a]) <==> (!covered@.contains(all_variants@[a])
                && definitions.at(all_variants@[a]) is Some)),
            forall|a: int, b: int| 0 <= a < b < all_variants@.len() ==> (#[trigger] all_variants@[a]).0 < (#[trigger] all_variants@[b]).0,
            missing@.len() == 0 ==> forall|a: int| 0 <= a < i ==> covered@.contains(#[trigger] all_variants@[a]) || definitions.at(all_variants@[a]) is None,
            enum_covered(patterns@, def_id, *resolutions, *definitions, *variant_payloads) && distinct_variant_names(
                *variant_payloads,
                def_id,
                *definitions,
            ) ==> missing@.len() == 0,
        decreases all_variants@.len() - i,
    {
        let ghost mv0 = mv;
        if !contains_def(&covered, all_variants[i]) {
            if let Some(info) = definitions.get(&all_variants[i]) {
                missing.push(info.name.clone());
                proof { mv = mv.push(all_variants@[i as int]); }
            }
        }
        proof {
            let v = all_variants@[i as int];
            assert(all_variants@.subrange(0, i as int + 1) =~= all_variants@.subrange(0, i as int).push(v));
            assert forall|q: int| 0 <= q < mv.len() implies all_variants@.subrange(0, i as int + 1).contains(#[trigger] mv[q]) by {
                if q < mv0.len() {
                    assert(mv[q] == mv0[q]);
                    let a = choose|a: int| 0 <= a < i && all_variants@.subrange(0, i as int)[a] == mv0[q];
                    assert(all_variants@.subrange(0, i as int + 1)[a] == mv0[q]);
                } else {
                    assert(all_variants@.subrange(0, i as int + 1)[i as int] == v);
                }
            }
            assert forall|a: int| 0 <= a < i + 1 implies (mv.contains(#[trigger] all_variants@[a]) <==> (!covered@.contains(all_variants@[a])
                && definitions.at(all_variants@[a]) is Some)) by {
                let w = all_variants@[a];
                if mv.contains(w) && mv != mv0 {
                    let q = choose|q: int| 0 <= q < mv.len() && mv[q] == w;
                    if q < mv0.len() {
                        assert(mv0[q] == w);
                        assert(mv0.contains(w));
                    }
                }
                if mv0.contains(w) {
                    let q = choose|q: int| 0 <= q < mv0.len() && mv0[q] == w;
                    assert(mv[q] == w);
                }
                if a < i && mv0.contains(w) == false && mv.contains(w) {
                    let q = choose|q: int| 0 <= q < mv.len() && mv[q] == w;
                    assert(q == mv0.len());
                    assert(w == v);
                }
                if a == i && mv != mv0 {
                    assert(mv[mv.len() - 1] == v);
                }
                if a == i && mv0.contains(v) {
                    let q = choose|q: int| 0 <= q < mv0.len() && mv0[q] == v;
                }
            }
        }
        i = i + 1;
    }
    proof {
        assert forall|d: DefId| #[trigger] mv.contains(d) <==> (is_variant_of(*variant_payloads, def_id, d) && definitions.at(d) is Some
            && !covered@.contains(d)) by {
            if mv.contains(d) {
                let q = choose|q: int| 0 <= q < mv.len() && mv[q] == d;
                assert(all_variants@.subrange(0, all_variants@.len() as int).contains(mv[q]));
                let a = choose|a: int| 0 <= a < all_variants@.len() && all_variants@.subrange(0, all_variants@.len() as int)[a] == d;
                assert(all_variants@[a] == d);
            }
            if is_variant_of(*variant_payloads, def_id, d) {
                assert(all_variants@.contains(d));
                let a = choose|a: int| 0 <= a < all_variants@.len() && all_variants@[a] == d;
                assert(all_variants@[a] == d);
            }
        }
        assert(names_view(missing@) =~= def_names(*definitions, mv));
    }
    if missing.len() > 0 {
        diags.push(crate::sema::diag::non_exhaustive_enum(span, &missing));
    } else {
        proof {
            assert forall|d: DefId| #[trigger] is_variant_of(*variant_payloads, def_id, d) && definitions.at(d) is Some
                implies exists|k: int| 0 <= k < patterns@.len() && covers_variant(*#[trigger] patterns@[k], d, *resolutions, *definitions) by {
                assert(all_variants@.contains(d));
                let a = choose|a: int| 0 <= a < all_variants@.len() && all_variants@[a] == d;
                assert(covered@.contains(all_variants@[a]));
                let c = choose|c: int| 0 <= c < covered@.len() && covered@[c] == d;
                assert(covered@[c] == d);
            }
        }
    }
    let ghost top_ok = diags@.len() == 0;
    let ghost d_top = diags@;
    proof {
        if distinct_variant_names(*variant_payloads, def_id, *definitions) {
            assert forall|d: DefId| #[trigger] mv.contains(d) <==> (is_variant_of(*variant_payloads, def_id, d) && definitions.at(d) is Some
                && !some_covers(patterns@, d, *resolutions, *definitions)) by {
                if is_variant_of(*variant_payloads, def_id, d) {
                    if covered@.contains(d) {
                        let a = choose|a: int| 0 <= a < covered@.len() && covered@[a] == d;
                        let k = choose|k: int| 0 <= k < patterns@.len() && covers_variant(*#[trigger] patterns@[k], #[trigger] covered@[a], *resolutions, *definitions);
                        assert(some_covers(patterns@, d, *resolutions, *definitions));
                    }
                    if some_covers(patterns@, d, *resolutions, *definitions) {
                        let k = choose|k: int| 0 <= k < patterns@.len() && #[trigger] covers_variant(*patterns@[k], d, *resolutions, *definitions);
                        assert(covered@.contains(d));
                    }
                }
            }
            assert(missing_in_order(mv, patterns@, def_id, *resolutions, *definitions, *variant_payloads));
        }
        if mv.len() > 0 {
            assert(d_top.len() == 1);
            assert(sema_error(d_top[0], span, "non-exhaustive match: missing variant(s) "@ + join_names(def_names(*definitions, mv))));
        }
    }

    if recurse_payload {
        // Payload columns of each variant covered by a variant pattern,
        // in variant order.
        let mut vi: usize = 0;
        while vi < all_variants.len()
            invariant
                all_sema_errors(diags@),
                !top_ok ==> diags@.len() > 0,
                top_ok && no_variant_patterns(patterns@) ==> diags@.len() == 0,
                d_top.len() <= diags@.len(),
                forall|q: int| 0 <= q < d_top.len() ==> diags@[q] == d_top[q],
                vi <= all_variants@.len(),
                diags@.len() == 0 ==> forall|w: DefId, c: int| all_variants@.subrange(0, vi as int).contains(w)
                    ==> #[trigger] column_covered(patterns@, w, def_id, tys_view(type_args@), c, *resolutions, *definitions, *variant_payloads),
            decreases all_variants@.len() - vi,
        {
            let v = all_variants[vi];
            let ghost dv = diags@;
            let mut arm_subs: Vec<&Vec<Pattern>> = Vec::new();
            let mut i: usize = 0;
            while i < patterns.len()
                invariant
                    i <= patterns@.len(),
                    no_variant_patterns(patterns@) ==> arm_subs@.len() == 0,
                    arm_subs@ == variant_subs(patterns@.subrange(0, i as int), v, def_id, *resolutions, *variant_payloads),
                decreases patterns@.len() - i,
            {
                proof {
                    assert(patterns@.subrange(0, i as int + 1).drop_last() =~= patterns@.subrange(0, i as int));
                    assert(patterns@.subrange(0, i as int + 1).last() == patterns@[i as int]);
                }
                let p = patterns[i];
                if let PatternKind::Variant(_, subs) = &p.kind {
                    if let Some(pv) = resolutions.get(&p.id) {
                        if pv.0 == v.0 {
                            if let Some(info) = variant_payloads.get(pv) {
                                if info.parent_enum.0 == def_id.0 {
                                    arm_subs.push(subs);
                                }
                            }
                        }
                    }
                }
                i = i + 1;
            }
            proof {
                assert(patterns@.subrange(0, patterns@.len() as int) =~= patterns@);
            }
            if arm_subs.len() > 0 {
                if let Some(info) = variant_payloads.get(&v) {
                    let substituted = crate::sema::ty::subst_tys(&info.payload, type_args);
                    proof {
                        lemma_tys_view_len(substituted@);
                        lemma_tys_view_len(info.payload@);
                        crate::sema::ty::lemma_substs_len(tys_view(info.payload@), tys_view(type_args@));
                    }
                    let mut col: usize = 0;
                    while col < substituted.len()
                        invariant
                            all_sema_errors(diags@),
                            !top_ok ==> diags@.len() > 0,
                            d_top.len() <= diags@.len(),
                            forall|q: int| 0 <= q < d_top.len() ==> diags@[q] == d_top[q],
                            dv.len() <= diags@.len(),
                            col <= substituted@.len(),
                            diags@.len() == 0 ==> forall|c: int| 0 <= c < col
                                ==> #[trigger] column_covered(patterns@, v, def_id, tys_view(type_args@), c, *resolutions, *definitions, *variant_payloads),
                        decreases substituted@.len() - col,
                    {
                        let mut column: Vec<&Pattern> = Vec::new();
                        let mut a: usize = 0;
                        while a < arm_subs.len()
                            invariant
                                a <= arm_subs@.len(),
                                column@ == column_of(arm_subs@.subrange(0, a as int), col as int),
                            decreases arm_subs@.len() - a,
                        {
                            proof {
                                assert(arm_subs@.subrange(0, a as int + 1).drop_last() =~= arm_subs@.subrange(0, a as int));
                                assert(arm_subs@.subrange(0, a as int + 1).last() == arm_subs@[a as int]);
                            }
                            if col < arm_subs[a].len() {
                                column.push(&arm_subs[a][col]);
                            }
                            a = a + 1;
                        }
                        proof {
                            assert(arm_subs@.subrange(0, arm_subs@.len() as int) =~= arm_subs@);
                            lemma_tys_view_index(substituted@, col as int);
                            lemma_substs_index(tys_view(info.payload@), tys_view(type_args@), col as int);
                        }
                        let ghost d_col = diags@;
                        if column.len() > 0 {
                            let mut sub = check_patterns(&substituted[col], &column, span, resolutions, definitions, variant_payloads, false);
                            let ghost before = diags@;
                            diags.append(&mut sub);
                            proof {
                                assert forall|q: int| 0 <= q < d_top.len() implies diags@[q] == d_top[q] by {
                                    assert(diags@[q] == before[q]);
                                }
                            }
                        }
                        proof {
                            assert(diags@.len() == 0 ==> column_covered(patterns@, v, def_id, tys_view(type_args@), col as int, *resolutions, *definitions, *variant_payloads));
                        }
                        col = col + 1;
                    }
                    proof {
                        assert forall|c: int| diags@.len() == 0 implies #[trigger] column_covered(patterns@, v, def_id, tys_view(type_args@), c, *resolutions, *definitions, *variant_payloads) by {
                            if 0 <= c < col {
                            }
                        }
                    }
                }
            }
            proof {
                if arm_subs@.len() == 0 {
                    assert forall|c: int| #[trigger] column_covered(patterns@, v, def_id, tys_view(type_args@), c, *resolutions, *definitions, *variant_payloads) by {
                        assert(payload_column(patterns@, v, def_id, c, *resolutions, *variant_payloads).len() == 0);
                    }
                }
                assert forall|w: DefId, c: int| diags@.len() == 0 && all_variants@.subrange(0, vi as int + 1).contains(w)
                    implies #[trigger] column_covered(patterns@, w, def_id, tys_view(type_args@), c, *resolutions, *definitions, *variant_payloads) by {
                    if w != v {
                        let sub1 = all_variants@.subrange(0, vi as int + 1);
                        let q = choose|q: int| 0 <= q < sub1.len() && sub1[q] == w;
                        assert(q < vi);
                        assert(all_variants@.subrange(0, vi as int)[q] == w);
                        assert(dv.len() == 0);
                    }
                }
            }
            vi = vi + 1;
        }
        proof {
            assert(all_variants@.subrange(0, all_variants@.len() as int) =~= all_variants@);
            assert forall|w: DefId, c: int| diags@.len() == 0 && is_variant_of(*variant_payloads, def_id, w)
                implies #[trigger] column_covered(patterns@, w, def_id, tys_view(type_args@), c, *resolutions, *definitions, *variant_payloads) by {
                assert(all_variants@.contains(w));
            }
        }
    }
    proof {
        if mv.len() > 0 {
            assert(diags@[0] == d_top[0]);
        }
        if distinct_variant_names(*variant_payloads, def_id, *definitions) {
            assert(missing_in_order(mv, patterns@, def_id, *resolutions, *definitions, *variant_payloads));
        }
    }
    diags
}

pub open spec fn kind_name_spec(t: TyV) -> Seq<char> {
    match t {
        TyV::Int => "Int"@,
        TyV::Scalar(_) => "Scalar"@,
        TyV::Str => "String"@,
        TyV::Vec(_, _) => "Vec"@,
        TyV::Mat(_, _) => "Mat"@,
        TyV::Array(_) => "Array"@,
        TyV::Dict(_, _) => "Dict"@,
        _ => "type"@,
    }
}

fn kind_name(ty: &Ty) -> (r: &'static str)
    ensures
        r@ == kind_name_spec(ty@),
{
    match ty {
        Ty::Int => "Int",
        Ty::Scalar(_) => "Scalar",
        Ty::String => "String",
        Ty::Vec(_, _) => "Vec",
        Ty::Mat(_, _) => "Mat",
        Ty::Array(_) => "Array",
        Ty::Dict(_, _) => "Dict",
        _ => "type",
    }
}

} // verus!
