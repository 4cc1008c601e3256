//! Semantic analysis: name resolution and type checking.

pub mod builtins;
pub mod check;
pub mod dimension;
pub mod diag;
pub mod exhaust;
pub mod precision;
pub mod resolve;
pub mod ty;
pub mod unify;
pub mod uses;

use vstd::prelude::*;
use crate::ast::{EnumDef, Item, Program};
use crate::diag::{appends_sema_errors, lemma_appends_refl, lemma_appends_trans, Diagnostic};
use crate::idmap::{DefMap, NodeMap};
use crate::ids::{DefId, NodeId};
use crate::sema::check::lemma_appends_keeps;
use crate::sema::exhaust::all_sema_errors;
use crate::sema::resolve::{BindingTable, DefinitionTable, ResolveTable};
use crate::sema::ty::{
    clone_tys, lemma_tys_view_index, lemma_tys_view_len, lower_spec, lower_type, lower_type_with_subst, names_of, tys_view, Ty, TyV,
    VariantPayload,
};

verus! {

broadcast use vstd::std_specs::vec::group_vec_axioms;

/// Per-expression types keyed by `NodeId`.
pub type TypeTable = NodeMap<Ty>;

/// Types of functions, parameters, variants and bindings, by `DefId`.
pub type DefTypeMap = DefMap<Ty>;

/// Struct `DefId` to its ordered `(field name, field type)` pairs.
pub type StructFieldMap = DefMap<Vec<(String, Ty)>>;

/// Enum-variant `DefId` to its parent enum and payload types.
pub type VariantPayloadMap = DefMap<VariantPayload>;

/// A program that passed semantic analysis, with its annotation tables.
#[derive(Debug)]
pub struct TypedProgram {
    pub program: Program,
    pub types: TypeTable,
    /// Use-site `NodeId` to the `DefId` it refers to.
    pub resolutions: ResolveTable,
    pub definitions: DefinitionTable,
    /// Binding-introduction `NodeId` to its `DefId`.
    pub binding_def_ids: BindingTable,
    pub def_types: DefTypeMap,
    pub struct_fields: StructFieldMap,
    pub variant_payloads: VariantPayloadMap,
    /// Precision warnings (accumulating floating-point additions in loops).
    pub warnings: Vec<Diagnostic>,
}

/// Run name resolution, signature lowering and type checking. A program
/// with any error is refused with all of them (every one a sema error);
/// otherwise the typed program is returned with its precision warnings:
/// one for each accumulating `Scalar` addition in a loop, in source order.
/// In its tables every resolved node is a use of a name that its
/// definition bears, distinct binding sites have distinct definitions, and
/// every bound struct has its declared fields. A program with no items
/// passes; one that binds a top-level name twice is refused, with each
/// repetition reported.
pub fn check(program: Program) -> (r: Result<TypedProgram, Vec<Diagnostic>>)
    ensures
        r matches Err(ds) ==> ds@.len() > 0 && all_sema_errors(ds@),
        program.items@.len() == 0 ==> r is Ok,
        resolve::hoists(program.items@, program.items@.len() as int).len() < u32::MAX ==> (r matches Err(ds)
            ==> resolve::dups_reported(resolve::hoists(program.items@, program.items@.len() as int), ds@)),
        resolve::hoists(program.items@, program.items@.len() as int).len() < u32::MAX
            && resolve::has_repeat(resolve::hoists(program.items@, program.items@.len() as int)) ==> r is Err,
        r matches Ok(t) ==> precision::all_sema_warnings(t.warnings@),
        r matches Ok(t) ==> forall|n: NodeId| #[trigger] t.resolutions.at(n) is Some
            ==> resolve::resolution_justified(uses::program_uses(program), t.definitions, n, t.resolutions.at(n)->0),
        r matches Ok(t) ==> resolve::distinct_bindings(t.binding_def_ids),
        r matches Ok(t) ==> forall|k: int| 0 <= k < program.items@.len() ==> (#[trigger] program.items@[k] matches Item::Struct(st)
            ==> (t.binding_def_ids.at(st.id) matches Some(d) ==> t.struct_fields.at(d) is Some)),
        r matches Ok(t) ==> forall|d: DefId| #[trigger] t.struct_fields.at(d) is Some
            ==> struct_fields_from(t.struct_fields.at(d)->0@, program.items@, d, t.binding_def_ids, t.resolutions, t.definitions),
        r matches Ok(t) ==> forall|v: DefId| #[trigger] t.variant_payloads.at(v) is Some ==> payload_from(
            t.variant_payloads.at(v)->0,
            program.items@,
            v,
            t.binding_def_ids,
            t.resolutions,
            t.definitions,
        ),
        r matches Ok(t) ==> t.program == program && precision::appended(
            Seq::empty(),
            t.warnings@,
            precision::items_ws(
                program.items@,
                program.items@.len() as int,
                precision::Tables {
                    types: t.types,
                    resolutions: t.resolutions,
                    definitions: t.definitions,
                    def_types: t.def_types,
                },
            ),
        ),
{
    let (resolutions, definitions, binding_def_ids, mut diags) = resolve::resolve_program(&program);
    let ghost d0 = diags@;
    let (def_types, struct_fields, variant_payloads) = signature_pass(
        &program,
        &resolutions,
        &definitions,
        &binding_def_ids,
        &mut diags,
    );
    proof { lemma_appends_keeps(d0, diags@); }
    let (types, tc) = check::run(
        &program,
        resolutions,
        definitions,
        binding_def_ids,
        def_types,
        struct_fields,
        variant_payloads,
    );
    let check::TypeChecker {
        resolutions,
        definitions,
        binding_def_ids,
        def_types,
        struct_fields,
        variant_payloads,
        types: _,
        diagnostics: mut type_diags,
        current_return_ty: _,
        unify_table: _,
    } = tc;
    let ghost d1 = diags@;
    let ghost td = type_diags@;
    diags.append(&mut type_diags);
    proof {
        assert forall|i: int| 0 <= i < diags@.len() implies (#[trigger] diags@[i]).phase == crate::diag::Phase::Sema
            && diags@[i].level == crate::diag::Level::Error by {
            if i >= d1.len() {
                assert(diags@[i] == td[i - d1.len()]);
            } else {
                assert(diags@[i] == d1[i]);
            }
        }
        let total = resolve::hoists(program.items@, program.items@.len() as int);
        if total.len() < u32::MAX {
            assert(diags@.subrange(0, d1.len() as int) =~= d1);
            assert(crate::diag::appends_sema_errors(d1, diags@));
            lemma_appends_trans(d0, d1, diags@);
            resolve::lemma_dups_keep(total, d0, diags@);
            if resolve::has_repeat(total) {
                resolve::lemma_repeat_reported(total, diags@);
            }
        }
    }
    if diags.len() > 0 {
        return Err(diags);
    }
    let warnings = precision::analyze(&program, &types, &resolutions, &definitions, &def_types);
    Ok(TypedProgram {
        program,
        types,
        resolutions,
        definitions,
        binding_def_ids,
        def_types,
        struct_fields,
        variant_payloads,
        warnings,
    })
}

/// `fields` are the fields of a struct item among `items` bound to `d`:
/// its field names, in order, each with its lowered annotation.
pub open spec fn struct_fields_from(
    fields: Seq<(String, Ty)>,
    items: Seq<Item>,
    d: DefId,
    binding_def_ids: BindingTable,
    resolutions: ResolveTable,
    definitions: DefinitionTable,
) -> bool {
    exists|k: int|
        0 <= k < items.len() && (#[trigger] items[k] matches Item::Struct(st) && binding_def_ids.at(st.id) == Some(d)
            && fields.len() == st.fields@.len() && forall|q: int| 0 <= q < fields.len() ==> (#[trigger] fields[q]).0@ == st.fields@[q].name@
                && fields[q].1@ == lower_spec(st.fields@[q].ty, resolutions, definitions, None))
}

/// The constructor type of a variant of the enum `ed` with `n` type
/// parameters whose payload lowers to `payload`: the enum applied to its
/// parameters, or a function from the payload to it.
pub open spec fn variant_schema(ed: DefId, n: nat, payload: Seq<TyV>) -> TyV {
    let ret = TyV::Enum(ed, Seq::new(n, |q: int| TyV::Param(q as usize)));
    if payload.len() == 0 {
        ret
    } else {
        TyV::Function(payload, Box::new(ret))
    }
}

/// The payload types of variant `j` of the enum `e`, lowered with the
/// enum's type parameters.
pub open spec fn variant_payload_spec(e: EnumDef, j: int, res: ResolveTable, defs: DefinitionTable) -> Seq<TyV> {
    let pl = e.variants@[j].payload@;
    Seq::new(pl.len(), |q: int| lower_spec(pl[q], res, defs, Some(names_of(e.type_params@))))
}

/// The item `it` gives the definition `d` the lowered type `t`: a
/// function its signature, a parameter its annotation, a top-level `let`
/// its annotation, an enum variant its constructor schema.
pub open spec fn item_gives(it: Item, t: TyV, d: DefId, bind: BindingTable, res: ResolveTable, defs: DefinitionTable) -> bool {
    match it {
        Item::Function(f) => {
            ||| bind.at(f.id) == Some(d) && t == TyV::Function(
                Seq::new(f.params@.len(), |q: int| lower_spec(f.params@[q].ty, res, defs, None)),
                Box::new(lower_spec(f.return_ty, res, defs, None)),
            )
            ||| exists|q: int| 0 <= q < f.params@.len() && bind.at(#[trigger] f.params@[q].id) == Some(d) && t == lower_spec(
                f.params@[q].ty,
                res,
                defs,
                None,
            )
        },
        Item::Let(l) => bind.at(l.init.id) == Some(d) && t == lower_spec(l.ty, res, defs, None),
        Item::Enum(e) => bind.at(e.id) matches Some(ed) && exists|j: int| 0 <= j < e.variants@.len() && bind.at(
            #[trigger] e.variants@[j].id,
        ) == Some(d) && t == variant_schema(ed, e.type_params@.len(), variant_payload_spec(e, j, res, defs)),
        _ => false,
    }
}

/// `t` is the lowered type some item among `items` gives `d`.
pub open spec fn def_type_from(t: TyV, items: Seq<Item>, d: DefId, bind: BindingTable, res: ResolveTable, defs: DefinitionTable) -> bool {
    exists|k: int| 0 <= k < items.len() && #[trigger] item_gives(items[k], t, d, bind, res, defs)
}

/// `info` is the payload entry an enum among `items` gives its variant
/// `v`: the enum it belongs to and its payload lowered with the enum's
/// type parameters.
pub open spec fn payload_from(
    info: VariantPayload,
    items: Seq<Item>,
    v: DefId,
    bind: BindingTable,
    res: ResolveTable,
    defs: DefinitionTable,
) -> bool {
    exists|k: int| 0 <= k < items.len() && (#[trigger] items[k] matches Item::Enum(e) && bind.at(e.id) == Some(info.parent_enum)
        && exists|j: int| 0 <= j < e.variants@.len() && bind.at(#[trigger] e.variants@[j].id) == Some(v)
            && tys_view(info.payload@) == variant_payload_spec(e, j, res, defs))
}

/// No item before the `k`-th is an enum bound to `ed`.
pub open spec fn first_enum_for(items: Seq<Item>, k: int, ed: DefId, bind: BindingTable) -> bool {
    forall|m: int| 0 <= m < k ==> !(#[trigger] items[m] matches Item::Enum(e2) && bind.at(e2.id) == Some(ed))
}

/// If the `k`-th item is the first enum bound to its definition, each of
/// its bound variants has a payload entry.
pub open spec fn variants_recorded(items: Seq<Item>, k: int, bind: BindingTable, payloads: VariantPayloadMap) -> bool {
    items[k] matches Item::Enum(e) ==> (bind.at(e.id) matches Some(ed) ==> (first_enum_for(items, k, ed, bind)
        ==> forall|j: int| 0 <= j < e.variants@.len() ==> (bind.at(#[trigger] e.variants@[j].id) matches Some(vd)
            ==> payloads.at(vd) is Some)))
}

/// What an item among a prefix of `items` gives, an item among a longer
/// prefix gives.
proof fn lemma_from_prefix(items: Seq<Item>, i: int, bind: BindingTable, res: ResolveTable, defs: DefinitionTable)
    requires
        0 <= i < items.len(),
    ensures
        forall|t: TyV, d: DefId| #[trigger] def_type_from(t, items.take(i), d, bind, res, defs) ==> def_type_from(t, items.take(i + 1), d, bind, res, defs),
        forall|info: VariantPayload, v: DefId| #[trigger] payload_from(info, items.take(i), v, bind, res, defs) ==> payload_from(info, items.take(i + 1), v, bind, res, defs),
        forall|t: TyV, d: DefId| #[trigger] item_gives(items[i], t, d, bind, res, defs) ==> def_type_from(t, items.take(i + 1), d, bind, res, defs),
{
    let t0 = items.take(i);
    let t1 = items.take(i + 1);
    assert forall|t: TyV, d: DefId| #[trigger] def_type_from(t, t0, d, bind, res, defs) implies def_type_from(t, t1, d, bind, res, defs) by {
        let k = choose|k: int| 0 <= k < t0.len() && #[trigger] item_gives(t0[k], t, d, bind, res, defs);
        assert(t1[k] == t0[k]);
    }
    assert forall|info: VariantPayload, v: DefId| #[trigger] payload_from(info, t0, v, bind, res, defs) implies payload_from(info, t1, v, bind, res, defs) by {
        let k = choose|k: int| 0 <= k < t0.len() && (#[trigger] t0[k] matches Item::Enum(e) && bind.at(e.id) == Some(info.parent_enum)
            && exists|j: int| 0 <= j < e.variants@.len() && bind.at(#[trigger] e.variants@[j].id) == Some(v)
                && tys_view(info.payload@) == variant_payload_spec(e, j, res, defs));
        assert(t1[k] == t0[k]);
    }
    assert forall|t: TyV, d: DefId| #[trigger] item_gives(items[i], t, d, bind, res, defs) implies def_type_from(t, t1, d, bind, res, defs) by {
        assert(t1[i] == items[i]);
    }
}

/// Lower every top-level signature: function parameter and return types,
/// struct fields, enum-variant payloads (with the enum's type parameters
/// as `Param`s) and declared top-level `let` types. An item whose name was
/// a duplicate has no binding and is skipped, so the first definition of a
/// name wins. Every bound function, top-level `let` and struct gets an
/// entry; a struct's entry lists its fields in order with their lowered
/// annotations. Every type entry is what some item gives its definition
/// (a function's lowered signature, a parameter's or top-level `let`'s
/// lowered annotation, a variant's constructor schema), and every payload
/// entry names the variant's enum and its payload lowered with the enum's
/// type parameters. Every bound variant of the first enum bound to a
/// definition gets a payload entry.
#[verifier::loop_isolation(false)]
pub fn signature_pass(
    program: &Program,
    resolutions: &ResolveTable,
    definitions: &DefinitionTable,
    binding_def_ids: &BindingTable,
    diags: &mut Vec<Diagnostic>,
) -> (r: (DefTypeMap, StructFieldMap, VariantPayloadMap))
    ensures
        appends_sema_errors(old(diags)@, final(diags)@),
        forall|k: int| 0 <= k < program.items@.len() ==> (#[trigger] program.items@[k] matches Item::Function(f)
            ==> (binding_def_ids.at(f.id) matches Some(d) ==> r.0.at(d) is Some)),
        forall|k: int| 0 <= k < program.items@.len() ==> (#[trigger] program.items@[k] matches Item::Let(l)
            ==> (binding_def_ids.at(l.init.id) matches Some(d) ==> r.0.at(d) is Some)),
        forall|k: int| 0 <= k < program.items@.len() ==> (#[trigger] program.items@[k] matches Item::Struct(st)
            ==> (binding_def_ids.at(st.id) matches Some(d) ==> r.1.at(d) is Some)),
        forall|d: DefId| #[trigger] r.1.at(d) is Some ==> struct_fields_from(r.1.at(d)->0@, program.items@, d, *binding_def_ids, *resolutions, *definitions),
        forall|d: DefId| #[trigger] r.0.at(d) is Some ==> def_type_from(r.0.at(d)->0@, program.items@, d, *binding_def_ids, *resolutions, *definitions),
        forall|v: DefId| #[trigger] r.2.at(v) is Some ==> payload_from(r.2.at(v)->0, program.items@, v, *binding_def_ids, *resolutions, *definitions),
        forall|k: int| 0 <= k < program.items@.len() ==> #[trigger] variants_recorded(program.items@, k, *binding_def_ids, r.2),
        program.items@.len() == 0 ==> final(diags)@ == old(diags)@,
{
    let mut def_types: DefTypeMap = DefMap::new();
    let mut struct_fields: StructFieldMap = DefMap::new();
    let mut variant_payloads: VariantPayloadMap = DefMap::new();
    let mut enums_lowered: Vec<DefId> = Vec::new();
    proof { lemma_appends_refl(diags@); }
    let mut i: usize = 0;
    while i < program.items.len()
        invariant
            appends_sema_errors(old(diags)@, diags@),
            i <= program.items@.len(),
            forall|k: int| 0 <= k < i ==> (#[trigger] program.items@[k] matches Item::Function(f)
                ==> (binding_def_ids.at(f.id) matches Some(d) ==> def_types.at(d) is Some)),
            forall|k: int| 0 <= k < i ==> (#[trigger] program.items@[k] matches Item::Let(l)
                ==> (binding_def_ids.at(l.init.id) matches Some(d) ==> def_types.at(d) is Some)),
            forall|k: int| 0 <= k < i ==> (#[trigger] program.items@[k] matches Item::Struct(st)
                ==> (binding_def_ids.at(st.id) matches Some(d) ==> struct_fields.at(d) is Some)),
            forall|d: DefId| #[trigger] struct_fields.at(d) is Some
                ==> struct_fields_from(struct_fields.at(d)->0@, program.items@.take(i as int), d, *binding_def_ids, *resolutions, *definitions),
            forall|x: DefId| #[trigger] def_types.at(x) is Some ==> def_type_from(def_types.at(x)->0@, program.items@.take(i as int), x, *binding_def_ids, *resolutions, *definitions),
            forall|x: DefId| #[trigger] variant_payloads.at(x) is Some ==> payload_from(variant_payloads.at(x)->0, program.items@.take(i as int), x, *binding_def_ids, *resolutions, *definitions),
            forall|ed: DefId| #[trigger] enums_lowered@.contains(ed) <==> !first_enum_for(program.items@, i as int, ed, *binding_def_ids),
            forall|k: int| 0 <= k < i ==> #[trigger] variants_recorded(program.items@, k, *binding_def_ids, variant_payloads),
            program.items@.len() == 0 ==> diags@ == old(diags)@,
        decreases program.items@.len() - i,
    {
        let ghost d_item = diags@;
        let ghost dt0 = def_types;
        let ghost sf0 = struct_fields;
        let ghost vp0 = variant_payloads;
        let ghost el0 = enums_lowered@;
        proof {
            lemma_from_prefix(program.items@, i as int, *binding_def_ids, *resolutions, *definitions);
            assert(forall|x: DefId| #[trigger] def_types.at(x) is Some ==> def_type_from(def_types.at(x)->0@, program.items@.take(i as int + 1), x, *binding_def_ids, *resolutions, *definitions));
            assert(forall|x: DefId| #[trigger] variant_payloads.at(x) is Some ==> payload_from(variant_payloads.at(x)->0, program.items@.take(i as int + 1), x, *binding_def_ids, *resolutions, *definitions));
        }
        match &program.items[i] {
            Item::Function(f) => {
                if let Some(def_id) = binding_def_ids.get(&f.id) {
                    let def_id = *def_id;
                    if !def_types.contains_key(&def_id) {
                        let mut param_tys: Vec<Ty> = Vec::new();
                        let mut j: usize = 0;
                        while j < f.params.len()
                            invariant
                                appends_sema_errors(old(diags)@, diags@),
                                param_tys@.len() == j,
                                j <= f.params@.len(),
                                forall|q: int| 0 <= q < j ==> (#[trigger] param_tys@[q])@ == lower_spec(f.params@[q].ty, *resolutions, *definitions, None),
                            decreases f.params@.len() - j,
                        {
                            let ghost d1 = diags@;
                            let t = lower_type(&f.params[j].ty, resolutions, definitions, diags);
                            proof { lemma_appends_trans(old(diags)@, d1, diags@); }
                            param_tys.push(t);
                            j = j + 1;
                        }
                        let ghost d2 = diags@;
                        let ret_ty = lower_type(&f.return_ty, resolutions, definitions, diags);
                        proof { lemma_appends_trans(old(diags)@, d2, diags@); }
                        let mut j: usize = 0;
                        while j < f.params.len()
                            invariant
                                param_tys@.len() == f.params@.len(),
                                forall|x: DefId| #[trigger] dt0.at(x) is Some ==> def_types.at(x) is Some,
                                forall|q: int| 0 <= q < f.params@.len() ==> (#[trigger] param_tys@[q])@ == lower_spec(f.params@[q].ty, *resolutions, *definitions, None),
                                forall|x: DefId| #[trigger] def_types.at(x) is Some ==> def_type_from(def_types.at(x)->0@, program.items@.take(i as int + 1), x, *binding_def_ids, *resolutions, *definitions),
                            decreases f.params@.len() - j,
                        {
                            if let Some(p_def) = binding_def_ids.get(&f.params[j].id) {
                                let t = param_tys[j].dup();
                                proof {
                                    assert(item_gives(program.items@[i as int], t@, *p_def, *binding_def_ids, *resolutions, *definitions)) by {
                                        assert(binding_def_ids.at(f.params@[j as int].id) == Some(*p_def));
                                    }
                                }
                                def_types.insert(*p_def, t);
                            }
                            j = j + 1;
                        }
                        let ft = Ty::Function(param_tys, Box::new(ret_ty));
                        proof {
                            lemma_tys_view_len(param_tys@);
                            assert forall|q: int| 0 <= q < param_tys@.len() implies tys_view(param_tys@)[q] == lower_spec(f.params@[q].ty, *resolutions, *definitions, None) by {
                                lemma_tys_view_index(param_tys@, q);
                            }
                            assert(tys_view(param_tys@) =~= Seq::new(f.params@.len(), |q: int| lower_spec(f.params@[q].ty, *resolutions, *definitions, None)));
                            assert(item_gives(program.items@[i as int], ft@, def_id, *binding_def_ids, *resolutions, *definitions));
                        }
                        def_types.insert(def_id, ft);
                    }
                }
            },
            Item::Struct(st) => {
                if let Some(def_id) = binding_def_ids.get(&st.id) {
                    let def_id = *def_id;
                    if !struct_fields.contains_key(&def_id) {
                        let mut fields: Vec<(String, Ty)> = Vec::new();
                        let mut j: usize = 0;
                        while j < st.fields.len()
                            invariant
                                appends_sema_errors(old(diags)@, diags@),
                                j <= st.fields@.len(),
                                fields@.len() == j,
                                forall|q: int| 0 <= q < j ==> (#[trigger] fields@[q]).0@ == st.fields@[q].name@
                                    && fields@[q].1@ == lower_spec(st.fields@[q].ty, *resolutions, *definitions, None),
                            decreases st.fields@.len() - j,
                        {
                            let ghost d1 = diags@;
                            let t = lower_type(&st.fields[j].ty, resolutions, definitions, diags);
                            proof { lemma_appends_trans(old(diags)@, d1, diags@); }
                            fields.push((st.fields[j].name.clone(), t));
                            j = j + 1;
                        }
                        let ghost fv = fields@;
                        struct_fields.insert(def_id, fields);
                        proof {
                            let t1 = program.items@.take(i as int + 1);
                            assert(t1[i as int] == program.items@[i as int]);
                            assert(struct_fields_from(fv, t1, def_id, *binding_def_ids, *resolutions, *definitions));
                        }
                    }
                }
            },
            Item::Enum(e) => {
                if let Some(enum_def_id) = binding_def_ids.get(&e.id) {
                    let enum_def_id = *enum_def_id;
                    if !contains_id(&enums_lowered, enum_def_id) {
                        enums_lowered.push(enum_def_id);
                        let mut return_args: Vec<Ty> = Vec::new();
                        let mut k: usize = 0;
                        while k < e.type_params.len()
                            invariant
                                k <= e.type_params@.len(),
                                return_args@.len() == k,
                                forall|q: int| 0 <= q < k ==> (#[trigger] return_args@[q])@ == TyV::Param(q as usize),
                            decreases e.type_params@.len() - k,
                        {
                            return_args.push(Ty::Param(k));
                            k = k + 1;
                        }
                        let mut j: usize = 0;
                        while j < e.variants.len()
                            invariant
                                appends_sema_errors(old(diags)@, diags@),
                                forall|x: DefId| #[trigger] dt0.at(x) is Some ==> def_types.at(x) is Some,
                                forall|x: DefId| #[trigger] def_types.at(x) is Some ==> def_type_from(def_types.at(x)->0@, program.items@.take(i as int + 1), x, *binding_def_ids, *resolutions, *definitions),
                                forall|x: DefId| #[trigger] variant_payloads.at(x) is Some ==> payload_from(variant_payloads.at(x)->0, program.items@.take(i as int + 1), x, *binding_def_ids, *resolutions, *definitions),
                                return_args@.len() == e.type_params@.len(),
                                forall|q: int| 0 <= q < return_args@.len() ==> (#[trigger] return_args@[q])@ == TyV::Param(q as usize),
                                forall|x: DefId| #[trigger] vp0.at(x) is Some ==> variant_payloads.at(x) is Some,
                                j <= e.variants@.len(),
                                forall|q: int| 0 <= q < j ==> (binding_def_ids.at(#[trigger] e.variants@[q].id) matches Some(vd)
                                    ==> variant_payloads.at(vd) is Some),
                            decreases e.variants@.len() - j,
                        {
                            let v = &e.variants[j];
                            if let Some(vd) = binding_def_ids.get(&v.id) {
                                let variant_def_id = *vd;
                                if !variant_payloads.contains_key(&variant_def_id) {
                                    let mut payload: Vec<Ty> = Vec::new();
                                    let mut k: usize = 0;
                                    while k < v.payload.len()
                                        invariant
                                            appends_sema_errors(old(diags)@, diags@),
                                            k <= v.payload@.len(),
                                            payload@.len() == k,
                                            forall|q: int| 0 <= q < k ==> (#[trigger] payload@[q])@ == lower_spec(v.payload@[q], *resolutions, *definitions, Some(names_of(e.type_params@))),
                                        decreases v.payload@.len() - k,
                                    {
                                        let ghost d1 = diags@;
                                        let t = lower_type_with_subst(&v.payload[k], resolutions, definitions, &e.type_params, diags);
                                        proof { lemma_appends_trans(old(diags)@, d1, diags@); }
                                        payload.push(t);
                                        k = k + 1;
                                    }
                                    let ghost pv = variant_payload_spec(*e, j as int, *resolutions, *definitions);
                                    proof {
                                        lemma_tys_view_len(payload@);
                                        assert forall|q: int| 0 <= q < payload@.len() implies tys_view(payload@)[q] == pv[q] by {
                                            lemma_tys_view_index(payload@, q);
                                        }
                                        assert(tys_view(payload@) =~= pv);
                                    }
                                    let vp = VariantPayload { parent_enum: enum_def_id, payload: clone_tys(&payload) };
                                    proof {
                                        assert(binding_def_ids.at(e.variants@[j as int].id) == Some(variant_def_id));
                                        assert(payload_from(vp, program.items@.take(i as int + 1), variant_def_id, *binding_def_ids, *resolutions, *definitions)) by {
                                            assert(program.items@.take(i as int + 1)[i as int] == program.items@[i as int]);
                                        }
                                    }
                                    variant_payloads.insert(variant_def_id, vp);
                                    let return_ty = Ty::Enum(enum_def_id, clone_tys(&return_args));
                                    proof {
                                        lemma_tys_view_len(return_args@);
                                        assert forall|q: int| 0 <= q < return_args@.len() implies tys_view(return_args@)[q] == TyV::Param(q as usize) by {
                                            lemma_tys_view_index(return_args@, q);
                                        }
                                        assert(tys_view(return_args@) =~= Seq::new(e.type_params@.len(), |q: int| TyV::Param(q as usize)));
                                    }
                                    let schema = if payload.len() == 0 {
                                        return_ty
                                    } else {
                                        Ty::Function(payload, Box::new(return_ty))
                                    };
                                    proof {
                                        let ret = TyV::Enum(enum_def_id, Seq::new(e.type_params@.len(), |q: int| TyV::Param(q as usize)));
                                        assert(return_ty@ == ret);
                                        assert(pv.len() == payload@.len());
                                        if payload@.len() == 0 {
                                            assert(schema@ == ret);
                                        } else {
                                            assert(schema@ == TyV::Function(pv, Box::new(ret)));
                                        }
                                        assert(schema@ == variant_schema(enum_def_id, e.type_params@.len(), pv));
                                        assert(item_gives(program.items@[i as int], schema@, variant_def_id, *binding_def_ids, *resolutions, *definitions));
                                    }
                                    def_types.insert(variant_def_id, schema);
                                }
                            }
                            j = j + 1;
                        }
                    }
                }
                proof {
                    assert forall|y: DefId| #[trigger] enums_lowered@.contains(y)
                        <==> (el0.contains(y) || binding_def_ids.at(e.id) == Some(y)) by {
                        if binding_def_ids.at(e.id) is Some && !el0.contains(binding_def_ids.at(e.id)->0) {
                            let x = binding_def_ids.at(e.id)->0;
                            assert(enums_lowered@ == el0.push(x));
                            if enums_lowered@.contains(y) {
                                let q = choose|q: int| 0 <= q < enums_lowered@.len() && enums_lowered@[q] == y;
                                if q < el0.len() {
                                    assert(el0[q] == y);
                                }
                            }
                            if el0.contains(y) {
                                let q = choose|q: int| 0 <= q < el0.len() && el0[q] == y;
                                assert(enums_lowered@[q] == y);
                            }
                            if y == x {
                                assert(enums_lowered@[el0.len() as int] == y);
                            }
                        } else {
                            assert(enums_lowered@ == el0);
                        }
                    }
                }
            },
            Item::Let(l) => {
                if let Some(def_id) = binding_def_ids.get(&l.init.id) {
                    let def_id = *def_id;
                    if !def_types.contains_key(&def_id) {
                        let ghost d1 = diags@;
                        let t = lower_type(&l.ty, resolutions, definitions, diags);
                        proof {
                            lemma_appends_trans(old(diags)@, d1, diags@);
                            assert(item_gives(program.items@[i as int], t@, def_id, *binding_def_ids, *resolutions, *definitions));
                        }
                        def_types.insert(def_id, t);
                    }
                }
            },
            Item::Import(_) => {},
        }
        proof {
            assert forall|x: DefId| #[trigger] vp0.at(x) is Some implies variant_payloads.at(x) is Some by {}
            assert forall|k: int| 0 <= k < i + 1 implies #[trigger] variants_recorded(program.items@, k, *binding_def_ids, variant_payloads) by {
                if k < i {
                    assert(variants_recorded(program.items@, k, *binding_def_ids, vp0));
                }
            }
            assert forall|ed: DefId| #[trigger] enums_lowered@.contains(ed) <==> !first_enum_for(program.items@, i as int + 1, ed, *binding_def_ids) by {
                let items = program.items@;
                let hit = items[i as int] matches Item::Enum(e2) && binding_def_ids.at(e2.id) == Some(ed);
                if !(items[i as int] is Enum) {
                    assert(enums_lowered@ == el0);
                }
                assert(enums_lowered@.contains(ed) <==> (el0.contains(ed) || hit));
                if first_enum_for(items, i as int, ed, *binding_def_ids) && !hit {
                    assert forall|m: int| 0 <= m < i + 1 implies !(#[trigger] items[m] matches Item::Enum(e2) && binding_def_ids.at(e2.id) == Some(ed)) by {
                        if m < i {
                            assert(first_enum_for(items, i as int, ed, *binding_def_ids));
                        }
                    }
                }
                if !first_enum_for(items, i as int, ed, *binding_def_ids) {
                    let m = choose|m: int| 0 <= m < i && (#[trigger] items[m] matches Item::Enum(e2) && binding_def_ids.at(e2.id) == Some(ed));
                    assert(!first_enum_for(items, i as int + 1, ed, *binding_def_ids));
                }
                if hit {
                    assert(!first_enum_for(items, i as int + 1, ed, *binding_def_ids));
                }
            }
        }
        proof {
            let t0 = program.items@.take(i as int);
            let t1 = program.items@.take(i as int + 1);
            assert forall|d: DefId| #[trigger] struct_fields.at(d) is Some && struct_fields.at(d) == sf0.at(d)
                implies struct_fields_from(struct_fields.at(d)->0@, t1, d, *binding_def_ids, *resolutions, *definitions) by {
                assert(struct_fields_from(sf0.at(d)->0@, t0, d, *binding_def_ids, *resolutions, *definitions));
                let fs = sf0.at(d)->0@;
                let k = choose|k: int|
                    0 <= k < t0.len() && (#[trigger] t0[k] matches Item::Struct(st) && binding_def_ids.at(st.id) == Some(d)
                        && fs.len() == st.fields@.len() && forall|q: int| 0 <= q < fs.len() ==> (#[trigger] fs[q]).0@ == st.fields@[q].name@
                            && fs[q].1@ == lower_spec(st.fields@[q].ty, *resolutions, *definitions, None));
                assert(t1[k] == t0[k]);
            }
        }
        i = i + 1;
    }
    proof {
        assert(program.items@.take(program.items@.len() as int) =~= program.items@);
    }
    (def_types, struct_fields, variant_payloads)
}

fn contains_id(v: &Vec<DefId>, d: DefId) -> (r: bool)
    ensures
        r == v@.contains(d),
{
    let mut i: usize = 0;
    while i < v.len()
        invariant
            i <= v@.len(),
            forall|k: int| 0 <= k < i ==> v@[k] != d,
        decreases v@.len() - i,
    {
        if v[i].0 == d.0 {
            return true;
        }
        i = i + 1;
    }
    false
}

} // verus!
