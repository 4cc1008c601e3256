//! Bidirectional type checker.
//!
//! Walks every function body and top-level `let` initializer, recording
//! the type of each expression and reporting type errors. Expressions are
//! either synthesized (their type is computed) or checked against an
//! expected type; in checking mode an `Int` literal widens to a
//! dimensionless `Scalar`, and a numeric literal adopts the unit of an
//! expected `Scalar<u>` or `Vec<n, u>`. Generic enum constructors get
//! fresh type variables that unification solves.

pub mod calls;
pub mod operators;
pub mod patterns;

use vstd::prelude::*;
use crate::ast::{Block, Expr, ExprKind, ForStmt, FunctionDef, Item, Program, Stmt, StmtKind, WhileStmt};
use crate::diag::{emit, Diagnostic, Level, Phase};
use crate::idmap::{DefMap, NodeMap};
use crate::ids::NodeId;
use crate::sema::check::operators::{is_numeric_literal, numeric_literal_spec};
use crate::sema::diag::{sema_error, ty_text};
use crate::sema::dimension::{is_zero_dim, lemma_zero_spec_is_zero, lemma_zero_unique, Dimension};
use crate::sema::exhaust::all_sema_errors;
use crate::sema::resolve::{BindingTable, DefinitionTable, ResolveTable};
use crate::sema::ty::{clone_tys, lower_type, Ty, TyV, VariantPayload};
use crate::sema::unify::{extends, has_var, is_leaf, resolve_deep_spec, resolve_spec, ty_has_var, Table, DEPTH_LIMIT};
use crate::source::Span;
use crate::text::str_eq;

verus! {

broadcast use vstd::std_specs::vec::group_vec_axioms;

/// The state of a type-checking pass over one program.
pub struct TypeChecker {
    pub resolutions: ResolveTable,
    pub definitions: DefinitionTable,
    pub binding_def_ids: BindingTable,
    pub def_types: DefMap<Ty>,
    pub struct_fields: DefMap<Vec<(String, Ty)>>,
    pub variant_payloads: DefMap<VariantPayload>,
    pub types: NodeMap<Ty>,
    pub diagnostics: Vec<Diagnostic>,
    /// The declared return type of the function being checked.
    pub current_return_ty: Option<Ty>,
    pub unify_table: Table,
}

/// A copy of a struct's declared fields.
pub fn clone_fields(v: &Vec<(String, Ty)>) -> (r: Vec<(String, Ty)>)
    ensures
        r@.len() == v@.len(),
        forall|i: int| 0 <= i < v@.len() ==> (#[trigger] r@[i]).0@ == v@[i].0@ && r@[i].1@ == v@[i].1@,
{
    let mut out: Vec<(String, Ty)> = Vec::new();
    let mut i: usize = 0;
    while i < v.len()
        invariant
            i <= v@.len(),
            out@.len() == i,
            forall|k: int| 0 <= k < i ==> (#[trigger] out@[k]).0@ == v@[k].0@ && out@[k].1@ == v@[k].1@,
        decreases v@.len() - i,
    {
        out.push((v[i].0.clone(), v[i].1.dup()));
        i = i + 1;
    }
    out
}

/// What unifying `actual` with `expected` under the cells `c` reports,
/// from the diagnostics `before` to `after`: nothing when either side is
/// `Error` or both are the same leaf type, exactly one mismatch when a
/// leaf type meets a different type that is neither `Error`, a parameter
/// nor a variable.
pub open spec fn unify_reports(c: Seq<Option<TyV>>, actual: TyV, expected: TyV, before: Seq<Diagnostic>, after: Seq<Diagnostic>) -> bool {
    let ra = resolve_spec(c, actual, (c.len() + 1) as nat);
    let rb = resolve_spec(c, expected, (c.len() + 1) as nat);
    &&& (ra is Error || rb is Error) ==> after == before
    &&& (is_leaf(ra) && ra == rb) ==> after == before
    &&& ((is_leaf(ra) || is_leaf(rb)) && ra != rb && !(ra is Error || rb is Error || ra is Param || rb is Param || ra is Var
        || rb is Var)) ==> after.len() == before.len() + 1
}

/// The diagnostics `b` extend `a`: those of `a` stay, in order, and more
/// may follow.
pub open spec fn grows(a: Seq<Diagnostic>, b: Seq<Diagnostic>) -> bool {
    &&& a.len() <= b.len()
    &&& forall|i: int| 0 <= i < a.len() ==> #[trigger] b[i] == a[i]
}

/// The item has the types the checker records for it: a top-level `let`
/// its initializer's, a bound function whose body ends in an expression
/// that expression's.
pub open spec fn item_typed(it: Item, types: NodeMap<Ty>, binding_def_ids: BindingTable) -> bool {
    match it {
        Item::Let(l) => types.at(l.init.id) is Some,
        Item::Function(f) => f.body.stmts@.len() > 0 && binding_def_ids.at(f.id) is Some ==> match f.body.stmts@.last().kind {
            StmtKind::Expr(x) => types.at(x.id) is Some,
            _ => true,
        },
        _ => true,
    }
}

/// Every node with a recorded type in `a` still has one in `b`.
pub open spec fn keeps_types(a: NodeMap<Ty>, b: NodeMap<Ty>) -> bool {
    forall|n: NodeId| #[trigger] a.at(n) is Some ==> b.at(n) is Some
}

/// The element type a `for x in e` loop binds for an iterable of type
/// `t`: an `Array`'s element, the `Scalar` of a `Vec`'s unit; `None` for
/// a type that cannot be iterated (`Error` binds `Error`).
pub open spec fn for_elem(t: TyV) -> Option<TyV> {
    match t {
        TyV::Array(x) => Some(*x),
        TyV::Vec(_, d) => Some(TyV::Scalar(d)),
        TyV::Error => Some(TyV::Error),
        _ => None,
    }
}

/// The key and value types a `for k, v in e` loop binds for an iterable
/// of type `t`: a `Dict`'s; `None` for anything else but `Error`.
pub open spec fn for_kv(t: TyV) -> Option<(TyV, TyV)> {
    match t {
        TyV::Dict(k, v) => Some((*k, *v)),
        TyV::Error => Some((TyV::Error, TyV::Error)),
        _ => None,
    }
}

/// `d` is bound to `t` in `m` where the binding table gives `id` one.
pub open spec fn binds(tc: TypeChecker, id: NodeId, t: TyV) -> bool {
    tc.binding_def_ids.at(id) matches Some(d) ==> (tc.def_types.at(d) matches Some(x) && x@ == t)
}

/// The state `mid` a `for` loop reaches from `before` once its bounds or
/// iterable are checked and its variables bound, before its body runs.
pub open spec fn loop_bound(before: TypeChecker, mid: TypeChecker, f: ForStmt) -> bool {
    &&& mid.same_tables(before)
    &&& grows(before.diagnostics@, mid.diagnostics@)
    &&& match f {
        ForStmt::Range { var_id, start, end, .. } => {
            &&& mid.types.at(start.id) is Some
            &&& mid.types.at(end.id) is Some
            &&& binds(mid, var_id, TyV::Int)
        },
        ForStmt::Iter { var_id, iter, .. } => mid.types.at(iter.id) matches Some(it) && match for_elem(it@) {
            Some(x) => binds(mid, var_id, x),
            None => binds(mid, var_id, TyV::Error) && sema_error(
                mid.diagnostics@.last(),
                iter.span,
                "for-in iteration"@ + " not defined for `"@ + ty_text(it@, before.definitions) + "`"@,
            ),
        },
        ForStmt::IterKV { key_id, value_id, iter, .. } => mid.types.at(iter.id) matches Some(it) && match for_kv(it@) {
            Some((k, v)) => binds(mid, value_id, v) && (mid.binding_def_ids.at(key_id) != mid.binding_def_ids.at(value_id)
                ==> binds(mid, key_id, k)),
            None => binds(mid, key_id, TyV::Error) && binds(mid, value_id, TyV::Error) && sema_error(
                mid.diagnostics@.last(),
                iter.span,
                "for-key-value iteration"@ + " not defined for `"@ + ty_text(it@, before.definitions) + "`"@,
            ),
        },
    }
}

impl TypeChecker {
    /// The name and declaration tables are those of `other`.
    pub open spec fn same_tables(&self, other: TypeChecker) -> bool {
        &&& self.resolutions == other.resolutions
        &&& self.definitions == other.definitions
        &&& self.binding_def_ids == other.binding_def_ids
        &&& self.struct_fields == other.struct_fields
        &&& self.variant_payloads == other.variant_payloads
    }

    /// Every diagnostic reported so far is a sema error.
    pub open spec fn ok(&self) -> bool {
        all_sema_errors(self.diagnostics@)
    }

    pub fn new(
        resolutions: ResolveTable,
        definitions: DefinitionTable,
        binding_def_ids: BindingTable,
        def_types: DefMap<Ty>,
        struct_fields: DefMap<Vec<(String, Ty)>>,
        variant_payloads: DefMap<VariantPayload>,
    ) -> (tc: TypeChecker)
        ensures
            tc.ok(),
            tc.diagnostics@.len() == 0,
            tc.resolutions == resolutions,
            tc.definitions == definitions,
            tc.binding_def_ids == binding_def_ids,
            tc.struct_fields == struct_fields,
            tc.variant_payloads == variant_payloads,
            forall|n: NodeId| tc.types.at(n) is None,
    {
        TypeChecker {
            resolutions,
            definitions,
            binding_def_ids,
            def_types,
            struct_fields,
            variant_payloads,
            types: NodeMap::new(),
            diagnostics: Vec::new(),
            current_return_ty: None,
            unify_table: Table::new(),
        }
    }

    /// Report a sema error.
    #[verifier::loop_isolation(false)]
    pub fn report(&mut self, d: Diagnostic)
        requires
            old(self).ok(),
            d.phase == Phase::Sema,
            d.level == Level::Error,
        ensures
            final(self).ok(),
            final(self).same_tables(*old(self)),
            grows(old(self).diagnostics@, final(self).diagnostics@),
            keeps_types(old(self).types, final(self).types),
            final(self).diagnostics@ == old(self).diagnostics@.push(d),
            final(self).unify_table == old(self).unify_table,
            final(self).types == old(self).types,
            final(self).def_types == old(self).def_types,
    {
        emit(&mut self.diagnostics, d);
    }

    /// Record the type of node `id` and return it. Variables are resolved
    /// once checking is done.
    #[verifier::loop_isolation(false)]
    pub fn record(&mut self, id: NodeId, ty: Ty) -> (r: Ty)
        requires
            old(self).ok(),
        ensures
            final(self).ok(),
            final(self).same_tables(*old(self)),
            grows(old(self).diagnostics@, final(self).diagnostics@),
            keeps_types(old(self).types, final(self).types),
            r@ == ty@,
            final(self).types.at(id) matches Some(t) && t@ == ty@,
            final(self).diagnostics == old(self).diagnostics,
    {
        self.types.insert(id, ty.dup());
        ty
    }

    /// Synthesize the type of `e`, record it and return it.
    #[verifier::loop_isolation(false)]
    pub fn synth_expr(&mut self, e: &Expr) -> (r: Ty)
        requires
            old(self).ok(),
        ensures
            final(self).ok(),
            final(self).same_tables(*old(self)),
            grows(old(self).diagnostics@, final(self).diagnostics@),
            keeps_types(old(self).types, final(self).types),
            final(self).types.at(e.id) matches Some(t) && t@ == r@,
            e.kind is IntLit ==> r@ == TyV::Int,
            e.kind is FloatLit ==> r@ == TyV::Scalar(Dimension::zero_spec()),
            e.kind is BoolLit ==> r@ == TyV::Bool,
            e.kind is StrLit ==> r@ == TyV::Str,
            e.kind is Lambda ==> r@ == TyV::Error,
        decreases e, 1nat,
    {
        let ty = match &e.kind {
            ExprKind::IntLit(_) => Ty::Int,
            ExprKind::FloatLit(_) => Ty::Scalar(Dimension::zero()),
            ExprKind::BoolLit(_) => Ty::Bool,
            ExprKind::StrLit(_) => Ty::String,
            ExprKind::Ident(_) => self.synth_ident(e),
            ExprKind::BinOp(_, _, _) => self.synth_binop(e),
            ExprKind::UnaryOp(_, _) => self.synth_unaryop(e),
            ExprKind::Call(_, _) => self.synth_call(e),
            ExprKind::StructLit(_, _) => self.synth_struct_lit(e),
            ExprKind::FieldAccess(_, _) => self.synth_field_access(e),
            ExprKind::Index(_, _) => self.synth_index(e),
            ExprKind::VecLit(_) => self.synth_vec_lit(e),
            ExprKind::MatLit(_) => self.synth_mat_lit(e),
            ExprKind::If(_) => self.synth_if(e),
            ExprKind::Match(_, _) => self.synth_match(e),
            ExprKind::Block(b) => self.synth_block(b),
            ExprKind::Lambda(_) => Ty::Error,
        };
        self.record(e.id, ty)
    }

    /// Check `e` against `expected`, record its type and return it. A
    /// mismatch is reported at `e`. An integer literal checked against a
    /// dimensionless `Scalar` is that `Scalar`; a numeric literal checked
    /// against a `Scalar<u>` takes the unit `u`; any other expression of
    /// type `Int` checked against a `Scalar` is an error.
    #[verifier::loop_isolation(false)]
    pub fn check_expr(&mut self, e: &Expr, expected: &Ty) -> (r: Ty)
        requires
            old(self).ok(),
        ensures
            final(self).ok(),
            final(self).same_tables(*old(self)),
            grows(old(self).diagnostics@, final(self).diagnostics@),
            keeps_types(old(self).types, final(self).types),
            final(self).types.at(e.id) matches Some(t) && t@ == r@,
            e.kind is IntLit && expected@ == TyV::Scalar(Dimension::zero_spec()) ==> r@ == expected@
                && final(self).diagnostics == old(self).diagnostics,
            numeric_literal_spec(*e) && expected@ is Scalar && !is_zero_dim(expected@->Scalar_0) ==> r@ == expected@,
            !numeric_literal_spec(*e) && !(e.kind is Call) && r@ == TyV::Int && expected@ is Scalar
                ==> final(self).diagnostics@.len() > old(self).diagnostics@.len(),
            !(e.kind is Call) && r@ is Scalar && expected@ == TyV::Int
                ==> final(self).diagnostics@.len() > old(self).diagnostics@.len(),
            !(e.kind is Call) && is_leaf(r@) && is_leaf(expected@) && r@ != expected@
                ==> final(self).diagnostics@.len() > old(self).diagnostics@.len(),
            e.kind is BoolLit ==> r@ == TyV::Bool,
            e.kind is StrLit ==> r@ == TyV::Str,
        decreases e, 3nat,
    {
        proof { lemma_zero_spec_is_zero(); }
        let resolved_expected = self.unify_table.resolve(expected);
        // An integer literal where a dimensionless Scalar is expected.
        if let ExprKind::IntLit(_) = &e.kind {
            if let Ty::Scalar(d) = &resolved_expected {
                if d.is_dimensionless() {
                    proof {
                        lemma_zero_unique(*d, Dimension::zero_spec());
                    }
                    return self.record(e.id, Ty::Scalar(Dimension::zero()));
                }
            }
        }
        if let ExprKind::Call(_, _) = &e.kind {
            return self.check_call(e, expected);
        }
        let synthesized = self.synth_expr(e);
        // A numeric literal adopts the unit of an expected Scalar<u>.
        if let Ty::Scalar(u) = &resolved_expected {
            if !u.is_dimensionless() && is_numeric_literal(e) {
                return self.record(e.id, resolved_expected.dup());
            }
        }
        // A vector literal of numeric literals adopts the unit of an
        // expected Vec<n, u> of the same length.
        if let Ty::Vec(en, eu) = &resolved_expected {
            if !eu.is_dimensionless() && all_numeric_literal_elems(e) {
                if let Ty::Vec(sn, sd) = &synthesized {
                    if *sn == *en && sd.is_dimensionless() {
                        return self.record(e.id, resolved_expected.dup());
                    }
                }
            }
        }
        self.unify_or_diag(&synthesized, expected, e.span);
        synthesized
    }

    /// Unify `actual` with `expected`, reporting a mismatch at `span`. A
    /// side that is already `Error` never adds a report.
    #[verifier::loop_isolation(false)]
    pub fn unify_or_diag(&mut self, actual: &Ty, expected: &Ty, span: Span)
        requires
            old(self).ok(),
        ensures
            final(self).ok(),
            final(self).same_tables(*old(self)),
            grows(old(self).diagnostics@, final(self).diagnostics@),
            keeps_types(old(self).types, final(self).types),
            extends(old(self).unify_table.cells(), final(self).unify_table.cells()),
            final(self).types == old(self).types,
            final(self).def_types == old(self).def_types,
            final(self).diagnostics@.len() <= old(self).diagnostics@.len() + 1,
            final(self).diagnostics@.subrange(0, old(self).diagnostics@.len() as int) == old(self).diagnostics@,
            ({
                let c = old(self).unify_table.cells();
                (resolve_spec(c, actual@, (c.len() + 1) as nat) is Error || resolve_spec(c, expected@, (c.len() + 1) as nat) is Error)
                    ==> final(self).diagnostics == old(self).diagnostics
            }),
            ({
                let c = old(self).unify_table.cells();
                let ra = resolve_spec(c, actual@, (c.len() + 1) as nat);
                let rb = resolve_spec(c, expected@, (c.len() + 1) as nat);
                &&& (is_leaf(ra) && ra == rb) ==> final(self).diagnostics == old(self).diagnostics
                &&& ((is_leaf(ra) || is_leaf(rb)) && ra != rb && !(ra is Error || rb is Error || ra is Param || rb is Param
                        || ra is Var || rb is Var)) ==> final(self).diagnostics@.len() == old(self).diagnostics@.len() + 1
            }),
    {
        match self.unify_table.unify(actual, expected) {
            Ok(()) => {},
            Err((a, x)) => {
                let d = crate::sema::diag::type_mismatch_full(&self.definitions, span, &x, &a);
                self.report(d);
            },
        }
        proof {
            assert(self.diagnostics@.subrange(0, old(self).diagnostics@.len() as int) =~= old(self).diagnostics@);
        }
    }

    /// Struct literal: each field is checked against its declaration;
    /// unknown fields and missing fields are reported.
    #[verifier::loop_isolation(false)]
    fn synth_struct_lit(&mut self, e: &Expr) -> (r: Ty)
        requires
            old(self).ok(),
        ensures
            final(self).ok(),
            final(self).same_tables(*old(self)),
            grows(old(self).diagnostics@, final(self).diagnostics@),
            keeps_types(old(self).types, final(self).types),
            e.kind is StructLit ==> (if old(self).resolutions.at(e.id) matches Some(d) && old(self).struct_fields.at(d) is Some {
                r@ == TyV::Struct(old(self).resolutions.at(e.id)->0)
            } else {
                r@ == TyV::Error
            }),
        decreases e, 0nat,
    {
        if let ExprKind::StructLit(name, fields) = &e.kind {
            let def_id = match self.resolutions.get(&e.id) {
                Some(d) => *d,
                None => {
                    self.synth_field_exprs(fields);
                    return Ty::Error;
                },
            };
            let declared = match self.struct_fields.get(&def_id) {
                Some(f) => clone_fields(f),
                None => {
                    self.synth_field_exprs(fields);
                    return Ty::Error;
                },
            };
            let mut i: usize = 0;
            while i < fields.len()
                invariant
                    self.ok(),
                    self.same_tables(*old(self)),
                    grows(old(self).diagnostics@, self.diagnostics@),
                    keeps_types(old(self).types, self.types),
                decreases fields@.len() - i,
            {
                let fname = &fields[i].0;
                let mut j: usize = 0;
                let mut found: Option<usize> = None;
                while j < declared.len()
                    invariant
                        j <= declared@.len(),
                        found matches Some(k) ==> k < declared@.len(),
                    decreases declared@.len() - j,
                {
                    if str_eq(declared[j].0.as_str(), fname.as_str()) {
                        found = Some(j);
                        break;
                    }
                    j = j + 1;
                }
                match found {
                    Some(k) => {
                        self.check_expr(&fields[i].1, &declared[k].1);
                    },
                    None => {
                        self.report(crate::sema::diag::extra_struct_field(e.span, name.as_str(), fname.as_str()));
                        self.synth_expr(&fields[i].1);
                    },
                }
                i = i + 1;
            }
            let mut k: usize = 0;
            while k < declared.len()
                invariant
                    self.ok(),
                    self.same_tables(*old(self)),
                    grows(old(self).diagnostics@, self.diagnostics@),
                    keeps_types(old(self).types, self.types),
                decreases declared@.len() - k,
            {
                let mut seen = false;
                let mut j: usize = 0;
                while j < fields.len()
                    invariant
                        j <= fields@.len(),
                    decreases fields@.len() - j,
                {
                    if str_eq(fields[j].0.as_str(), declared[k].0.as_str()) {
                        seen = true;
                    }
                    j = j + 1;
                }
                if !seen {
                    self.report(crate::sema::diag::missing_struct_field(e.span, name.as_str(), declared[k].0.as_str()));
                }
                k = k + 1;
            }
            Ty::Struct(def_id)
        } else {
            Ty::Error
        }
    }

    /// Synthesize the field values of a struct literal whose struct is
    /// unknown.
    #[verifier::loop_isolation(false)]
    fn synth_field_exprs(&mut self, fields: &Vec<(String, Expr)>)
        requires
            old(self).ok(),
        ensures
            final(self).ok(),
            final(self).same_tables(*old(self)),
            grows(old(self).diagnostics@, final(self).diagnostics@),
            keeps_types(old(self).types, final(self).types),
        decreases fields, 0nat,
    {
        let mut i: usize = 0;
        while i < fields.len()
            invariant
                self.ok(),
                self.same_tables(*old(self)),
                grows(old(self).diagnostics@, self.diagnostics@),
                keeps_types(old(self).types, self.types),
            decreases fields@.len() - i,
        {
            self.synth_expr(&fields[i].1);
            i = i + 1;
        }
    }

    /// `base.field` on a struct value.
    #[verifier::loop_isolation(false)]
    fn synth_field_access(&mut self, e: &Expr) -> (r: Ty)
        requires
            old(self).ok(),
        ensures
            final(self).ok(),
            final(self).same_tables(*old(self)),
            grows(old(self).diagnostics@, final(self).diagnostics@),
            keeps_types(old(self).types, final(self).types),
        decreases e, 0nat,
    {
        if let ExprKind::FieldAccess(base, field) = &e.kind {
            let base_ty = self.synth_expr(base);
            match &base_ty {
                Ty::Error => Ty::Error,
                Ty::Struct(def_id) => {
                    let struct_name = match self.definitions.get(def_id) {
                        Some(info) => info.name.clone(),
                        None => crate::text::string_of("<struct>"),
                    };
                    let found = match self.struct_fields.get(def_id) {
                        None => {
                            return Ty::Error;
                        },
                        Some(fields) => {
                            let mut j: usize = 0;
                            let mut found: Option<Ty> = None;
                            while j < fields.len()
                                invariant
                                    j <= fields@.len(),
                                decreases fields@.len() - j,
                            {
                                if str_eq(fields[j].0.as_str(), field.as_str()) {
                                    found = Some(fields[j].1.dup());
                                    break;
                                }
                                j = j + 1;
                            }
                            found
                        },
                    };
                    match found {
                        Some(t) => t,
                        None => {
                            self.report(crate::sema::diag::field_unknown(base.span, struct_name.as_str(), field.as_str()));
                            Ty::Error
                        },
                    }
                },
                _ => {
                    let d = crate::sema::diag::op_type_error(&self.definitions, base.span, "field access", &base_ty);
                    self.report(d);
                    Ty::Error
                },
            }
        } else {
            Ty::Error
        }
    }

    /// Check a function body against its declared signature: the body is
    /// synthesized with the declared return type as the one its `return`
    /// statements are checked against, which is restored afterwards.
    #[verifier::loop_isolation(false)]
    pub fn check_function(&mut self, f: &FunctionDef)
        requires
            old(self).ok(),
        ensures
            final(self).ok(),
            final(self).same_tables(*old(self)),
            grows(old(self).diagnostics@, final(self).diagnostics@),
            keeps_types(old(self).types, final(self).types),
            final(self).current_return_ty == old(self).current_return_ty,
            old(self).binding_def_ids.at(f.id) is None ==> *final(self) == *old(self),
            f.body.stmts@.len() > 0 && old(self).binding_def_ids.at(f.id) is Some ==> match f.body.stmts@.last().kind {
                StmtKind::Expr(x) => final(self).types.at(x.id) is Some,
                _ => true,
            },
    {
        let def_id = match self.binding_def_ids.get(&f.id) {
            Some(d) => *d,
            None => {
                return;
            },
        };
        let expected_return = match self.def_types.get(&def_id) {
            Some(Ty::Function(_, ret)) => Some(ret.dup()),
            _ => None,
        };
        let prev = self.current_return_ty.take();
        self.current_return_ty = expected_return;
        let _ = self.synth_block(&f.body);
        self.current_return_ty = prev;
    }

    /// The statements of a block in order; a block's type is that of its
    /// last statement (`Error` when empty or when the last is not an
    /// expression statement).
    #[verifier::loop_isolation(false)]
    pub fn synth_block(&mut self, b: &Block) -> (r: Ty)
        requires
            old(self).ok(),
        ensures
            final(self).ok(),
            final(self).same_tables(*old(self)),
            grows(old(self).diagnostics@, final(self).diagnostics@),
            keeps_types(old(self).types, final(self).types),
            b.stmts@.len() == 0 ==> r@ == TyV::Error,
            b.stmts@.len() > 0 ==> match b.stmts@.last().kind {
                StmtKind::Expr(x) => final(self).types.at(x.id) matches Some(t) && t@ == r@,
                _ => r@ == TyV::Error,
            },
        decreases b,
    {
        let mut last_ty = Ty::Error;
        let mut i: usize = 0;
        while i < b.stmts.len()
            invariant
                self.ok(),
                self.same_tables(*old(self)),
                grows(old(self).diagnostics@, self.diagnostics@),
                keeps_types(old(self).types, self.types),
                i <= b.stmts@.len(),
                i == 0 ==> last_ty@ == TyV::Error,
                i > 0 ==> match b.stmts@[i - 1].kind {
                    StmtKind::Expr(x) => self.types.at(x.id) matches Some(t) && t@ == last_ty@,
                    _ => last_ty@ == TyV::Error,
                },
            decreases b.stmts@.len() - i,
        {
            last_ty = self.synth_stmt(&b.stmts[i]);
            i = i + 1;
        }
        last_ty
    }

    #[verifier::loop_isolation(false)]
    fn synth_stmt(&mut self, s: &Stmt) -> (r: Ty)
        requires
            old(self).ok(),
        ensures
            final(self).ok(),
            final(self).same_tables(*old(self)),
            grows(old(self).diagnostics@, final(self).diagnostics@),
            keeps_types(old(self).types, final(self).types),
            !(s.kind is Expr) ==> r@ == TyV::Error,
            s.kind matches StmtKind::Expr(x) ==> (final(self).types.at(x.id) matches Some(t) && t@ == r@),
        decreases s,
    {
        match &s.kind {
            StmtKind::Let(l) => {
                match self.binding_def_ids.get(&s.id) {
                    Some(d) => {
                        let def_id = *d;
                        if !self.def_types.contains_key(&def_id) {
                            let ghost d0 = self.diagnostics@;
                            let lowered = lower_type(&l.ty, &self.resolutions, &self.definitions, &mut self.diagnostics);
                            proof { lemma_appends_keeps(d0, self.diagnostics@); }
                            self.def_types.insert(def_id, lowered);
                        }
                        let expected = match self.def_types.get(&def_id) {
                            Some(t) => t.dup(),
                            None => Ty::Error,
                        };
                        self.check_expr(&l.init, &expected);
                    },
                    None => {
                        self.synth_expr(&l.init);
                    },
                }
                Ty::Error
            },
            StmtKind::Assign(_, expr) => {
                let expected = match self.resolutions.get(&s.id) {
                    Some(d) => match self.def_types.get(d) {
                        Some(t) => t.dup(),
                        None => Ty::Error,
                    },
                    None => Ty::Error,
                };
                self.check_expr(expr, &expected);
                Ty::Error
            },
            StmtKind::Expr(expr) => self.synth_expr(expr),
            StmtKind::Return(Some(expr)) => {
                let expected = match &self.current_return_ty {
                    Some(t) => t.dup(),
                    None => Ty::Error,
                };
                self.check_expr(expr, &expected);
                Ty::Error
            },
            StmtKind::Return(None) => Ty::Error,
            StmtKind::For(f) => {
                self.synth_for(f);
                Ty::Error
            },
            StmtKind::While(w) => {
                self.synth_while(w);
                Ty::Error
            },
        }
    }

    /// `if`: conditions must be `Bool`; every arm must have the type of
    /// the first, and a disagreement makes the whole expression `Error`.
    #[verifier::loop_isolation(false)]
    fn synth_if(&mut self, e: &Expr) -> (r: Ty)
        requires
            old(self).ok(),
        ensures
            final(self).ok(),
            final(self).same_tables(*old(self)),
            grows(old(self).diagnostics@, final(self).diagnostics@),
            keeps_types(old(self).types, final(self).types),
            e.kind matches ExprKind::If(ie) ==> (ie.cond.kind is IntLit || ie.cond.kind is FloatLit || ie.cond.kind is StrLit
                ==> final(self).diagnostics@.len() > old(self).diagnostics@.len()),
        decreases e, 0nat,
    {
        if let ExprKind::If(if_expr) = &e.kind {
            self.check_cond(&if_expr.cond);
            let ghost dc = self.diagnostics@;
            let then_ty = self.synth_block(&if_expr.then_block);
            let mut had_arm_mismatch = false;
            let mut i: usize = 0;
            while i < if_expr.elseifs.len()
                invariant
                    self.ok(),
                    self.same_tables(*old(self)),
                    grows(old(self).diagnostics@, self.diagnostics@),
                    dc.len() <= self.diagnostics@.len(),
                    keeps_types(old(self).types, self.types),
                decreases if_expr.elseifs@.len() - i,
            {
                self.check_cond(&if_expr.elseifs[i].0);
                let arm_ty = self.synth_block(&if_expr.elseifs[i].1);
                let prev = self.diagnostics.len();
                self.unify_or_diag(&arm_ty, &then_ty, e.span);
                if self.diagnostics.len() != prev {
                    had_arm_mismatch = true;
                }
                i = i + 1;
            }
            if let Some(else_block) = &if_expr.else_block {
                let arm_ty = self.synth_block(else_block);
                let prev = self.diagnostics.len();
                self.unify_or_diag(&arm_ty, &then_ty, e.span);
                if self.diagnostics.len() != prev {
                    had_arm_mismatch = true;
                }
            }
            if had_arm_mismatch { Ty::Error } else { then_ty }
        } else {
            Ty::Error
        }
    }

    /// A condition must be `Bool` (an `Error` operand is not reported
    /// again).
    #[verifier::loop_isolation(false)]
    fn check_cond(&mut self, cond: &Expr)
        requires
            old(self).ok(),
        ensures
            final(self).ok(),
            final(self).same_tables(*old(self)),
            grows(old(self).diagnostics@, final(self).diagnostics@),
            keeps_types(old(self).types, final(self).types),
            final(self).types.at(cond.id) matches Some(t) && (!(t@ is Bool || t@ is Error) ==> sema_error(
                final(self).diagnostics@.last(),
                cond.span,
                "expected `Bool` for condition, found `"@ + ty_text(t@, old(self).definitions) + "`"@,
            ) && final(self).diagnostics@.len() > old(self).diagnostics@.len()),
            cond.kind is IntLit || cond.kind is FloatLit || cond.kind is StrLit
                ==> final(self).diagnostics@.len() > old(self).diagnostics@.len(),
        decreases cond, 2nat,
    {
        let cond_ty = self.synth_expr(cond);
        if !matches!(cond_ty, Ty::Bool | Ty::Error) {
            let d = crate::sema::diag::non_bool_condition(&self.definitions, cond.span, &cond_ty);
            self.report(d);
        }
    }

    #[verifier::loop_isolation(false)]
    fn synth_while(&mut self, w: &WhileStmt)
        requires
            old(self).ok(),
        ensures
            final(self).ok(),
            final(self).same_tables(*old(self)),
            grows(old(self).diagnostics@, final(self).diagnostics@),
            keeps_types(old(self).types, final(self).types),
            w.cond.kind is IntLit || w.cond.kind is FloatLit || w.cond.kind is StrLit
                ==> final(self).diagnostics@.len() > old(self).diagnostics@.len(),
        decreases w,
    {
        self.check_cond(&w.cond);
        self.synth_block(&w.body);
    }

    /// `for i = a, b` binds an `Int`; `for x in v` binds the element type
    /// of an `Array` or the `Scalar` of a `Vec`; `for k, v in d` binds the
    /// key and value types of a `Dict`.
    #[verifier::loop_isolation(false)]
    fn synth_for(&mut self, f: &ForStmt)
        requires
            old(self).ok(),
        ensures
            final(self).ok(),
            final(self).same_tables(*old(self)),
            grows(old(self).diagnostics@, final(self).diagnostics@),
            keeps_types(old(self).types, final(self).types),
            exists|mid: TypeChecker| #[trigger] loop_bound(*old(self), mid, *f) && grows(mid.diagnostics@, final(self).diagnostics@)
                && keeps_types(mid.types, final(self).types),
            f matches ForStmt::Range { start, end, .. } ==> final(self).types.at(start.id) is Some && final(self).types.at(end.id) is Some,
            f matches ForStmt::Range { start, end, .. } ==> (start.kind is BoolLit || start.kind is StrLit || end.kind is BoolLit
                || end.kind is StrLit ==> final(self).diagnostics@.len() > old(self).diagnostics@.len()),
            f matches ForStmt::Iter { iter, .. } ==> final(self).types.at(iter.id) is Some,
            f matches ForStmt::IterKV { iter, .. } ==> final(self).types.at(iter.id) is Some,
        decreases f,
    {
        match f {
            ForStmt::Range { var_id, start, end, body, .. } => {
                self.check_expr(start, &Ty::Int);
                self.check_expr(end, &Ty::Int);
                if let Some(d) = self.binding_def_ids.get(var_id) {
                    let d = *d;
                    self.def_types.insert(d, Ty::Int);
                }
                let ghost mid = *self;
                assert(loop_bound(*old(self), mid, *f));
                self.synth_block(body);
            },
            ForStmt::Iter { var_id, iter, body, .. } => {
                let iter_ty = self.synth_expr(iter);
                let elem_ty = match &iter_ty {
                    Ty::Array(t) => t.dup(),
                    Ty::Vec(_, dim) => Ty::Scalar(*dim),
                    Ty::Error => Ty::Error,
                    other => {
                        let d = crate::sema::diag::op_type_error(&self.definitions, iter.span, "for-in iteration", other);
                        self.report(d);
                        Ty::Error
                    },
                };
                if let Some(d) = self.binding_def_ids.get(var_id) {
                    let d = *d;
                    self.def_types.insert(d, elem_ty);
                }
                let ghost mid = *self;
                assert(loop_bound(*old(self), mid, *f));
                self.synth_block(body);
            },
            ForStmt::IterKV { key_id, value_id, iter, body, .. } => {
                let iter_ty = self.synth_expr(iter);
                let (k_ty, v_ty) = match &iter_ty {
                    Ty::Dict(k, v) => (k.dup(), v.dup()),
                    Ty::Error => (Ty::Error, Ty::Error),
                    other => {
                        let d = crate::sema::diag::op_type_error(&self.definitions, iter.span, "for-key-value iteration", other);
                        self.report(d);
                        (Ty::Error, Ty::Error)
                    },
                };
                if let Some(d) = self.binding_def_ids.get(key_id) {
                    let d = *d;
                    self.def_types.insert(d, k_ty);
                }
                if let Some(d) = self.binding_def_ids.get(value_id) {
                    let d = *d;
                    self.def_types.insert(d, v_ty);
                }
                let ghost mid = *self;
                assert(loop_bound(*old(self), mid, *f));
                self.synth_block(body);
            },
        }
    }

    /// `[e1, ..., en]`: every element is checked against the first's type;
    /// the literal is a `Vec<n>` carrying the first element's unit.
    #[verifier::loop_isolation(false)]
    fn synth_vec_lit(&mut self, e: &Expr) -> (r: Ty)
        requires
            old(self).ok(),
        ensures
            final(self).ok(),
            final(self).same_tables(*old(self)),
            grows(old(self).diagnostics@, final(self).diagnostics@),
            keeps_types(old(self).types, final(self).types),
            e.kind matches ExprKind::VecLit(elems) ==> if elems@.len() == 0 {
                r@ == TyV::Error
            } else {
                r@ matches TyV::Vec(n, _) && n == elems@.len()
            },
        decreases e, 0nat,
    {
        if let ExprKind::VecLit(elems) = &e.kind {
            if elems.len() == 0 {
                return Ty::Error;
            }
            let first_ty = self.synth_expr(&elems[0]);
            let mut i: usize = 1;
            while i < elems.len()
                invariant
                    self.ok(),
                    self.same_tables(*old(self)),
                    grows(old(self).diagnostics@, self.diagnostics@),
                    keeps_types(old(self).types, self.types),
                decreases elems@.len() - i,
            {
                self.check_expr(&elems[i], &first_ty);
                i = i + 1;
            }
            let dim = match &first_ty {
                Ty::Scalar(d) => *d,
                _ => Dimension::zero(),
            };
            Ty::Vec(elems.len(), dim)
        } else {
            Ty::Error
        }
    }

    /// `[[..], ..]`: rows of equal, non-zero length whose cells are `Int`
    /// or `Scalar`.
    #[verifier::loop_isolation(false)]
    fn synth_mat_lit(&mut self, e: &Expr) -> (r: Ty)
        requires
            old(self).ok(),
        ensures
            final(self).ok(),
            final(self).same_tables(*old(self)),
            grows(old(self).diagnostics@, final(self).diagnostics@),
            keeps_types(old(self).types, final(self).types),
            e.kind matches ExprKind::MatLit(rows) ==> if rows@.len() > 0 && rows@[0]@.len() > 0
                && forall|i: int| 0 <= i < rows@.len() ==> (#[trigger] rows@[i])@.len() == rows@[0]@.len() {
                r@ == TyV::Mat(rows@.len() as usize, rows@[0]@.len() as usize)
            } else {
                r@ == TyV::Error
            },
        decreases e, 0nat,
    {
        if let ExprKind::MatLit(rows) = &e.kind {
            if rows.len() == 0 {
                return Ty::Error;
            }
            let cols = rows[0].len();
            if cols == 0 {
                return Ty::Error;
            }
            let mut i: usize = 0;
            while i < rows.len()
                invariant
                    self.ok(),
                    self.same_tables(*old(self)),
                    grows(old(self).diagnostics@, self.diagnostics@),
                    keeps_types(old(self).types, self.types),
                    cols == rows@[0]@.len(),
                    forall|k: int| 0 <= k < i ==> (#[trigger] rows@[k])@.len() == cols,
                decreases rows@.len() - i,
            {
                if rows[i].len() != cols {
                    self.report(crate::sema::diag::mat_shape_mismatch(e.span, (rows.len(), cols), rows[i].len()));
                    return Ty::Error;
                }
                let mut j: usize = 0;
                while j < rows[i].len()
                    invariant
                        self.ok(),
                        self.same_tables(*old(self)),
                        grows(old(self).diagnostics@, self.diagnostics@),
                        keeps_types(old(self).types, self.types),
                    decreases rows@[i as int]@.len() - j,
                {
                    let cell = &rows[i][j];
                    let cell_ty = self.synth_expr(cell);
                    if !matches!(cell_ty, Ty::Int | Ty::Scalar(_) | Ty::Error) {
                        let d = crate::sema::diag::op_type_error(&self.definitions, cell.span, "matrix cell", &cell_ty);
                        self.report(d);
                    }
                    j = j + 1;
                }
                i = i + 1;
            }
            Ty::Mat(rows.len(), cols)
        } else {
            Ty::Error
        }
    }

    /// `base[idx]`: an `Array` or `Vec` takes an `Int` index, a `Dict` an
    /// index of its key type. The element of an `Array<T>` is a `T`, of a
    /// `Vec<n, u>` a `Scalar<u>`, of a `Dict<K, V>` a `V`; indexing anything
    /// else gives `Error`, reported unless the base is already `Error`.
    #[verifier::loop_isolation(false)]
    fn synth_index(&mut self, e: &Expr) -> (r: Ty)
        requires
            old(self).ok(),
        ensures
            final(self).ok(),
            final(self).same_tables(*old(self)),
            grows(old(self).diagnostics@, final(self).diagnostics@),
            keeps_types(old(self).types, final(self).types),
            e.kind matches ExprKind::Index(base, _) ==> (final(self).types.at(base.id) matches Some(bt) && match bt@ {
                TyV::Array(t) => r@ == *t,
                TyV::Vec(_, u) => r@ == TyV::Scalar(u),
                TyV::Dict(_, v) => r@ == *v,
                TyV::Error => r@ == TyV::Error,
                _ => r@ == TyV::Error && final(self).diagnostics@.len() > old(self).diagnostics@.len(),
            }),
            !(e.kind is Index) ==> r@ == TyV::Error,
            e.kind matches ExprKind::Index(base, idx) ==> (final(self).types.at(base.id) matches Some(bt) && (bt@ is Vec
                || bt@ is Array) && (idx.kind is BoolLit || idx.kind is StrLit)
                ==> final(self).diagnostics@.len() > old(self).diagnostics@.len()),
        decreases e, 0nat,
    {
        if let ExprKind::Index(base, idx) = &e.kind {
            let base_ty = self.synth_expr(base);
            let kept = base_ty.dup();
            let r = match base_ty {
                Ty::Array(t) => {
                    self.check_expr(idx, &Ty::Int);
                    *t
                },
                Ty::Vec(_, dim) => {
                    self.check_expr(idx, &Ty::Int);
                    Ty::Scalar(dim)
                },
                Ty::Dict(k, v) => {
                    self.check_expr(idx, &k);
                    *v
                },
                Ty::Error => {
                    self.synth_expr(idx);
                    Ty::Error
                },
                other => {
                    self.synth_expr(idx);
                    let d = crate::sema::diag::op_type_error(&self.definitions, base.span, "indexing", &other);
                    self.report(d);
                    Ty::Error
                },
            };
            // The base keeps the type it was synthesized with; checking the
            // index records the types of the index's own nodes.
            self.record(base.id, kept);
            r
        } else {
            Ty::Error
        }
    }
}

/// Appending sema errors to a list of sema errors gives a list of sema
/// errors.
pub proof fn lemma_appends_keeps(a: Seq<Diagnostic>, b: Seq<Diagnostic>)
    requires
        all_sema_errors(a),
        crate::diag::appends_sema_errors(a, b),
    ensures
        all_sema_errors(b),
{
    assert forall|i: int| 0 <= i < b.len() implies (#[trigger] b[i]).phase == Phase::Sema && b[i].level == Level::Error by {
        if i < a.len() {
            assert(b[i] == b.subrange(0, a.len() as int)[i]);
        }
    }
}

/// A vector literal whose elements are all numeric literals.
#[verifier::loop_isolation(false)]
fn all_numeric_literal_elems(e: &Expr) -> (r: bool) {
    match &e.kind {
        ExprKind::VecLit(elems) => {
            let mut i: usize = 0;
            while i < elems.len()
                invariant
                    i <= elems@.len(),
                decreases elems@.len() - i,
            {
                if !is_numeric_literal(&elems[i]) {
                    return false;
                }
                i = i + 1;
            }
            true
        },
        _ => false,
    }
}

/// Type-check every function body and top-level `let` initializer.
/// Returns the per-node types (with solved variables substituted), the
/// definitions' types (now including local bindings) and the
/// diagnostics, which are all sema errors. A recorded type that still
/// holds an unbound inference variable is reported as ambiguous.
#[verifier::loop_isolation(false)]
pub fn run(
    program: &Program,
    resolutions: ResolveTable,
    definitions: DefinitionTable,
    binding_def_ids: BindingTable,
    def_types: DefMap<Ty>,
    struct_fields: DefMap<Vec<(String, Ty)>>,
    variant_payloads: DefMap<VariantPayload>,
) -> (r: (NodeMap<Ty>, TypeChecker))
    ensures
        all_sema_errors(r.1.diagnostics@),
        r.1.resolutions == resolutions,
        r.1.definitions == definitions,
        r.1.binding_def_ids == binding_def_ids,
        r.1.struct_fields == struct_fields,
        r.1.variant_payloads == variant_payloads,
        forall|n: NodeId| #[trigger] r.0.at(n) is Some <==> r.1.types.at(n) is Some,
        forall|n: NodeId| #[trigger] r.0.at(n) matches Some(t) ==> t@ == resolve_deep_spec(
            r.1.unify_table.cells(),
            r.1.types.at(n)->0@,
            DEPTH_LIMIT as nat,
        ),
        forall|k: int| 0 <= k < program.items@.len() ==> #[trigger] item_typed(program.items@[k], r.0, binding_def_ids),
        program.items@.len() == 0 ==> r.1.diagnostics@.len() == 0,
        (exists|n: NodeId| #[trigger] r.0.at(n) matches Some(t) && has_var(t@)) ==> r.1.diagnostics@.len() > 0
            && sema_error(r.1.diagnostics@.last(), program.span, "ambiguous type: annotation needed"@),
{
    let mut tc = TypeChecker::new(resolutions, definitions, binding_def_ids, def_types, struct_fields, variant_payloads);
    let ghost tc0 = tc;
    let mut i: usize = 0;
    while i < program.items.len()
        invariant
            tc.ok(),
            tc.same_tables(tc0),
            tc0.binding_def_ids == binding_def_ids,
            forall|k: int| 0 <= k < i ==> #[trigger] item_typed(program.items@[k], tc.types, binding_def_ids),
            i <= program.items@.len(),
            i == 0 ==> tc.diagnostics@.len() == 0,
            i == 0 ==> forall|n: NodeId| tc.types.at(n) is None,
        decreases program.items@.len() - i,
    {
        let ghost types0 = tc.types;
        match &program.items[i] {
            Item::Function(f) => tc.check_function(f),
            Item::Let(l) => {
                let expected = match tc.binding_def_ids.get(&l.init.id) {
                    Some(d) => match tc.def_types.get(d) {
                        Some(t) => t.dup(),
                        None => Ty::Error,
                    },
                    None => Ty::Error,
                };
                tc.check_expr(&l.init, &expected);
            },
            _ => {},
        }
        proof {
            assert forall|k: int| 0 <= k < i + 1 implies #[trigger] item_typed(program.items@[k], tc.types, binding_def_ids) by {
                if k < i {
                    assert(item_typed(program.items@[k], types0, binding_def_ids));
                }
            }
        }
        i = i + 1;
    }
    let keys = tc.types.keys();
    let mut resolved: NodeMap<Ty> = NodeMap::new();
    let mut residual = false;
    let mut k: usize = 0;
    while k < keys.len()
        invariant
            k <= keys@.len(),
            forall|i: int| 0 <= i < keys@.len() ==> tc.types.at(#[trigger] keys@[i]) is Some,
            forall|i: int, j: int| 0 <= i < j < keys@.len() ==> keys@[i].0 < keys@[j].0,
            forall|j: int| 0 <= j < k ==> ((#[trigger] resolved.at(keys@[j])) matches Some(t) && t@ == resolve_deep_spec(
                tc.unify_table.cells(),
                tc.types.at(keys@[j])->0@,
                DEPTH_LIMIT as nat,
            )),
            forall|n: NodeId| #[trigger] resolved.at(n) is Some ==> exists|j: int| 0 <= j < k && keys@[j] == n,
            residual <==> exists|j: int| 0 <= j < k && ((#[trigger] resolved.at(keys@[j])) matches Some(t) && has_var(t@)),
        decreases keys@.len() - k,
    {
        let ghost before = resolved;
        let ghost res0 = residual;
        if let Some(t) = tc.types.get(&keys[k]) {
            let rt = tc.unify_table.resolve_deep(t);
            if ty_has_var(&rt) {
                residual = true;
            }
            resolved.insert(keys[k], rt);
        }
        proof {
            assert forall|j: int| 0 <= j < k + 1 implies ((#[trigger] resolved.at(keys@[j])) matches Some(t) && t@
                == resolve_deep_spec(tc.unify_table.cells(), tc.types.at(keys@[j])->0@, DEPTH_LIMIT as nat)) by {
                if j < k {
                    assert(keys@[j] != keys@[k as int]);
                }
            }
            assert(residual <==> exists|j: int| 0 <= j < k + 1 && ((#[trigger] resolved.at(keys@[j])) matches Some(t) && has_var(t@))) by {
                if res0 {
                    let j = choose|j: int| 0 <= j < k && ((#[trigger] before.at(keys@[j])) matches Some(t) && has_var(t@));
                    assert(keys@[j] != keys@[k as int]);
                    assert(resolved.at(keys@[j]) == before.at(keys@[j]));
                }
                if exists|j: int| 0 <= j < k + 1 && ((#[trigger] resolved.at(keys@[j])) matches Some(t) && has_var(t@)) {
                    let j = choose|j: int| 0 <= j < k + 1 && ((#[trigger] resolved.at(keys@[j])) matches Some(t) && has_var(t@));
                    if j < k {
                        assert(keys@[j] != keys@[k as int]);
                        assert(before.at(keys@[j]) == resolved.at(keys@[j]));
                    }
                }
            }
            assert forall|n: NodeId| #[trigger] resolved.at(n) is Some implies exists|j: int| 0 <= j < k + 1 && keys@[j] == n by {
                if n != keys@[k as int] {
                    assert(before.at(n) is Some);
                }
            }
        }
        k = k + 1;
    }
    proof {
        assert forall|n: NodeId| #[trigger] tc.types.at(n) is Some implies resolved.at(n) is Some by {
            let i = choose|i: int| 0 <= i < keys@.len() && keys@[i] == n;
            assert(resolved.at(keys@[i]) is Some);
        }
    }
    proof {
        assert forall|k: int| 0 <= k < program.items@.len() implies #[trigger] item_typed(program.items@[k], resolved, binding_def_ids) by {
            assert(item_typed(program.items@[k], tc.types, binding_def_ids));
        }
        if exists|n: NodeId| #[trigger] resolved.at(n) matches Some(t) && has_var(t@) {
            let n = choose|n: NodeId| #[trigger] resolved.at(n) matches Some(t) && has_var(t@);
            let j = choose|j: int| 0 <= j < keys@.len() && keys@[j] == n;
            assert(resolved.at(keys@[j]) matches Some(t) && has_var(t@));
        }
        if program.items@.len() == 0 && keys@.len() > 0 {
            assert(tc.types.at(keys@[0]) is Some);
        }
    }
    // A type left holding an inference variable that nothing bound is
    // ambiguous; it is reported once, at the program.
    if residual {
        tc.report(crate::sema::diag::unresolved_type_var(program.span));
    }
    (resolved, tc)
}

} // verus!
