//! `match` expressions: pattern checking against the scrutinee's type and
//! arm-type agreement.

use vstd::prelude::*;
use crate::ast::{Expr, ExprKind, MatchArm, Pattern, PatternKind};
use crate::ids::DefId;
use crate::sema::check::{grows, keeps_types, unify_reports, TypeChecker};
use crate::sema::diag::{sema_error, ty_text};
use crate::text::nat_digits;
use crate::sema::exhaust::check_exhaustive;
use crate::sema::ty::{lemma_substs_len, lemma_tys_view_len, subst_tys, tys_view, Ty, TyV};
use crate::sema::unify::resolve_spec;

verus! {

broadcast use vstd::std_specs::vec::group_vec_axioms;

impl TypeChecker {
    /// `match`: each arm's pattern is checked against the scrutinee's
    /// type, every arm body must have the first arm's type (a disagreement
    /// makes the match `Error`), and the arms must be exhaustive.
    #[verifier::loop_isolation(false)]
    pub fn synth_match(&mut self, e: &Expr) -> (r: Ty)
        requires
            old(self).ok(),
        ensures
            final(self).ok(),
            final(self).same_tables(*old(self)),
            grows(old(self).diagnostics@, final(self).diagnostics@),
            keeps_types(old(self).types, final(self).types),
        decreases e, 0nat,
    {
        if let ExprKind::Match(scrutinee, arms) = &e.kind {
            let scrut_ty = self.synth_expr(scrutinee);
            if arms.len() == 0 {
                return Ty::Error;
            }
            let seed_ty = self.check_match_arm(&arms[0], &scrut_ty);
            let mut had_arm_mismatch = false;
            let mut i: usize = 1;
            while i < arms.len()
                invariant
                    self.ok(),
                    self.same_tables(*old(self)),
                    grows(old(self).diagnostics@, self.diagnostics@),
                    keeps_types(old(self).types, self.types),
                decreases arms@.len() - i,
            {
                let arm_ty = self.check_match_arm(&arms[i], &scrut_ty);
                let prev = self.diagnostics.len();
                self.unify_or_diag(&arm_ty, &seed_ty, arms[i].span);
                if self.diagnostics.len() != prev {
                    had_arm_mismatch = true;
                }
                i = i + 1;
            }
            let resolved_scrut = self.unify_table.resolve_deep(&scrut_ty);
            let mut exhaust = check_exhaustive(
                &resolved_scrut,
                arms,
                scrutinee.span,
                &self.resolutions,
                &self.definitions,
                &self.variant_payloads,
            );
            self.diagnostics.append(&mut exhaust);
            if had_arm_mismatch { Ty::Error } else { seed_ty }
        } else {
            Ty::Error
        }
    }

    #[verifier::loop_isolation(false)]
    fn check_match_arm(&mut self, arm: &MatchArm, scrut_ty: &Ty) -> (r: Ty)
        requires
            old(self).ok(),
        ensures
            final(self).ok(),
            final(self).same_tables(*old(self)),
            grows(old(self).diagnostics@, final(self).diagnostics@),
            keeps_types(old(self).types, final(self).types),
        decreases arm,
    {
        self.check_pattern(&arm.pattern, scrut_ty);
        self.synth_block(&arm.body)
    }

    /// Literal patterns must fit the expected type, bindings take it, and a
    /// variant pattern must name a variant of the expected enum with the
    /// right number of sub-patterns, each checked against the payload type
    /// instantiated with the enum's type arguments.
    #[verifier::loop_isolation(false)]
    pub fn check_pattern(&mut self, p: &Pattern, expected: &Ty)
        requires
            old(self).ok(),
        ensures
            final(self).ok(),
            final(self).same_tables(*old(self)),
            grows(old(self).diagnostics@, final(self).diagnostics@),
            keeps_types(old(self).types, final(self).types),
            p.kind is Wildcard ==> *final(self) == *old(self),
            p.kind is IntLit ==> final(self).def_types == old(self).def_types && unify_reports(
                old(self).unify_table.cells(),
                TyV::Int,
                expected@,
                old(self).diagnostics@,
                final(self).diagnostics@,
            ),
            p.kind is BoolLit ==> final(self).def_types == old(self).def_types && unify_reports(
                old(self).unify_table.cells(),
                TyV::Bool,
                expected@,
                old(self).diagnostics@,
                final(self).diagnostics@,
            ),
            p.kind is StrLit ==> final(self).def_types == old(self).def_types && unify_reports(
                old(self).unify_table.cells(),
                TyV::Str,
                expected@,
                old(self).diagnostics@,
                final(self).diagnostics@,
            ),
            p.kind is Ident ==> final(self).diagnostics == old(self).diagnostics && match old(self).binding_def_ids.at(p.id) {
                Some(d) => (final(self).def_types.at(d) matches Some(t) && t@ == expected@) && forall|d2: DefId|
                    d2 != d ==> #[trigger] final(self).def_types.at(d2) == old(self).def_types.at(d2),
                None => final(self).def_types == old(self).def_types,
            },
            p.kind matches PatternKind::Variant(name, subs) ==> match old(self).resolutions.at(p.id) {
                None => *final(self) == *old(self),
                Some(v) => match old(self).variant_payloads.at(v) {
                    None => *final(self) == *old(self),
                    Some(info) => {
                        let c = old(self).unify_table.cells();
                        let re = resolve_spec(c, expected@, (c.len() + 1) as nat);
                        let defs = old(self).definitions;
                        let refused = !(re is Error) && !(re matches TyV::Enum(pe, _) && pe == info.parent_enum
                            && subs@.len() == info.payload@.len());
                        &&& re is Error ==> *final(self) == *old(self)
                        &&& refused ==> final(self).def_types == old(self).def_types && final(self).unify_table
                            == old(self).unify_table && final(self).types == old(self).types
                            && final(self).diagnostics@.len() == old(self).diagnostics@.len() + 1
                            && final(self).diagnostics@.drop_last() == old(self).diagnostics@
                        &&& !(re is Error || re is Enum) ==> sema_error(
                            final(self).diagnostics@.last(),
                            p.span,
                            "pattern matches "@ + "enum"@ + " but scrutinee is `"@ + ty_text(re, defs) + "`"@,
                        )
                        &&& (re matches TyV::Enum(pe, _) && pe != info.parent_enum) ==> sema_error(
                            final(self).diagnostics@.last(),
                            p.span,
                            "variant `"@ + name@ + "` does not belong to scrutinee type `"@ + ty_text(re, defs) + "`"@,
                        )
                        &&& (re matches TyV::Enum(pe, _) && pe == info.parent_enum && subs@.len() != info.payload@.len())
                            ==> sema_error(
                            final(self).diagnostics@.last(),
                            p.span,
                            "wrong number of arguments: expected "@ + nat_digits(info.payload@.len()) + ", found "@
                                + nat_digits(subs@.len()),
                        )
                    },
                },
            },
        decreases p,
    {
        match &p.kind {
            PatternKind::Wildcard => {},
            PatternKind::IntLit(_) => self.unify_or_diag(&Ty::Int, expected, p.span),
            PatternKind::BoolLit(_) => self.unify_or_diag(&Ty::Bool, expected, p.span),
            PatternKind::StrLit(_) => self.unify_or_diag(&Ty::String, expected, p.span),
            PatternKind::Ident(_) => {
                if let Some(d) = self.binding_def_ids.get(&p.id) {
                    let d = *d;
                    self.def_types.insert(d, expected.dup());
                }
            },
            PatternKind::Variant(name, subs) => {
                let variant_def_id = match self.resolutions.get(&p.id) {
                    Some(d) => *d,
                    None => {
                        return;
                    },
                };
                let (parent_enum, payload) = match self.variant_payloads.get(&variant_def_id) {
                    Some(info) => (info.parent_enum, crate::sema::ty::clone_tys(&info.payload)),
                    None => {
                        return;
                    },
                };
                let resolved_expected = self.unify_table.resolve(expected);
                let (parent, type_args) = match &resolved_expected {
                    Ty::Enum(parent, args) => (*parent, crate::sema::ty::clone_tys(args)),
                    Ty::Error => {
                        return;
                    },
                    other => {
                        let d = crate::sema::diag::pattern_type_mismatch(&self.definitions, p.span, other, "enum");
                        self.report(d);
                        return;
                    },
                };
                if parent_enum.0 != parent.0 {
                    let d = crate::sema::diag::wrong_variant_for_enum(&self.definitions, p.span, name.as_str(), &resolved_expected);
                    self.report(d);
                    return;
                }
                let substituted = subst_tys(&payload, &type_args);
                proof {
                    lemma_tys_view_len(substituted@);
                    lemma_tys_view_len(payload@);
                    lemma_substs_len(tys_view(payload@), tys_view(type_args@));
                }
                if subs.len() != substituted.len() {
                    self.report(crate::sema::diag::wrong_arity(p.span, substituted.len(), subs.len()));
                    return;
                }
                let mut i: usize = 0;
                while i < subs.len()
                    invariant
                        self.ok(),
                        self.same_tables(*old(self)),
                        grows(old(self).diagnostics@, self.diagnostics@),
                        keeps_types(old(self).types, self.types),
                        subs@.len() == substituted@.len(),
                    decreases subs@.len() - i,
                {
                    self.check_pattern(&subs[i], &substituted[i]);
                    i = i + 1;
                }
            },
        }
    }
}

} // verus!
