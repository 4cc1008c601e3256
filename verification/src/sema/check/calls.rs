//! Calls, identifiers and generic enum constructors.

use vstd::prelude::*;
use crate::ast::{Expr, ExprKind};
use crate::ids::DefId;
use crate::sema::check::{grows, keeps_types, TypeChecker};
use crate::sema::resolve::{DefKind, DefinitionTable};
use crate::sema::ty::{Ty, TyV};

verus! {

broadcast use vstd::std_specs::vec::group_vec_axioms;

/// `d` is defined as an enum variant.
pub open spec fn is_variant_in(definitions: DefinitionTable, d: DefId) -> bool {
    definitions.at(d) matches Some(info) && info.kind == DefKind::EnumVariant
}

impl TypeChecker {
    /// A call in checking mode: the callee's return type is unified with
    /// `expected` before the arguments are checked, so that type variables
    /// of a generic constructor learn from the context.
    #[verifier::loop_isolation(false)]
    pub fn check_call(&mut self, e: &Expr, expected: &Ty) -> (r: Ty)
        requires
            old(self).ok(),
        ensures
            final(self).ok(),
            final(self).same_tables(*old(self)),
            grows(old(self).diagnostics@, final(self).diagnostics@),
            keeps_types(old(self).types, final(self).types),
            e.kind is Call ==> (final(self).types.at(e.id) matches Some(t) && t@ == r@),
        decreases e, 2nat,
    {
        if let ExprKind::Call(callee, args) = &e.kind {
            let callee_ty = self.synth_expr(callee);
            let resolved = self.unify_table.resolve(&callee_ty);
            let result = match resolved {
                Ty::Error => Ty::Error,
                Ty::Function(param_tys, ret_ty) => {
                    let _ = self.unify_table.unify(&ret_ty, expected);
                    if param_tys.len() != args.len() {
                        self.report(crate::sema::diag::wrong_arity(e.span, param_tys.len(), args.len()));
                        Ty::Error
                    } else {
                        let mut i: usize = 0;
                        while i < args.len()
                            invariant
                                self.ok(),
                                self.same_tables(*old(self)),
                                grows(old(self).diagnostics@, self.diagnostics@),
                                keeps_types(old(self).types, self.types),
                                param_tys@.len() == args@.len(),
                            decreases args@.len() - i,
                        {
                            self.check_expr(&args[i], &param_tys[i]);
                            i = i + 1;
                        }
                        *ret_ty
                    }
                },
                other => {
                    let d = crate::sema::diag::not_callable(&self.definitions, callee.span, &other);
                    self.report(d);
                    Ty::Error
                },
            };
            self.unify_or_diag(&result, expected, e.span);
            self.record(e.id, result)
        } else {
            Ty::Error
        }
    }

    /// The type of a name: its definition's type, with a generic enum
    /// variant's type parameters replaced by fresh variables. A struct or
    /// enum name is not a value.
    #[verifier::loop_isolation(false)]
    pub fn synth_ident(&mut self, e: &Expr) -> (r: Ty)
        requires
            old(self).ok(),
        ensures
            final(self).ok(),
            final(self).same_tables(*old(self)),
            grows(old(self).diagnostics@, final(self).diagnostics@),
            keeps_types(old(self).types, final(self).types),
            old(self).resolutions.at(e.id) is None ==> r@ == TyV::Error,
            old(self).resolutions.at(e.id) matches Some(d) && old(self).def_types.at(d) is None ==> r@ == TyV::Error,
            old(self).resolutions.at(e.id) matches Some(d) ==> (old(self).def_types.at(d) matches Some(t)
                ==> (!is_variant_in(old(self).definitions, d) ==> r@ == t@)),
    {
        let def_id = match self.resolutions.get(&e.id) {
            Some(d) => *d,
            None => {
                return Ty::Error;
            },
        };
        let found = match self.def_types.get(&def_id) {
            Some(t) => Some(t.dup()),
            None => None,
        };
        if let Some(ty) = found {
            if self.is_variant_def(def_id) {
                return self.instantiate_variant_schema(def_id, &ty);
            }
            return ty;
        }
        let info = match self.definitions.get(&def_id) {
            Some(info) => Some((info.kind, info.name.clone())),
            None => None,
        };
        if let Some((kind, name)) = info {
            match kind {
                DefKind::Struct | DefKind::Enum => {
                    self.report(crate::sema::diag::not_a_value(e.span, kind, name.as_str()));
                },
                _ => {},
            }
        }
        Ty::Error
    }

    fn is_variant_def(&self, def_id: DefId) -> (r: bool)
        ensures
            r == is_variant_in(self.definitions, def_id),
    {
        match self.definitions.get(&def_id) {
            Some(info) => matches!(info.kind, DefKind::EnumVariant),
            None => false,
        }
    }

    /// A variant's schema with each type parameter of its enum replaced by
    /// a fresh type variable.
    #[verifier::loop_isolation(false)]
    fn instantiate_variant_schema(&mut self, variant_def_id: DefId, schema: &Ty) -> (r: Ty)
        requires
            old(self).ok(),
        ensures
            final(self).ok(),
            final(self).same_tables(*old(self)),
            grows(old(self).diagnostics@, final(self).diagnostics@),
            keeps_types(old(self).types, final(self).types),
            final(self).diagnostics == old(self).diagnostics,
    {
        let n_params = match self.variant_payloads.get(&variant_def_id) {
            Some(vp) => match self.definitions.get(&vp.parent_enum) {
                Some(info) => info.type_params.len(),
                None => 0,
            },
            None => 0,
        };
        if n_params == 0 {
            return schema.dup();
        }
        let mut type_args: Vec<Ty> = Vec::new();
        let mut i: usize = 0;
        while i < n_params
            invariant
                self.diagnostics == old(self).diagnostics,
                self.same_tables(*old(self)),
                self.types == old(self).types,
            decreases n_params - i,
        {
            type_args.push(Ty::Var(self.unify_table.fresh()));
            i = i + 1;
        }
        schema.subst_with_args(&type_args)
    }

    /// A call in synthesis mode: arity first (a mismatch leaves the
    /// arguments unchecked), then each argument against its parameter.
    #[verifier::loop_isolation(false)]
    pub fn synth_call(&mut self, e: &Expr) -> (r: Ty)
        requires
            old(self).ok(),
        ensures
            final(self).ok(),
            final(self).same_tables(*old(self)),
            grows(old(self).diagnostics@, final(self).diagnostics@),
            keeps_types(old(self).types, final(self).types),
        decreases e, 0nat,
    {
        if let ExprKind::Call(callee, args) = &e.kind {
            let callee_ty = self.synth_expr(callee);
            match callee_ty {
                Ty::Error => Ty::Error,
                Ty::Function(param_tys, ret_ty) => {
                    if param_tys.len() != args.len() {
                        self.report(crate::sema::diag::wrong_arity(e.span, param_tys.len(), args.len()));
                        return Ty::Error;
                    }
                    let mut i: usize = 0;
                    while i < args.len()
                        invariant
                            self.ok(),
                            self.same_tables(*old(self)),
                            grows(old(self).diagnostics@, self.diagnostics@),
                            keeps_types(old(self).types, self.types),
                            param_tys@.len() == args@.len(),
                        decreases args@.len() - i,
                    {
                        self.check_expr(&args[i], &param_tys[i]);
                        i = i + 1;
                    }
                    *ret_ty
                },
                other => {
                    let d = crate::sema::diag::not_callable(&self.definitions, callee.span, &other);
                    self.report(d);
                    Ty::Error
                },
            }
        } else {
            Ty::Error
        }
    }
}

} // verus!
