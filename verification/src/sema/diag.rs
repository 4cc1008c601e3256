//! Diagnostic constructors for the sema phase.

use vstd::prelude::*;
use crate::diag::{Diagnostic, Level, Phase};
use crate::source::Span;
use crate::ids::DefId;
use crate::sema::dimension::{format_si_spec, is_zero_dim};
use crate::sema::resolve::{DefKind, DefinitionTable};
use crate::sema::ty::{lemma_tys_view_index, lemma_tys_view_len, tys_view, Ty, TyV};
use crate::text::{int_digits, nat_digits, push_i64, push_str, push_usize, string_of};

verus! {

/// A use of a name that no enclosing scope defines.
pub fn undefined_name(span: Span, name: &str) -> (d: Diagnostic)
    ensures
        d.level == Level::Error,
        d.phase == Phase::Sema,
        d.span == span,
        d.message@ == "undefined name `"@ + name@ + "`"@,
        d.labels@.len() == 0,
        d.notes@.len() == 0,
{
    let mut m = string_of("undefined name `");
    push_str(&mut m, name);
    push_str(&mut m, "`");
    Diagnostic::error_owned(Phase::Sema, span, m)
}

/// A second definition of `name` in the same scope; labelled with the
/// first definition's span.
pub fn duplicate_name(span: Span, prev_span: Span, name: &str) -> (d: Diagnostic)
    ensures
        d.level == Level::Error,
        d.phase == Phase::Sema,
        d.span == span,
        d.message@ == "`"@ + name@ + "` is already defined in this scope"@,
        d.labels@.len() == 1,
        d.labels@[0].0 == prev_span,
        d.labels@[0].1@ == "previously defined here"@,
        d.notes@.len() == 0,
{
    let mut m = string_of("`");
    push_str(&mut m, name);
    push_str(&mut m, "` is already defined in this scope");
    Diagnostic::error_owned(Phase::Sema, span, m).with_label(prev_span, "previously defined here")
}

/// Reported when a unit atom name is not in the built-in registry.
pub fn unknown_unit(span: Span, name: &str) -> (d: Diagnostic)
    ensures
        d.level == Level::Error,
        d.phase == Phase::Sema,
        d.span == span,
        d.message@ == "unknown unit `"@ + name@ + "`"@,
        d.labels@.len() == 0,
        d.notes@.len() == 0,
{
    let mut m = string_of("unknown unit `");
    push_str(&mut m, name);
    push_str(&mut m, "`");
    Diagnostic::error_owned(Phase::Sema, span, m)
}

/// Reported when a type the checker recorded still holds an inference
/// variable that nothing bound.
pub fn unresolved_type_var(span: Span) -> (d: Diagnostic)
    ensures
        sema_error(d, span, "ambiguous type: annotation needed"@),
{
    Diagnostic::error_owned(Phase::Sema, span, string_of("ambiguous type: annotation needed"))
}

/// Reported when a dimension arithmetic operation overflows during
/// unit-expression evaluation or operator typing.
pub fn dimension_overflow(span: Span) -> (d: Diagnostic)
    ensures
        d.level == Level::Error,
        d.phase == Phase::Sema,
        d.span == span,
        d.message@ == "dimension component overflow in unit expression"@,
        d.labels@.len() == 0,
        d.notes@.len() == 0,
{
    Diagnostic::type_error(span, "dimension component overflow in unit expression")
}

/// Reported when a unit exponent literal lies outside `[-128, 127]`.
pub fn unit_exponent_out_of_range(span: Span, n: i64) -> (d: Diagnostic)
    ensures
        d.level == Level::Error,
        d.phase == Phase::Sema,
        d.span == span,
        d.message@ == "unit exponent "@ + int_digits(n as int) + " out of valid range [-128, 127]"@,
        d.labels@.len() == 0,
        d.notes@.len() == 0,
{
    let mut m = string_of("unit exponent ");
    push_i64(&mut m, n);
    push_str(&mut m, " out of valid range [-128, 127]");
    Diagnostic::error_owned(Phase::Sema, span, m)
}


/// How a type is written in messages.
pub open spec fn ty_text(t: TyV, defs: DefinitionTable) -> Seq<char>
    decreases t,
{
    match t {
        TyV::Int => "Int"@,
        TyV::Scalar(d) => if is_zero_dim(d) { "Scalar"@ } else { "Scalar<"@ + format_si_spec(d) + ">"@ },
        TyV::Bool => "Bool"@,
        TyV::Str => "String"@,
        TyV::Vec(n, d) => if is_zero_dim(d) {
            "Vec<"@ + nat_digits(n as nat) + ">"@
        } else {
            "Vec<"@ + nat_digits(n as nat) + ", "@ + format_si_spec(d) + ">"@
        },
        TyV::Mat(m, n) => "Mat<"@ + nat_digits(m as nat) + ", "@ + nat_digits(n as nat) + ">"@,
        TyV::Array(e) => "Array<"@ + ty_text(*e, defs) + ">"@,
        TyV::Dict(k, v) => "Dict<"@ + ty_text(*k, defs) + ", "@ + ty_text(*v, defs) + ">"@,
        TyV::Function(args, ret) => "("@ + tys_text(args, defs) + ") -> "@ + ty_text(*ret, defs),
        TyV::Struct(id) => match defs.at(id) {
            Some(info) => info.name@,
            None => "<struct>"@,
        },
        TyV::Enum(id, args) => {
            let name = match defs.at(id) {
                Some(info) => info.name@,
                None => "<enum>"@,
            };
            if args.len() == 0 { name } else { name + "<"@ + tys_text(args, defs) + ">"@ }
        },
        TyV::Var(_) => "?"@,
        TyV::Param(i) => "<param #"@ + nat_digits(i as nat) + ">"@,
        TyV::Error => "<error>"@,
    }
}

/// Types written one after another, separated by `, `.
pub open spec fn tys_text(ts: Seq<TyV>, defs: DefinitionTable) -> Seq<char>
    decreases ts,
{
    if ts.len() == 0 {
        Seq::empty()
    } else if ts.len() == 1 {
        ty_text(ts[0], defs)
    } else {
        tys_text(ts.drop_last(), defs) + ", "@ + ty_text(ts.last(), defs)
    }
}

fn push_tys(out: &mut String, ts: &Vec<Ty>, defs: &DefinitionTable)
    ensures
        final(out)@ == old(out)@ + tys_text(tys_view(ts@), *defs),
    decreases ts@, 0nat,
{
    proof { lemma_tys_view_len(ts@); }
    let ghost tv = tys_view(ts@);
    let mut i: usize = 0;
    assert(tv.take(0) =~= Seq::<TyV>::empty());
    while i < ts.len()
        invariant
            i <= ts@.len(),
            tv == tys_view(ts@),
            tv.len() == ts@.len(),
            out@ == old(out)@ + tys_text(tv.take(i as int), *defs),
        decreases ts@.len() - i,
    {
        proof { lemma_tys_view_index(ts@, i as int); }
        assert(tv.take(i + 1).drop_last() =~= tv.take(i as int));
        assert(tv.take(i + 1).last() == ts@[i as int]@);
        if i > 0 {
            push_str(out, ", ");
        }
        let t = format_ty(&ts[i], defs);
        push_str(out, t.as_str());
        i = i + 1;
        proof {
            if i == 1 {
                assert(tv.take(1) =~= seq![tv[0]]);
                assert(out@ =~= old(out)@ + tys_text(tv.take(i as int), *defs));
            } else {
                assert(out@ =~= old(out)@ + tys_text(tv.take(i as int), *defs));
            }
        }
    }
    assert(tv.take(ts@.len() as int) =~= tv);
}

/// The text of a type as shown in diagnostics.
pub fn format_ty(ty: &Ty, defs: &DefinitionTable) -> (r: String)
    ensures
        r@ == ty_text(ty@, *defs),
    decreases ty, 1nat,
{
    match ty {
        Ty::Int => string_of("Int"),
        Ty::Scalar(d) => {
            if d.is_dimensionless() {
                string_of("Scalar")
            } else {
                let mut s = string_of("Scalar<");
                let f = d.format_si();
                push_str(&mut s, f.as_str());
                push_str(&mut s, ">");
                s
            }
        },
        Ty::Bool => string_of("Bool"),
        Ty::String => string_of("String"),
        Ty::Vec(n, d) => {
            let mut s = string_of("Vec<");
            push_usize(&mut s, *n);
            if !d.is_dimensionless() {
                push_str(&mut s, ", ");
                let f = d.format_si();
                push_str(&mut s, f.as_str());
            }
            push_str(&mut s, ">");
            s
        },
        Ty::Mat(m, n) => {
            let mut s = string_of("Mat<");
            push_usize(&mut s, *m);
            push_str(&mut s, ", ");
            push_usize(&mut s, *n);
            push_str(&mut s, ">");
            s
        },
        Ty::Array(t) => {
            let mut s = string_of("Array<");
            let inner = format_ty(t, defs);
            push_str(&mut s, inner.as_str());
            push_str(&mut s, ">");
            s
        },
        Ty::Dict(k, v) => {
            let mut s = string_of("Dict<");
            let a = format_ty(k, defs);
            push_str(&mut s, a.as_str());
            push_str(&mut s, ", ");
            let b = format_ty(v, defs);
            push_str(&mut s, b.as_str());
            push_str(&mut s, ">");
            s
        },
        Ty::Function(args, ret) => {
            let mut s = string_of("(");
            push_tys(&mut s, args, defs);
            push_str(&mut s, ") -> ");
            let r = format_ty(ret, defs);
            push_str(&mut s, r.as_str());
            s
        },
        Ty::Struct(id) => match defs.get(id) {
            Some(info) => info.name.clone(),
            None => string_of("<struct>"),
        },
        Ty::Enum(id, args) => {
            let mut s = match defs.get(id) {
                Some(info) => info.name.clone(),
                None => string_of("<enum>"),
            };
            proof { lemma_tys_view_len(args@); }
            if args.len() > 0 {
                push_str(&mut s, "<");
                push_tys(&mut s, args, defs);
                push_str(&mut s, ">");
            }
            s
        },
        Ty::Var(_) => string_of("?"),
        Ty::Param(i) => {
            let mut s = string_of("<param #");
            push_usize(&mut s, *i);
            push_str(&mut s, ">");
            s
        },
        Ty::Error => string_of("<error>"),
    }
}

/// A sema error whose whole message is `msg`.
pub open spec fn sema_error(d: Diagnostic, span: Span, msg: Seq<char>) -> bool {
    &&& d.level == Level::Error
    &&& d.phase == Phase::Sema
    &&& d.span == span
    &&& d.message@ == msg
    &&& d.labels@.len() == 0
    &&& d.notes@.len() == 0
}

/// `expected` and `actual` types differ.
pub fn type_mismatch_full(defs: &DefinitionTable, span: Span, expected: &Ty, actual: &Ty) -> (d: Diagnostic)
    ensures
        sema_error(d, span, "type mismatch: expected `"@ + ty_text(expected@, *defs) + "`, found `"@ + ty_text(actual@, *defs) + "`"@),
{
    let mut m = string_of("type mismatch: expected `");
    let e = format_ty(expected, defs);
    push_str(&mut m, e.as_str());
    push_str(&mut m, "`, found `");
    let a = format_ty(actual, defs);
    push_str(&mut m, a.as_str());
    push_str(&mut m, "`");
    Diagnostic::error_owned(Phase::Sema, span, m)
}

/// A type error with a caller-supplied message.
pub fn type_mismatch(span: Span, msg: &str) -> (d: Diagnostic)
    ensures
        sema_error(d, span, msg@),
{
    Diagnostic::type_error(span, msg)
}

/// An operator applied to an operand type it is not defined for.
pub fn op_type_error(defs: &DefinitionTable, span: Span, op_desc: &str, ty: &Ty) -> (d: Diagnostic)
    ensures
        sema_error(d, span, op_desc@ + " not defined for `"@ + ty_text(ty@, *defs) + "`"@),
{
    let mut m = string_of(op_desc);
    push_str(&mut m, " not defined for `");
    let t = format_ty(ty, defs);
    push_str(&mut m, t.as_str());
    push_str(&mut m, "`");
    Diagnostic::error_owned(Phase::Sema, span, m)
}

/// A condition that is not `Bool`.
pub fn non_bool_condition(defs: &DefinitionTable, span: Span, ty: &Ty) -> (d: Diagnostic)
    ensures
        sema_error(d, span, "expected `Bool` for condition, found `"@ + ty_text(ty@, *defs) + "`"@),
{
    let mut m = string_of("expected `Bool` for condition, found `");
    let t = format_ty(ty, defs);
    push_str(&mut m, t.as_str());
    push_str(&mut m, "`");
    Diagnostic::error_owned(Phase::Sema, span, m)
}

/// A call or pattern with the wrong number of arguments.
pub fn wrong_arity(span: Span, expected: usize, actual: usize) -> (d: Diagnostic)
    ensures
        sema_error(d, span, "wrong number of arguments: expected "@ + nat_digits(expected as nat) + ", found "@ + nat_digits(actual as nat)),
{
    let mut m = string_of("wrong number of arguments: expected ");
    push_usize(&mut m, expected);
    push_str(&mut m, ", found ");
    push_usize(&mut m, actual);
    Diagnostic::error_owned(Phase::Sema, span, m)
}

/// A generic type used with the wrong number of type arguments.
pub fn wrong_type_arity(span: Span, name: &str, expected: usize, actual: usize) -> (d: Diagnostic)
    ensures
        sema_error(d, span, "`"@ + name@ + "` expects "@ + nat_digits(expected as nat) + " type argument(s), but "@ + nat_digits(actual as nat) + " were provided"@),
{
    let mut m = string_of("`");
    push_str(&mut m, name);
    push_str(&mut m, "` expects ");
    push_usize(&mut m, expected);
    push_str(&mut m, " type argument(s), but ");
    push_usize(&mut m, actual);
    push_str(&mut m, " were provided");
    Diagnostic::error_owned(Phase::Sema, span, m)
}

/// A call of something that is not a function.
pub fn not_callable(defs: &DefinitionTable, span: Span, ty: &Ty) -> (d: Diagnostic)
    ensures
        sema_error(d, span, "type `"@ + ty_text(ty@, *defs) + "` is not callable"@),
{
    let mut m = string_of("type `");
    let t = format_ty(ty, defs);
    push_str(&mut m, t.as_str());
    push_str(&mut m, "` is not callable");
    Diagnostic::error_owned(Phase::Sema, span, m)
}

/// Access to a field the struct does not declare.
pub fn field_unknown(span: Span, struct_name: &str, field: &str) -> (d: Diagnostic)
    ensures
        sema_error(d, span, "struct `"@ + struct_name@ + "` has no field `"@ + field@ + "`"@),
{
    let mut m = string_of("struct `");
    push_str(&mut m, struct_name);
    push_str(&mut m, "` has no field `");
    push_str(&mut m, field);
    push_str(&mut m, "`");
    Diagnostic::error_owned(Phase::Sema, span, m)
}

/// A struct literal that leaves a declared field out.
pub fn missing_struct_field(span: Span, struct_name: &str, field: &str) -> (d: Diagnostic)
    ensures
        sema_error(d, span, "missing field `"@ + field@ + "` in struct `"@ + struct_name@ + "` literal"@),
{
    let mut m = string_of("missing field `");
    push_str(&mut m, field);
    push_str(&mut m, "` in struct `");
    push_str(&mut m, struct_name);
    push_str(&mut m, "` literal");
    Diagnostic::error_owned(Phase::Sema, span, m)
}

/// A struct literal that names a field the struct does not declare.
pub fn extra_struct_field(span: Span, struct_name: &str, field: &str) -> (d: Diagnostic)
    ensures
        sema_error(d, span, "struct `"@ + struct_name@ + "` has no field `"@ + field@ + "`; extra field in literal"@),
{
    let mut m = string_of("struct `");
    push_str(&mut m, struct_name);
    push_str(&mut m, "` has no field `");
    push_str(&mut m, field);
    push_str(&mut m, "`; extra field in literal");
    Diagnostic::error_owned(Phase::Sema, span, m)
}

pub open spec fn kind_word(kind: DefKind) -> Seq<char> {
    match kind {
        DefKind::Struct => "struct type"@,
        DefKind::Enum => "enum type"@,
        _ => "type"@,
    }
}

/// A type name used where a value is expected.
pub fn not_a_value(span: Span, kind: DefKind, name: &str) -> (d: Diagnostic)
    ensures
        sema_error(d, span, "`"@ + name@ + "` is a "@ + kind_word(kind) + ", not a value"@),
{
    let k = match kind {
        DefKind::Struct => "struct type",
        DefKind::Enum => "enum type",
        _ => "type",
    };
    let mut m = string_of("`");
    push_str(&mut m, name);
    push_str(&mut m, "` is a ");
    push_str(&mut m, k);
    push_str(&mut m, ", not a value");
    Diagnostic::error_owned(Phase::Sema, span, m)
}

/// A matrix literal row whose length differs from the first row's.
pub fn mat_shape_mismatch(span: Span, expected: (usize, usize), actual_cols: usize) -> (d: Diagnostic)
    ensures
        sema_error(d, span, "matrix shape mismatch: expected "@ + nat_digits(expected.0 as nat) + " rows \u{d7} "@
            + nat_digits(expected.1 as nat) + " cols, found a row with "@ + nat_digits(actual_cols as nat) + " cells"@),
{
    let mut m = string_of("matrix shape mismatch: expected ");
    push_usize(&mut m, expected.0);
    push_str(&mut m, " rows \u{d7} ");
    push_usize(&mut m, expected.1);
    push_str(&mut m, " cols, found a row with ");
    push_usize(&mut m, actual_cols);
    push_str(&mut m, " cells");
    Diagnostic::error_owned(Phase::Sema, span, m)
}

/// A literal pattern whose kind does not fit the scrutinee's type.
pub fn pattern_type_mismatch(defs: &DefinitionTable, span: Span, actual: &Ty, expected_kind: &str) -> (d: Diagnostic)
    ensures
        sema_error(d, span, "pattern matches "@ + expected_kind@ + " but scrutinee is `"@ + ty_text(actual@, *defs) + "`"@),
{
    let mut m = string_of("pattern matches ");
    push_str(&mut m, expected_kind);
    push_str(&mut m, " but scrutinee is `");
    let t = format_ty(actual, defs);
    push_str(&mut m, t.as_str());
    push_str(&mut m, "`");
    Diagnostic::error_owned(Phase::Sema, span, m)
}

/// A variant pattern naming a variant of another enum.
pub fn wrong_variant_for_enum(defs: &DefinitionTable, span: Span, variant_name: &str, scrut_ty: &Ty) -> (d: Diagnostic)
    ensures
        sema_error(d, span, "variant `"@ + variant_name@ + "` does not belong to scrutinee type `"@ + ty_text(scrut_ty@, *defs) + "`"@),
{
    let mut m = string_of("variant `");
    push_str(&mut m, variant_name);
    push_str(&mut m, "` does not belong to scrutinee type `");
    let t = format_ty(scrut_ty, defs);
    push_str(&mut m, t.as_str());
    push_str(&mut m, "`");
    Diagnostic::error_owned(Phase::Sema, span, m)
}

/// Names joined by `, `.
pub open spec fn join_names(ns: Seq<Seq<char>>) -> Seq<char>
    decreases ns.len(),
{
    if ns.len() == 0 {
        Seq::empty()
    } else if ns.len() == 1 {
        ns[0]
    } else {
        join_names(ns.drop_last()) + ", "@ + ns.last()
    }
}

pub open spec fn names_view(v: Seq<String>) -> Seq<Seq<char>> {
    Seq::new(v.len(), |i: int| v[i]@)
}

fn push_joined(out: &mut String, names: &Vec<String>)
    ensures
        final(out)@ == old(out)@ + join_names(names_view(names@)),
{
    let ghost nv = names_view(names@);
    let mut i: usize = 0;
    assert(nv.take(0) =~= Seq::<Seq<char>>::empty());
    while i < names.len()
        invariant
            i <= names@.len(),
            nv == names_view(names@),
            out@ == old(out)@ + join_names(nv.take(i as int)),
        decreases names@.len() - i,
    {
        assert(nv.take(i + 1).drop_last() =~= nv.take(i as int));
        if i > 0 {
            push_str(out, ", ");
        }
        push_str(out, names[i].as_str());
        i = i + 1;
        proof {
            if i == 1 {
                assert(nv.take(1) =~= seq![nv[0]]);
            }
            assert(out@ =~= old(out)@ + join_names(nv.take(i as int)));
        }
    }
    assert(nv.take(names@.len() as int) =~= nv);
}

/// A match over an enum that leaves variants out.
pub fn non_exhaustive_enum(span: Span, missing_variants: &Vec<String>) -> (d: Diagnostic)
    ensures
        sema_error(d, span, "non-exhaustive match: missing variant(s) "@ + join_names(names_view(missing_variants@))),
{
    let mut m = string_of("non-exhaustive match: missing variant(s) ");
    push_joined(&mut m, missing_variants);
    Diagnostic::error_owned(Phase::Sema, span, m)
}

/// A match over `Bool` that leaves `true` or `false` out.
pub fn non_exhaustive_bool(span: Span, missing: &Vec<String>) -> (d: Diagnostic)
    ensures
        sema_error(d, span, "non-exhaustive match on Bool: missing "@ + join_names(names_view(missing@))),
{
    let mut m = string_of("non-exhaustive match on Bool: missing ");
    push_joined(&mut m, missing);
    Diagnostic::error_owned(Phase::Sema, span, m)
}

/// A match over an open type (`Int`, `String`) without a catch-all arm.
pub fn requires_wildcard(span: Span, kind: &str) -> (d: Diagnostic)
    ensures
        sema_error(d, span, "non-exhaustive match on `"@ + kind@ + "`: a wildcard pattern (`_` or binding) is required"@),
{
    let mut m = string_of("non-exhaustive match on `");
    push_str(&mut m, kind);
    push_str(&mut m, "`: a wildcard pattern (`_` or binding) is required");
    Diagnostic::error_owned(Phase::Sema, span, m)
}

/// Operands of `op` whose units disagree; labelled on both sides.
pub fn dimension_mismatch(defs: &DefinitionTable, op: &str, lhs_span: Span, lhs: &Ty, rhs_span: Span, rhs: &Ty) -> (d: Diagnostic)
    ensures
        d.level == Level::Error,
        d.phase == Phase::Sema,
        d.span == Span::merge_spec(lhs_span, rhs_span),
        d.message@ == "dimension mismatch in '"@ + op@ + "': left side has "@ + ty_text(lhs@, *defs) + ", but right side has "@ + ty_text(rhs@, *defs),
        d.labels@.len() == 2,
        d.labels@[0].0 == lhs_span,
        d.labels@[0].1@ == "left side has "@ + ty_text(lhs@, *defs),
        d.labels@[1].0 == rhs_span,
        d.labels@[1].1@ == "right side has "@ + ty_text(rhs@, *defs),
        d.notes@.len() == 0,
{
    mismatch_with_sides(defs, "dimension mismatch in '", op, lhs_span, lhs, rhs_span, rhs)
}

/// Operands of `op` whose shapes disagree; labelled on both sides.
pub fn shape_mismatch(defs: &DefinitionTable, op: &str, lhs_span: Span, lhs: &Ty, rhs_span: Span, rhs: &Ty) -> (d: Diagnostic)
    ensures
        d.level == Level::Error,
        d.phase == Phase::Sema,
        d.span == Span::merge_spec(lhs_span, rhs_span),
        d.message@ == "shape mismatch in '"@ + op@ + "': left side has "@ + ty_text(lhs@, *defs) + ", but right side has "@ + ty_text(rhs@, *defs),
        d.labels@.len() == 2,
        d.labels@[0].0 == lhs_span,
        d.labels@[0].1@ == "left side has "@ + ty_text(lhs@, *defs),
        d.labels@[1].0 == rhs_span,
        d.labels@[1].1@ == "right side has "@ + ty_text(rhs@, *defs),
        d.notes@.len() == 0,
{
    mismatch_with_sides(defs, "shape mismatch in '", op, lhs_span, lhs, rhs_span, rhs)
}

fn mismatch_with_sides(defs: &DefinitionTable, head: &str, op: &str, lhs_span: Span, lhs: &Ty, rhs_span: Span, rhs: &Ty) -> (d: Diagnostic)
    ensures
        d.level == Level::Error,
        d.phase == Phase::Sema,
        d.span == Span::merge_spec(lhs_span, rhs_span),
        d.message@ == head@ + op@ + "': left side has "@ + ty_text(lhs@, *defs) + ", but right side has "@ + ty_text(rhs@, *defs),
        d.labels@.len() == 2,
        d.labels@[0].0 == lhs_span,
        d.labels@[0].1@ == "left side has "@ + ty_text(lhs@, *defs),
        d.labels@[1].0 == rhs_span,
        d.labels@[1].1@ == "right side has "@ + ty_text(rhs@, *defs),
        d.notes@.len() == 0,
{
    let l = format_ty(lhs, defs);
    let r = format_ty(rhs, defs);
    let mut m = string_of(head);
    push_str(&mut m, op);
    push_str(&mut m, "': left side has ");
    push_str(&mut m, l.as_str());
    push_str(&mut m, ", but right side has ");
    push_str(&mut m, r.as_str());
    let mut ll = string_of("left side has ");
    push_str(&mut ll, l.as_str());
    let mut rl = string_of("right side has ");
    push_str(&mut rl, r.as_str());
    let d0 = Diagnostic::error_owned(Phase::Sema, Span::merge(lhs_span, rhs_span), m);
    let d1 = d0.with_label(lhs_span, ll.as_str());
    d1.with_label(rhs_span, rl.as_str())
}
} // verus!
