//! The node ids a syntax tree carries, listed in the order the parser
//! hands them out.

use vstd::prelude::*;
use crate::ast::expr::{Expr, ExprKind};
use crate::ast::item::{EnumVariant, Item, LambdaBody, MatchArm, Param, Pattern, PatternKind, Program, StructField};
use crate::ast::stmt::{Block, ForStmt, Stmt, StmtKind};
use crate::ast::ty::{Type, TypeArg, TypeKind, UnitExpr, UnitExprKind};
use crate::ids::NodeId;

verus! {

/// The ids in a unit expression.
pub open spec fn unit_ids(u: UnitExpr) -> Seq<NodeId>
    decreases u,
{
    match u.kind {
        UnitExprKind::Atom(_) => seq![u.id],
        UnitExprKind::Mul(a, b) => unit_ids(*a) + unit_ids(*b) + seq![u.id],
        UnitExprKind::Div(a, b) => unit_ids(*a) + unit_ids(*b) + seq![u.id],
        UnitExprKind::Pow(b, _) => unit_ids(*b) + seq![u.id],
    }
}

/// The ids in a type annotation.
pub open spec fn type_ids(t: Type) -> Seq<NodeId>
    decreases t, 0int,
{
    match t.kind {
        TypeKind::Named(_) => seq![t.id],
        TypeKind::Generic(_, args) => targs_ids(args@) + seq![t.id],
        TypeKind::Function(args, ret) => types_ids(args@) + type_ids(*ret) + seq![t.id],
    }
}

pub open spec fn targ_ids(a: TypeArg) -> Seq<NodeId>
    decreases a, 0int,
{
    match a {
        TypeArg::Type(t) => type_ids(t),
        TypeArg::Unit(u) => unit_ids(u),
        TypeArg::Int(_) => Seq::empty(),
    }
}

pub open spec fn targs_ids(v: Seq<TypeArg>) -> Seq<NodeId>
    decreases v, v.len(),
{
    if v.len() == 0 {
        Seq::empty()
    } else {
        targs_ids(v.drop_last()) + targ_ids(v.last())
    }
}

pub open spec fn types_ids(v: Seq<Type>) -> Seq<NodeId>
    decreases v, v.len(),
{
    if v.len() == 0 {
        Seq::empty()
    } else {
        types_ids(v.drop_last()) + type_ids(v.last())
    }
}

/// The ids in a pattern.
pub open spec fn pattern_ids(p: Pattern) -> Seq<NodeId>
    decreases p, 0int,
{
    match p.kind {
        PatternKind::Variant(_, subs) => patterns_ids(subs@) + seq![p.id],
        _ => seq![p.id],
    }
}

pub open spec fn patterns_ids(v: Seq<Pattern>) -> Seq<NodeId>
    decreases v, v.len(),
{
    if v.len() == 0 {
        Seq::empty()
    } else {
        patterns_ids(v.drop_last()) + pattern_ids(v.last())
    }
}

/// The ids in an expression.
pub open spec fn expr_ids(e: Expr) -> Seq<NodeId>
    decreases e, 0int,
{
    match e.kind {
        ExprKind::VecLit(es) => exprs_ids(es@) + seq![e.id],
        ExprKind::MatLit(rows) => rows_ids(rows@) + seq![e.id],
        ExprKind::BinOp(_, l, r) => expr_ids(*l) + expr_ids(*r) + seq![e.id],
        ExprKind::UnaryOp(_, x) => expr_ids(*x) + seq![e.id],
        ExprKind::Call(c, args) => expr_ids(*c) + exprs_ids(args@) + seq![e.id],
        ExprKind::Index(b, i) => expr_ids(*b) + expr_ids(*i) + seq![e.id],
        ExprKind::FieldAccess(b, _) => expr_ids(*b) + seq![e.id],
        ExprKind::Lambda(l) => params_ids(l.params@) + match l.body {
            LambdaBody::Expr(x) => expr_ids(*x),
            LambdaBody::Block(b) => block_ids(b),
        } + seq![e.id],
        ExprKind::StructLit(_, fields) => fields_ids(fields@) + seq![e.id],
        ExprKind::If(i) => expr_ids(*i.cond) + block_ids(i.then_block) + elseifs_ids(i.elseifs@) + match i.else_block {
            Some(b) => block_ids(b),
            None => Seq::empty(),
        } + seq![e.id],
        ExprKind::Match(s, arms) => expr_ids(*s) + arms_ids(arms@) + seq![e.id],
        ExprKind::Block(b) => block_ids(b) + seq![e.id],
        _ => seq![e.id],
    }
}

pub open spec fn exprs_ids(v: Seq<Expr>) -> Seq<NodeId>
    decreases v, v.len(),
{
    if v.len() == 0 {
        Seq::empty()
    } else {
        exprs_ids(v.drop_last()) + expr_ids(v.last())
    }
}

pub open spec fn rows_ids(v: Seq<Vec<Expr>>) -> Seq<NodeId>
    decreases v, v.len(),
{
    if v.len() == 0 {
        Seq::empty()
    } else {
        rows_ids(v.drop_last()) + exprs_ids(v.last()@)
    }
}

pub open spec fn fields_ids(v: Seq<(String, Expr)>) -> Seq<NodeId>
    decreases v, v.len(),
{
    if v.len() == 0 {
        Seq::empty()
    } else {
        fields_ids(v.drop_last()) + expr_ids(v.last().1)
    }
}

pub open spec fn elseifs_ids(v: Seq<(Expr, Block)>) -> Seq<NodeId>
    decreases v, v.len(),
{
    if v.len() == 0 {
        Seq::empty()
    } else {
        elseifs_ids(v.drop_last()) + expr_ids(v.last().0) + block_ids(v.last().1)
    }
}

pub open spec fn arms_ids(v: Seq<MatchArm>) -> Seq<NodeId>
    decreases v, v.len(),
{
    if v.len() == 0 {
        Seq::empty()
    } else {
        arms_ids(v.drop_last()) + pattern_ids(v.last().pattern) + block_ids(v.last().body)
    }
}

/// The ids in a block.
pub open spec fn block_ids(b: Block) -> Seq<NodeId>
    decreases b, 1int,
{
    stmts_ids(b.stmts@) + seq![b.id]
}

pub open spec fn stmts_ids(v: Seq<Stmt>) -> Seq<NodeId>
    decreases v, v.len(),
{
    if v.len() == 0 {
        Seq::empty()
    } else {
        stmts_ids(v.drop_last()) + stmt_ids(v.last())
    }
}

/// The ids in a statement, loop variables included.
pub open spec fn stmt_ids(s: Stmt) -> Seq<NodeId>
    decreases s, 0int,
{
    match s.kind {
        StmtKind::Let(l) => type_ids(l.ty) + expr_ids(l.init) + seq![s.id],
        StmtKind::Assign(_, x) => expr_ids(x) + seq![s.id],
        StmtKind::Expr(x) => expr_ids(x) + seq![s.id],
        StmtKind::Return(Some(x)) => expr_ids(x) + seq![s.id],
        StmtKind::Return(None) => seq![s.id],
        StmtKind::For(f) => match f {
            ForStmt::Range { var_id, start, end, body, .. } => expr_ids(start) + expr_ids(end) + block_ids(body)
                + seq![var_id, s.id],
            ForStmt::Iter { var_id, iter, body, .. } => expr_ids(iter) + block_ids(body) + seq![var_id, s.id],
            ForStmt::IterKV { key_id, value_id, iter, body, .. } => expr_ids(iter) + block_ids(body)
                + seq![key_id, value_id, s.id],
        },
        StmtKind::While(w) => expr_ids(w.cond) + block_ids(w.body) + seq![s.id],
    }
}

pub open spec fn param_ids(q: Param) -> Seq<NodeId> {
    type_ids(q.ty) + seq![q.id]
}

pub open spec fn params_ids(v: Seq<Param>) -> Seq<NodeId>
    decreases v.len(),
{
    if v.len() == 0 {
        Seq::empty()
    } else {
        params_ids(v.drop_last()) + param_ids(v.last())
    }
}

pub open spec fn field_decl_ids(f: StructField) -> Seq<NodeId> {
    type_ids(f.ty) + seq![f.id]
}

pub open spec fn field_decls_ids(v: Seq<StructField>) -> Seq<NodeId>
    decreases v.len(),
{
    if v.len() == 0 {
        Seq::empty()
    } else {
        field_decls_ids(v.drop_last()) + field_decl_ids(v.last())
    }
}

pub open spec fn variant_ids(v: EnumVariant) -> Seq<NodeId> {
    types_ids(v.payload@) + seq![v.id]
}

pub open spec fn variants_ids(v: Seq<EnumVariant>) -> Seq<NodeId>
    decreases v.len(),
{
    if v.len() == 0 {
        Seq::empty()
    } else {
        variants_ids(v.drop_last()) + variant_ids(v.last())
    }
}

/// The ids in a top-level item.
pub open spec fn item_ids(it: Item) -> Seq<NodeId> {
    match it {
        Item::Function(f) => params_ids(f.params@) + type_ids(f.return_ty) + block_ids(f.body) + seq![f.id],
        Item::Let(l) => type_ids(l.ty) + expr_ids(l.init),
        Item::Struct(st) => field_decls_ids(st.fields@) + seq![st.id],
        Item::Enum(e) => variants_ids(e.variants@) + seq![e.id],
        Item::Import(_) => Seq::empty(),
    }
}

pub open spec fn items_ids(v: Seq<Item>) -> Seq<NodeId>
    decreases v.len(),
{
    if v.len() == 0 {
        Seq::empty()
    } else {
        items_ids(v.drop_last()) + item_ids(v.last())
    }
}

/// Every node id of a program, in the order they were handed out.
pub open spec fn program_ids(p: Program) -> Seq<NodeId> {
    items_ids(p.items@) + seq![p.id]
}

/// `ids` are distinct and all lie in `[lo, hi)`.
pub open spec fn fresh_ids(ids: Seq<NodeId>, lo: int, hi: int) -> bool {
    &&& ids.no_duplicates()
    &&& forall|i: int| 0 <= i < ids.len() ==> lo <= (#[trigger] ids[i]).0 < hi
}

pub proof fn lemma_fresh_empty(lo: int, hi: int)
    ensures
        fresh_ids(Seq::empty(), lo, hi),
{
}

pub proof fn lemma_fresh_one(x: NodeId)
    ensures
        fresh_ids(seq![x], x.0 as int, x.0 + 1),
{
}

/// Ids drawn from two ranges, the second above the first, each distinct,
/// are distinct together.
pub proof fn lemma_fresh_join(a: Seq<NodeId>, b: Seq<NodeId>, lo: int, m1: int, m2: int, hi: int)
    requires
        fresh_ids(a, lo, m1),
        fresh_ids(b, m2, hi),
        lo <= m1 <= m2 <= hi,
    ensures
        fresh_ids(a + b, lo, hi),
{
    let c = a + b;
    assert forall|i: int, j: int| 0 <= i < c.len() && 0 <= j < c.len() && i != j implies c[i] != c[j] by {
        if i < a.len() && j < a.len() {
            assert(c[i] == a[i] && c[j] == a[j]);
        } else if i >= a.len() && j >= a.len() {
            assert(c[i] == b[i - a.len()] && c[j] == b[j - a.len()]);
        } else if i < a.len() {
            assert(c[i] == a[i] && c[j] == b[j - a.len()]);
        } else {
            assert(c[i] == b[i - a.len()] && c[j] == a[j]);
        }
    }
    assert forall|i: int| 0 <= i < c.len() implies lo <= (#[trigger] c[i]).0 < hi by {
        if i < a.len() {
            assert(c[i] == a[i]);
        } else {
            assert(c[i] == b[i - a.len()]);
        }
    }
}

/// A freshly drawn id appended to ids drawn before it.
pub proof fn lemma_fresh_snoc(a: Seq<NodeId>, x: NodeId, lo: int, m: int)
    requires
        fresh_ids(a, lo, m),
        lo <= m <= x.0,
    ensures
        fresh_ids(a + seq![x], lo, x.0 + 1),
{
    lemma_fresh_one(x);
    lemma_fresh_join(a, seq![x], lo, m, x.0 as int, x.0 + 1);
}

/// A range can always be widened.
pub proof fn lemma_fresh_widen(a: Seq<NodeId>, lo: int, hi: int, lo2: int, hi2: int)
    requires
        fresh_ids(a, lo, hi),
        lo2 <= lo,
        hi <= hi2,
    ensures
        fresh_ids(a, lo2, hi2),
{
}

/// What a prefix of fresh ids holds is fresh too.
pub proof fn lemma_fresh_prefix(a: Seq<NodeId>, c: Seq<NodeId>, lo: int, hi: int)
    requires
        fresh_ids(a + c, lo, hi),
    ensures
        fresh_ids(a, lo, hi),
{
    assert forall|i: int| 0 <= i < a.len() implies (a + c)[i] == a[i] by {}
    assert forall|i: int, j: int| 0 <= i < a.len() && 0 <= j < a.len() && i != j implies a[i] != a[j] by {
        assert((a + c)[i] == a[i] && (a + c)[j] == a[j]);
    }
}

/// The ids of a list of items are those of its two halves, in order.
pub proof fn lemma_items_ids_concat(a: Seq<Item>, b: Seq<Item>)
    ensures
        items_ids(a + b) == items_ids(a) + items_ids(b),
    decreases b.len(),
{
    if b.len() == 0 {
        assert(a + b =~= a);
        assert(items_ids(a) + items_ids(b) =~= items_ids(a));
    } else {
        lemma_items_ids_concat(a, b.drop_last());
        assert((a + b).drop_last() =~= a + b.drop_last());
        assert((a + b).last() == b.last());
        assert(items_ids(a) + items_ids(b.drop_last()) + item_ids(b.last()) =~= items_ids(a) + (items_ids(
            b.drop_last(),
        ) + item_ids(b.last())));
    }
}

/// Merging two programs whose ids come from consecutive ranges, keeping
/// the second program's id, gives a program whose ids are distinct.
pub proof fn lemma_merged_ids_fresh(first: Program, second: Program, merged: Program, lo: int, mid: int, hi: int)
    requires
        fresh_ids(program_ids(first), lo, mid),
        fresh_ids(program_ids(second), mid, hi),
        lo <= mid <= hi,
        merged.items@ == first.items@ + second.items@,
        merged.id == second.id,
    ensures
        fresh_ids(program_ids(merged), lo, hi),
{
    lemma_fresh_prefix(items_ids(first.items@), seq![first.id], lo, mid);
    lemma_items_ids_concat(first.items@, second.items@);
    lemma_fresh_join(items_ids(first.items@), program_ids(second), lo, mid, mid, hi);
    assert(items_ids(first.items@) + program_ids(second) =~= program_ids(merged));
}

} // verus!
