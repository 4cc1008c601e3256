//! The places where a program uses a name: identifiers, struct literals,
//! assignment targets, variant patterns and type names, each with the
//! node that carries it.

use vstd::prelude::*;
use crate::ast::{
    Block, EnumVariant, Expr, ExprKind, ForStmt, IfExpr, Item, LambdaBody, MatchArm, Param, Pattern, PatternKind, Program,
    Stmt, StmtKind, StructField, Type, TypeArg, TypeKind,
};
use crate::ids::NodeId;

verus! {

/// The name uses within a type annotation.
pub open spec fn type_uses(t: Type) -> Set<(NodeId, Seq<char>)>
    decreases t, 0int,
{
    match t.kind {
        TypeKind::Named(n) => set![(t.id, n@)],
        TypeKind::Generic(n, args) => set![(t.id, n@)] + targs_uses(args, args@.len() as int),
        TypeKind::Function(args, ret) => types_uses(args, args@.len() as int) + type_uses(*ret),
    }
}

pub open spec fn targs_uses(v: Vec<TypeArg>, n: int) -> Set<(NodeId, Seq<char>)>
    decreases v, n,
{
    if n <= 0 || n > v@.len() {
        Set::empty()
    } else {
        targs_uses(v, n - 1) + match v@[n - 1] {
            TypeArg::Type(t) => type_uses(t),
            _ => Set::empty(),
        }
    }
}

pub open spec fn types_uses(v: Vec<Type>, n: int) -> Set<(NodeId, Seq<char>)>
    decreases v, n,
{
    if n <= 0 || n > v@.len() {
        Set::empty()
    } else {
        types_uses(v, n - 1) + type_uses(v@[n - 1])
    }
}

/// The variant names a pattern uses.
pub open spec fn pattern_uses(p: Pattern) -> Set<(NodeId, Seq<char>)>
    decreases p, 0int,
{
    match p.kind {
        PatternKind::Variant(c, subs) => set![(p.id, c@)] + patterns_uses(subs, subs@.len() as int),
        _ => Set::empty(),
    }
}

pub open spec fn patterns_uses(v: Vec<Pattern>, n: int) -> Set<(NodeId, Seq<char>)>
    decreases v, n,
{
    if n <= 0 || n > v@.len() {
        Set::empty()
    } else {
        patterns_uses(v, n - 1) + pattern_uses(v@[n - 1])
    }
}

/// The name uses within an expression.
pub open spec fn expr_uses(e: Expr) -> Set<(NodeId, Seq<char>)>
    decreases e, 0int,
{
    match e.kind {
        ExprKind::Ident(n) => set![(e.id, n@)],
        ExprKind::StructLit(n, fields) => set![(e.id, n@)] + fields_uses(fields, fields@.len() as int),
        ExprKind::VecLit(es) => exprs_uses(es, es@.len() as int),
        ExprKind::MatLit(rows) => rows_uses(rows, rows@.len() as int),
        ExprKind::BinOp(_, l, r) => expr_uses(*l) + expr_uses(*r),
        ExprKind::UnaryOp(_, x) => expr_uses(*x),
        ExprKind::Call(c, args) => expr_uses(*c) + exprs_uses(args, args@.len() as int),
        ExprKind::Index(b, i) => expr_uses(*b) + expr_uses(*i),
        ExprKind::FieldAccess(b, _) => expr_uses(*b),
        ExprKind::Lambda(l) => match l.body {
            LambdaBody::Expr(x) => expr_uses(*x),
            LambdaBody::Block(b) => block_uses(b),
        },
        ExprKind::If(i) => expr_uses(*i.cond) + block_uses(i.then_block) + elseifs_uses(i.elseifs, i.elseifs@.len() as int)
            + match i.else_block {
            Some(b) => block_uses(b),
            None => Set::empty(),
        },
        ExprKind::Match(s, arms) => expr_uses(*s) + arms_uses(arms, arms@.len() as int),
        ExprKind::Block(b) => block_uses(b),
        _ => Set::empty(),
    }
}

pub open spec fn exprs_uses(v: Vec<Expr>, n: int) -> Set<(NodeId, Seq<char>)>
    decreases v, n,
{
    if n <= 0 || n > v@.len() {
        Set::empty()
    } else {
        exprs_uses(v, n - 1) + expr_uses(v@[n - 1])
    }
}

pub open spec fn fields_uses(v: Vec<(String, Expr)>, n: int) -> Set<(NodeId, Seq<char>)>
    decreases v, n,
{
    if n <= 0 || n > v@.len() {
        Set::empty()
    } else {
        fields_uses(v, n - 1) + expr_uses(v@[n - 1].1)
    }
}

pub open spec fn rows_uses(v: Vec<Vec<Expr>>, n: int) -> Set<(NodeId, Seq<char>)>
    decreases v, n,
{
    if n <= 0 || n > v@.len() {
        Set::empty()
    } else {
        rows_uses(v, n - 1) + exprs_uses(v@[n - 1], v@[n - 1]@.len() as int)
    }
}

pub open spec fn elseifs_uses(v: Vec<(Expr, Block)>, n: int) -> Set<(NodeId, Seq<char>)>
    decreases v, n,
{
    if n <= 0 || n > v@.len() {
        Set::empty()
    } else {
        elseifs_uses(v, n - 1) + expr_uses(v@[n - 1].0) + block_uses(v@[n - 1].1)
    }
}

pub open spec fn arms_uses(v: Vec<MatchArm>, n: int) -> Set<(NodeId, Seq<char>)>
    decreases v, n,
{
    if n <= 0 || n > v@.len() {
        Set::empty()
    } else {
        arms_uses(v, n - 1) + pattern_uses(v@[n - 1].pattern) + block_uses(v@[n - 1].body)
    }
}

/// The name uses within a block.
pub open spec fn block_uses(b: Block) -> Set<(NodeId, Seq<char>)>
    decreases b, 1int,
{
    stmts_uses(b.stmts, b.stmts@.len() as int)
}

pub open spec fn stmts_uses(v: Vec<Stmt>, n: int) -> Set<(NodeId, Seq<char>)>
    decreases v, n,
{
    if n <= 0 || n > v@.len() {
        Set::empty()
    } else {
        stmts_uses(v, n - 1) + stmt_uses(v@[n - 1])
    }
}

/// The name uses within a statement; an assignment uses its target.
pub open spec fn stmt_uses(s: Stmt) -> Set<(NodeId, Seq<char>)>
    decreases s, 0int,
{
    match s.kind {
        StmtKind::Let(l) => type_uses(l.ty) + expr_uses(l.init),
        StmtKind::Assign(n, x) => set![(s.id, n@)] + expr_uses(x),
        StmtKind::Expr(x) => expr_uses(x),
        StmtKind::Return(Some(x)) => expr_uses(x),
        StmtKind::Return(None) => Set::empty(),
        StmtKind::For(f) => match f {
            ForStmt::Range { start, end, body, .. } => expr_uses(start) + expr_uses(end) + block_uses(body),
            ForStmt::Iter { iter, body, .. } => expr_uses(iter) + block_uses(body),
            ForStmt::IterKV { iter, body, .. } => expr_uses(iter) + block_uses(body),
        },
        StmtKind::While(w) => expr_uses(w.cond) + block_uses(w.body),
    }
}

pub open spec fn params_uses(v: Vec<Param>, n: int) -> Set<(NodeId, Seq<char>)>
    decreases v, n,
{
    if n <= 0 || n > v@.len() {
        Set::empty()
    } else {
        params_uses(v, n - 1) + type_uses(v@[n - 1].ty)
    }
}

pub open spec fn struct_fields_uses(v: Vec<StructField>, n: int) -> Set<(NodeId, Seq<char>)>
    decreases v, n,
{
    if n <= 0 || n > v@.len() {
        Set::empty()
    } else {
        struct_fields_uses(v, n - 1) + type_uses(v@[n - 1].ty)
    }
}

pub open spec fn variants_uses(v: Vec<EnumVariant>, n: int) -> Set<(NodeId, Seq<char>)>
    decreases v, n,
{
    if n <= 0 || n > v@.len() {
        Set::empty()
    } else {
        variants_uses(v, n - 1) + types_uses(v@[n - 1].payload, v@[n - 1].payload@.len() as int)
    }
}

/// The name uses within a top-level item.
pub open spec fn item_uses(it: Item) -> Set<(NodeId, Seq<char>)> {
    match it {
        Item::Function(f) => params_uses(f.params, f.params@.len() as int) + type_uses(f.return_ty) + block_uses(f.body),
        Item::Let(l) => type_uses(l.ty) + expr_uses(l.init),
        Item::Struct(st) => struct_fields_uses(st.fields, st.fields@.len() as int),
        Item::Enum(e) => variants_uses(e.variants, e.variants@.len() as int),
        Item::Import(_) => Set::empty(),
    }
}

pub open spec fn items_uses(v: Seq<Item>, n: int) -> Set<(NodeId, Seq<char>)>
    decreases n,
{
    if n <= 0 || n > v.len() {
        Set::empty()
    } else {
        items_uses(v, n - 1) + item_uses(v[n - 1])
    }
}

/// Every place where `prog` uses a name, with the name used there.
pub open spec fn program_uses(prog: Program) -> Set<(NodeId, Seq<char>)> {
    items_uses(prog.items@, prog.items@.len() as int)
}

/// Each element's uses are among the uses of a list that holds it.
pub proof fn lemma_targs_uses_elem(v: Vec<TypeArg>, k: int, n: int)
    requires
        0 <= k < n <= v@.len(),
    ensures
        (match v@[k] { TypeArg::Type(t) => type_uses(t), _ => Set::empty() }).subset_of(targs_uses(v, n)),
    decreases n,
{
    if k < n - 1 {
        lemma_targs_uses_elem(v, k, n - 1);
    }
}

/// Each element's uses are among the uses of a list that holds it.
pub proof fn lemma_types_uses_elem(v: Vec<Type>, k: int, n: int)
    requires
        0 <= k < n <= v@.len(),
    ensures
        (type_uses(v@[k])).subset_of(types_uses(v, n)),
    decreases n,
{
    if k < n - 1 {
        lemma_types_uses_elem(v, k, n - 1);
    }
}

/// Each element's uses are among the uses of a list that holds it.
pub proof fn lemma_patterns_uses_elem(v: Vec<Pattern>, k: int, n: int)
    requires
        0 <= k < n <= v@.len(),
    ensures
        (pattern_uses(v@[k])).subset_of(patterns_uses(v, n)),
    decreases n,
{
    if k < n - 1 {
        lemma_patterns_uses_elem(v, k, n - 1);
    }
}

/// Each element's uses are among the uses of a list that holds it.
pub proof fn lemma_exprs_uses_elem(v: Vec<Expr>, k: int, n: int)
    requires
        0 <= k < n <= v@.len(),
    ensures
        (expr_uses(v@[k])).subset_of(exprs_uses(v, n)),
    decreases n,
{
    if k < n - 1 {
        lemma_exprs_uses_elem(v, k, n - 1);
    }
}

/// Each element's uses are among the uses of a list that holds it.
pub proof fn lemma_fields_uses_elem(v: Vec<(String, Expr)>, k: int, n: int)
    requires
        0 <= k < n <= v@.len(),
    ensures
        (expr_uses(v@[k].1)).subset_of(fields_uses(v, n)),
    decreases n,
{
    if k < n - 1 {
        lemma_fields_uses_elem(v, k, n - 1);
    }
}

/// Each element's uses are among the uses of a list that holds it.
pub proof fn lemma_rows_uses_elem(v: Vec<Vec<Expr>>, k: int, n: int)
    requires
        0 <= k < n <= v@.len(),
    ensures
        (exprs_uses(v@[k], v@[k]@.len() as int)).subset_of(rows_uses(v, n)),
    decreases n,
{
    if k < n - 1 {
        lemma_rows_uses_elem(v, k, n - 1);
    }
}

/// Each element's uses are among the uses of a list that holds it.
pub proof fn lemma_elseifs_uses_elem(v: Vec<(Expr, Block)>, k: int, n: int)
    requires
        0 <= k < n <= v@.len(),
    ensures
        (expr_uses(v@[k].0) + block_uses(v@[k].1)).subset_of(elseifs_uses(v, n)),
    decreases n,
{
    if k < n - 1 {
        lemma_elseifs_uses_elem(v, k, n - 1);
    }
}

/// Each element's uses are among the uses of a list that holds it.
pub proof fn lemma_arms_uses_elem(v: Vec<MatchArm>, k: int, n: int)
    requires
        0 <= k < n <= v@.len(),
    ensures
        (pattern_uses(v@[k].pattern) + block_uses(v@[k].body)).subset_of(arms_uses(v, n)),
    decreases n,
{
    if k < n - 1 {
        lemma_arms_uses_elem(v, k, n - 1);
    }
}

/// Each element's uses are among the uses of a list that holds it.
pub proof fn lemma_stmts_uses_elem(v: Vec<Stmt>, k: int, n: int)
    requires
        0 <= k < n <= v@.len(),
    ensures
        (stmt_uses(v@[k])).subset_of(stmts_uses(v, n)),
    decreases n,
{
    if k < n - 1 {
        lemma_stmts_uses_elem(v, k, n - 1);
    }
}

/// Each element's uses are among the uses of a list that holds it.
pub proof fn lemma_params_uses_elem(v: Vec<Param>, k: int, n: int)
    requires
        0 <= k < n <= v@.len(),
    ensures
        (type_uses(v@[k].ty)).subset_of(params_uses(v, n)),
    decreases n,
{
    if k < n - 1 {
        lemma_params_uses_elem(v, k, n - 1);
    }
}

/// Each element's uses are among the uses of a list that holds it.
pub proof fn lemma_struct_fields_uses_elem(v: Vec<StructField>, k: int, n: int)
    requires
        0 <= k < n <= v@.len(),
    ensures
        (type_uses(v@[k].ty)).subset_of(struct_fields_uses(v, n)),
    decreases n,
{
    if k < n - 1 {
        lemma_struct_fields_uses_elem(v, k, n - 1);
    }
}

/// Each element's uses are among the uses of a list that holds it.
pub proof fn lemma_variants_uses_elem(v: Vec<EnumVariant>, k: int, n: int)
    requires
        0 <= k < n <= v@.len(),
    ensures
        (types_uses(v@[k].payload, v@[k].payload@.len() as int)).subset_of(variants_uses(v, n)),
    decreases n,
{
    if k < n - 1 {
        lemma_variants_uses_elem(v, k, n - 1);
    }
}

/// Each item's uses are among the uses of a list that holds it.
pub proof fn lemma_items_uses_elem(v: Seq<Item>, k: int, n: int)
    requires
        0 <= k < n <= v.len(),
    ensures
        item_uses(v[k]).subset_of(items_uses(v, n)),
    decreases n,
{
    if k < n - 1 {
        lemma_items_uses_elem(v, k, n - 1);
    }
}

} // verus!
