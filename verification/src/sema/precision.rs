//! Precision warnings for floating-point accumulation in loops.
//!
//! Inside a `for` or `while` body (at any depth), an assignment
//! `acc = acc + x` or `acc = x + acc` whose target is a `Scalar` binding
//! (any unit) and whose addend `x` has a `Scalar` type risks rounding-error
//! growth and gets a warning. `Int` accumulation is exact and not
//! reported; subtraction is not reported.

use vstd::prelude::*;
use crate::ast::{BinOp, Block, Expr, ExprKind, ForStmt, Item, MatchArm, Program, Stmt, StmtKind};
use crate::diag::{Diagnostic, Level, Phase};
use crate::idmap::{DefMap, NodeMap};
use crate::ids::DefId;
use crate::sema::resolve::{DefinitionTable, ResolveTable};
use crate::sema::ty::Ty;
use crate::source::Span;

verus! {

broadcast use vstd::std_specs::vec::group_vec_axioms;

/// Every diagnostic is a sema-phase warning.
pub open spec fn all_sema_warnings(ds: Seq<Diagnostic>) -> bool {
    forall|i: int| 0 <= i < ds.len() ==> (#[trigger] ds[i]).phase == Phase::Sema && ds[i].level == Level::Warning
}

/// The warning for an accumulating addition at `span`, labelled at the
/// accumulator's binding when it is known.
pub fn precision_accumulation(span: Span, binding_span: Option<Span>) -> (d: Diagnostic)
    ensures
        d.level == Level::Warning,
        d.phase == Phase::Sema,
        d.span == span,
        d.message@ == "floating-point accumulation in a loop may grow rounding error"@,
        d.labels@.len() == (if binding_span is Some { 1int } else { 0int }),
        binding_span matches Some(b) ==> d.labels@[0].0 == b && d.labels@[0].1@ == "accumulator defined here"@,
        d.notes@.len() == 1,
        d.notes@[0]@ == "consider `kahan_sum` or another compensated-summation strategy"@,
{
    let d = Diagnostic::warning(span, "floating-point accumulation in a loop may grow rounding error");
    let d = match binding_span {
        Some(b) => d.with_label(b, "accumulator defined here"),
        None => d,
    };
    d.with_note("consider `kahan_sum` or another compensated-summation strategy")
}

/// The tables the analysis reads.
pub ghost struct Tables {
    pub types: NodeMap<Ty>,
    pub resolutions: ResolveTable,
    pub definitions: DefinitionTable,
    pub def_types: DefMap<Ty>,
}

/// `e` is a name that refers to `def`.
pub open spec fn use_of(e: Expr, def: DefId, t: Tables) -> bool {
    e.kind is Ident && t.resolutions.at(e.id) == Some(def)
}

/// What a warning reports: the span of the accumulating value and, when
/// it is known, the span where the accumulator is bound.
pub open spec fn binding_span_of(acc: DefId, t: Tables) -> Option<Span> {
    match t.definitions.at(acc) {
        Some(info) => Some(info.span),
        None => None,
    }
}

/// The warning for `s`, an assignment of `value` inside a loop, when it
/// adds a `Scalar` to the `Scalar` binding it assigns (in either order).
pub open spec fn accumulation(s: Stmt, value: Expr, t: Tables) -> Seq<(Span, Option<Span>)> {
    match t.resolutions.at(s.id) {
        Some(acc) => if t.def_types.at(acc) matches Some(Ty::Scalar(_)) {
            match value.kind {
                ExprKind::BinOp(BinOp::Add, l, r) => {
                    let addend = if use_of(*l, acc, t) {
                        Some(*r)
                    } else if use_of(*r, acc, t) {
                        Some(*l)
                    } else {
                        None
                    };
                    match addend {
                        Some(x) => if t.types.at(x.id) matches Some(Ty::Scalar(_)) {
                            seq![(value.span, binding_span_of(acc, t))]
                        } else {
                            Seq::empty()
                        },
                        None => Seq::empty(),
                    }
                },
                _ => Seq::empty(),
            }
        } else {
            Seq::empty()
        },
        None => Seq::empty(),
    }
}

/// The warnings within `e`, in source order; `lp` says whether `e` stands
/// inside a loop body.
pub open spec fn expr_ws(e: Expr, lp: bool, t: Tables) -> Seq<(Span, Option<Span>)>
    decreases e, 0int,
{
    match e.kind {
        ExprKind::If(i) => expr_ws(*i.cond, lp, t) + block_ws(i.then_block, lp, t)
            + elseifs_ws(i.elseifs, i.elseifs@.len() as int, lp, t) + match i.else_block {
            Some(b) => block_ws(b, lp, t),
            None => Seq::empty(),
        },
        ExprKind::Match(scrut, arms) => expr_ws(*scrut, lp, t) + arms_ws(arms, arms@.len() as int, lp, t),
        ExprKind::Block(b) => block_ws(b, lp, t),
        ExprKind::BinOp(_, l, r) => expr_ws(*l, lp, t) + expr_ws(*r, lp, t),
        ExprKind::UnaryOp(_, x) => expr_ws(*x, lp, t),
        ExprKind::Call(callee, args) => expr_ws(*callee, lp, t) + exprs_ws(args, args@.len() as int, lp, t),
        ExprKind::Index(base, idx) => expr_ws(*base, lp, t) + expr_ws(*idx, lp, t),
        ExprKind::FieldAccess(base, _) => expr_ws(*base, lp, t),
        ExprKind::VecLit(elems) => exprs_ws(elems, elems@.len() as int, lp, t),
        ExprKind::MatLit(rows) => rows_ws(rows, rows@.len() as int, lp, t),
        ExprKind::StructLit(_, fields) => fields_ws(fields, fields@.len() as int, lp, t),
        _ => Seq::empty(),
    }
}

/// The warnings within the first `n` expressions of `es`.
pub open spec fn exprs_ws(es: Vec<Expr>, n: int, lp: bool, t: Tables) -> Seq<(Span, Option<Span>)>
    decreases es, n,
{
    if n <= 0 || n > es@.len() {
        Seq::empty()
    } else {
        exprs_ws(es, n - 1, lp, t) + expr_ws(es@[n - 1], lp, t)
    }
}

/// The warnings within the first `n` `elseif` branches.
pub open spec fn elseifs_ws(v: Vec<(Expr, Block)>, n: int, lp: bool, t: Tables) -> Seq<(Span, Option<Span>)>
    decreases v, n,
{
    if n <= 0 || n > v@.len() {
        Seq::empty()
    } else {
        elseifs_ws(v, n - 1, lp, t) + expr_ws(v@[n - 1].0, lp, t) + block_ws(v@[n - 1].1, lp, t)
    }
}

/// The warnings within the bodies of the first `n` match arms.
pub open spec fn arms_ws(v: Vec<MatchArm>, n: int, lp: bool, t: Tables) -> Seq<(Span, Option<Span>)>
    decreases v, n,
{
    if n <= 0 || n > v@.len() {
        Seq::empty()
    } else {
        arms_ws(v, n - 1, lp, t) + block_ws(v@[n - 1].body, lp, t)
    }
}

/// The warnings within the first `n` rows of a matrix literal.
pub open spec fn rows_ws(v: Vec<Vec<Expr>>, n: int, lp: bool, t: Tables) -> Seq<(Span, Option<Span>)>
    decreases v, n,
{
    if n <= 0 || n > v@.len() {
        Seq::empty()
    } else {
        rows_ws(v, n - 1, lp, t) + exprs_ws(v@[n - 1], v@[n - 1]@.len() as int, lp, t)
    }
}

/// The warnings within the first `n` field values of a struct literal.
pub open spec fn fields_ws(v: Vec<(String, Expr)>, n: int, lp: bool, t: Tables) -> Seq<(Span, Option<Span>)>
    decreases v, n,
{
    if n <= 0 || n > v@.len() {
        Seq::empty()
    } else {
        fields_ws(v, n - 1, lp, t) + expr_ws(v@[n - 1].1, lp, t)
    }
}

/// The warnings within a block.
pub open spec fn block_ws(b: Block, lp: bool, t: Tables) -> Seq<(Span, Option<Span>)>
    decreases b, 1int,
{
    stmts_ws(b.stmts, b.stmts@.len() as int, lp, t)
}

/// The warnings within the first `n` statements of `ss`.
pub open spec fn stmts_ws(ss: Vec<Stmt>, n: int, lp: bool, t: Tables) -> Seq<(Span, Option<Span>)>
    decreases ss, n,
{
    if n <= 0 || n > ss@.len() {
        Seq::empty()
    } else {
        stmts_ws(ss, n - 1, lp, t) + stmt_ws(ss@[n - 1], lp, t)
    }
}

/// The warnings within a statement; loop bodies are inside a loop.
pub open spec fn stmt_ws(s: Stmt, lp: bool, t: Tables) -> Seq<(Span, Option<Span>)>
    decreases s, 0int,
{
    match s.kind {
        StmtKind::Let(l) => expr_ws(l.init, lp, t),
        StmtKind::Assign(_, value) => (if lp { accumulation(s, value, t) } else { Seq::empty() }) + expr_ws(value, lp, t),
        StmtKind::Expr(e) => expr_ws(e, lp, t),
        StmtKind::Return(Some(e)) => expr_ws(e, lp, t),
        StmtKind::Return(None) => Seq::empty(),
        StmtKind::For(f) => match f {
            ForStmt::Range { start, end, body, .. } => expr_ws(start, lp, t) + expr_ws(end, lp, t) + block_ws(body, true, t),
            ForStmt::Iter { iter, body, .. } => expr_ws(iter, lp, t) + block_ws(body, true, t),
            ForStmt::IterKV { iter, body, .. } => expr_ws(iter, lp, t) + block_ws(body, true, t),
        },
        StmtKind::While(w) => expr_ws(w.cond, lp, t) + block_ws(w.body, true, t),
    }
}

/// The warnings of the first `n` items: function bodies and top-level
/// initializers, outside any loop.
pub open spec fn items_ws(items: Seq<Item>, n: int, t: Tables) -> Seq<(Span, Option<Span>)>
    decreases n,
{
    if n <= 0 || n > items.len() {
        Seq::empty()
    } else {
        items_ws(items, n - 1, t) + match items[n - 1] {
            Item::Function(f) => block_ws(f.body, false, t),
            Item::Let(l) => expr_ws(l.init, false, t),
            _ => Seq::empty(),
        }
    }
}

/// `d` is the precision warning for `w`.
pub open spec fn warns(d: Diagnostic, w: (Span, Option<Span>)) -> bool {
    &&& d.level == Level::Warning
    &&& d.phase == Phase::Sema
    &&& d.span == w.0
    &&& d.message@ == "floating-point accumulation in a loop may grow rounding error"@
    &&& d.labels@.len() == (if w.1 is Some { 1int } else { 0int })
    &&& (w.1 matches Some(b) ==> d.labels@[0].0 == b && d.labels@[0].1@ == "accumulator defined here"@)
    &&& d.notes@.len() == 1
    &&& d.notes@[0]@ == "consider `kahan_sum` or another compensated-summation strategy"@
}

/// `new` is `old` followed by one warning for each of `ws`, in order.
pub open spec fn appended(old: Seq<Diagnostic>, new: Seq<Diagnostic>, ws: Seq<(Span, Option<Span>)>) -> bool {
    &&& new.len() == old.len() + ws.len()
    &&& new.subrange(0, old.len() as int) == old
    &&& forall|i: int| 0 <= i < ws.len() ==> warns(#[trigger] new[old.len() + i], ws[i])
}

proof fn lemma_appended_refl(a: Seq<Diagnostic>)
    ensures
        appended(a, a, Seq::empty()),
{
    assert(a.subrange(0, a.len() as int) =~= a);
}

proof fn lemma_appended_trans(a: Seq<Diagnostic>, b: Seq<Diagnostic>, c: Seq<Diagnostic>, w1: Seq<(Span, Option<Span>)>, w2: Seq<(Span, Option<Span>)>)
    requires
        appended(a, b, w1),
        appended(b, c, w2),
    ensures
        appended(a, c, w1 + w2),
{
    assert(c.subrange(0, a.len() as int) =~= b.subrange(0, a.len() as int)) by {
        assert forall|k: int| 0 <= k < a.len() implies c[k] == b[k] by {
            assert(c.subrange(0, b.len() as int)[k] == b[k]);
        }
    }
    let w = w1 + w2;
    assert forall|i: int| 0 <= i < w.len() implies warns(#[trigger] c[a.len() + i], w[i]) by {
        if i < w1.len() {
            assert(c.subrange(0, b.len() as int)[a.len() + i] == b[a.len() + i]);
            assert(warns(b[a.len() + i], w1[i]));
        } else {
            assert(warns(c[b.len() + (i - w1.len())], w2[i - w1.len()]));
        }
    }
}

struct Walker<'a> {
    types: &'a NodeMap<Ty>,
    resolutions: &'a ResolveTable,
    definitions: &'a DefinitionTable,
    def_types: &'a DefMap<Ty>,
    out: Vec<Diagnostic>,
}

/// Warnings for accumulating additions inside loops of `program`: one
/// for each assignment in a loop body that adds a `Scalar` to the
/// `Scalar` binding it assigns, in source order.
#[verifier::loop_isolation(false)]
pub fn analyze(
    program: &Program,
    types: &NodeMap<Ty>,
    resolutions: &ResolveTable,
    definitions: &DefinitionTable,
    def_types: &DefMap<Ty>,
) -> (r: Vec<Diagnostic>)
    ensures
        all_sema_warnings(r@),
        appended(
            Seq::empty(),
            r@,
            items_ws(
                program.items@,
                program.items@.len() as int,
                Tables { types: *types, resolutions: *resolutions, definitions: *definitions, def_types: *def_types },
            ),
        ),
{
    let mut w = Walker { types, resolutions, definitions, def_types, out: Vec::new() };
    let ghost t = w.tables();
    proof { lemma_appended_refl(w.out@); }
    let mut i: usize = 0;
    while i < program.items.len()
        invariant
            i <= program.items@.len(),
            w.tables() == t,
            appended(Seq::empty(), w.out@, items_ws(program.items@, i as int, t)),
        decreases program.items@.len() - i,
    {
        let ghost before = w.out@;
        match &program.items[i] {
            Item::Function(f) => w.walk_block(&f.body, false),
            Item::Let(l) => w.walk_expr(&l.init, false),
            _ => {
                proof { lemma_appended_refl(w.out@); }
            },
        }
        proof {
            lemma_appended_trans(Seq::empty(), before, w.out@, items_ws(program.items@, i as int, t), match program.items@[i as int] {
                Item::Function(f) => block_ws(f.body, false, t),
                Item::Let(l) => expr_ws(l.init, false, t),
                _ => Seq::empty(),
            });
        }
        i = i + 1;
    }
    proof {
        assert forall|k: int| 0 <= k < w.out@.len() implies (#[trigger] w.out@[k]).phase == Phase::Sema && w.out@[k].level == Level::Warning by {
            let ws = items_ws(program.items@, program.items@.len() as int, t);
            assert(warns(w.out@[0 + k], ws[k]));
        }
    }
    w.out
}

impl<'a> Walker<'a> {
    spec fn tables(&self) -> Tables {
        Tables { types: *self.types, resolutions: *self.resolutions, definitions: *self.definitions, def_types: *self.def_types }
    }

    #[verifier::loop_isolation(false)]
    fn walk_block(&mut self, b: &Block, in_loop: bool)
        ensures
            final(self).tables() == old(self).tables(),
            appended(old(self).out@, final(self).out@, block_ws(*b, in_loop, old(self).tables())),
        decreases b,
    {
        let ghost t = self.tables();
        proof { lemma_appended_refl(self.out@); }
        let mut i: usize = 0;
        while i < b.stmts.len()
            invariant
                i <= b.stmts@.len(),
                self.tables() == t,
                appended(old(self).out@, self.out@, stmts_ws(b.stmts, i as int, in_loop, t)),
            decreases b.stmts@.len() - i,
        {
            let ghost before = self.out@;
            self.walk_stmt(&b.stmts[i], in_loop);
            proof {
                lemma_appended_trans(old(self).out@, before, self.out@, stmts_ws(b.stmts, i as int, in_loop, t), stmt_ws(b.stmts@[i as int], in_loop, t));
            }
            i = i + 1;
        }
    }

    #[verifier::loop_isolation(false)]
    fn walk_stmt(&mut self, s: &Stmt, in_loop: bool)
        ensures
            final(self).tables() == old(self).tables(),
            appended(old(self).out@, final(self).out@, stmt_ws(*s, in_loop, old(self).tables())),
        decreases s,
    {
        let ghost t = self.tables();
        let ghost o0 = self.out@;
        match &s.kind {
            StmtKind::Let(l) => self.walk_expr(&l.init, in_loop),
            StmtKind::Assign(_, value) => {
                if in_loop {
                    self.check_accumulation(s, value);
                } else {
                    proof { lemma_appended_refl(self.out@); }
                }
                let ghost o1 = self.out@;
                self.walk_expr(value, in_loop);
                proof {
                    lemma_appended_trans(o0, o1, self.out@, if in_loop { accumulation(*s, *value, t) } else { Seq::empty() }, expr_ws(*value, in_loop, t));
                }
            },
            StmtKind::Expr(e) => self.walk_expr(e, in_loop),
            StmtKind::Return(Some(e)) => self.walk_expr(e, in_loop),
            StmtKind::Return(None) => {
                proof { lemma_appended_refl(self.out@); }
            },
            StmtKind::For(f) => match f {
                ForStmt::Range { start, end, body, .. } => {
                    self.walk_expr(start, in_loop);
                    let ghost o1 = self.out@;
                    self.walk_expr(end, in_loop);
                    let ghost o2 = self.out@;
                    self.walk_block(body, true);
                    proof {
                        lemma_appended_trans(o0, o1, o2, expr_ws(*start, in_loop, t), expr_ws(*end, in_loop, t));
                        lemma_appended_trans(o0, o2, self.out@, expr_ws(*start, in_loop, t) + expr_ws(*end, in_loop, t), block_ws(*body, true, t));
                    }
                },
                ForStmt::Iter { iter, body, .. } => {
                    self.walk_expr(iter, in_loop);
                    let ghost o1 = self.out@;
                    self.walk_block(body, true);
                    proof { lemma_appended_trans(o0, o1, self.out@, expr_ws(*iter, in_loop, t), block_ws(*body, true, t)); }
                },
                ForStmt::IterKV { iter, body, .. } => {
                    self.walk_expr(iter, in_loop);
                    let ghost o1 = self.out@;
                    self.walk_block(body, true);
                    proof { lemma_appended_trans(o0, o1, self.out@, expr_ws(*iter, in_loop, t), block_ws(*body, true, t)); }
                },
            },
            StmtKind::While(w) => {
                self.walk_expr(&w.cond, in_loop);
                let ghost o1 = self.out@;
                self.walk_block(&w.body, true);
                proof { lemma_appended_trans(o0, o1, self.out@, expr_ws(w.cond, in_loop, t), block_ws(w.body, true, t)); }
            },
        }
    }

    #[verifier::loop_isolation(false)]
    fn walk_exprs(&mut self, es: &Vec<Expr>, in_loop: bool)
        ensures
            final(self).tables() == old(self).tables(),
            appended(old(self).out@, final(self).out@, exprs_ws(*es, es@.len() as int, in_loop, old(self).tables())),
        decreases es, 1nat,
    {
        let ghost t = self.tables();
        proof { lemma_appended_refl(self.out@); }
        let mut i: usize = 0;
        while i < es.len()
            invariant
                i <= es@.len(),
                self.tables() == t,
                appended(old(self).out@, self.out@, exprs_ws(*es, i as int, in_loop, t)),
            decreases es@.len() - i,
        {
            let ghost before = self.out@;
            self.walk_expr(&es[i], in_loop);
            proof {
                lemma_appended_trans(old(self).out@, before, self.out@, exprs_ws(*es, i as int, in_loop, t), expr_ws(es@[i as int], in_loop, t));
            }
            i = i + 1;
        }
    }

    /// Blocks nested in expressions (`if`, `match`, block expressions)
    /// keep the loop flag.
    #[verifier::loop_isolation(false)]
    fn walk_expr(&mut self, e: &Expr, in_loop: bool)
        ensures
            final(self).tables() == old(self).tables(),
            appended(old(self).out@, final(self).out@, expr_ws(*e, in_loop, old(self).tables())),
        decreases e, 0nat,
    {
        let ghost t = self.tables();
        let ghost o0 = self.out@;
        match &e.kind {
            ExprKind::If(i) => {
                self.walk_expr(&i.cond, in_loop);
                let ghost o1 = self.out@;
                self.walk_block(&i.then_block, in_loop);
                let ghost o2 = self.out@;
                proof {
                    lemma_appended_trans(o0, o1, o2, expr_ws(*i.cond, in_loop, t), block_ws(i.then_block, in_loop, t));
                    lemma_appended_refl(o2);
                }
                let mut k: usize = 0;
                while k < i.elseifs.len()
                    invariant
                        k <= i.elseifs@.len(),
                        self.tables() == t,
                        appended(o2, self.out@, elseifs_ws(i.elseifs, k as int, in_loop, t)),
                    decreases i.elseifs@.len() - k,
                {
                    let ghost b0 = self.out@;
                    self.walk_expr(&i.elseifs[k].0, in_loop);
                    let ghost b1 = self.out@;
                    self.walk_block(&i.elseifs[k].1, in_loop);
                    proof {
                        lemma_appended_trans(b0, b1, self.out@, expr_ws(i.elseifs@[k as int].0, in_loop, t), block_ws(i.elseifs@[k as int].1, in_loop, t));
                        lemma_appended_trans(o2, b0, self.out@, elseifs_ws(i.elseifs, k as int, in_loop, t),
                            expr_ws(i.elseifs@[k as int].0, in_loop, t) + block_ws(i.elseifs@[k as int].1, in_loop, t));
                        assert(elseifs_ws(i.elseifs, k + 1, in_loop, t) == elseifs_ws(i.elseifs, k as int, in_loop, t)
                            + expr_ws(i.elseifs@[k as int].0, in_loop, t) + block_ws(i.elseifs@[k as int].1, in_loop, t));
                        assert(elseifs_ws(i.elseifs, k as int, in_loop, t) + (expr_ws(i.elseifs@[k as int].0, in_loop, t)
                            + block_ws(i.elseifs@[k as int].1, in_loop, t)) =~= elseifs_ws(i.elseifs, k + 1, in_loop, t));
                    }
                    k = k + 1;
                }
                let ghost o3 = self.out@;
                if let Some(b) = &i.else_block {
                    self.walk_block(b, in_loop);
                } else {
                    proof { lemma_appended_refl(self.out@); }
                }
                proof {
                    let w1 = expr_ws(*i.cond, in_loop, t) + block_ws(i.then_block, in_loop, t);
                    let w2 = elseifs_ws(i.elseifs, i.elseifs@.len() as int, in_loop, t);
                    let w3 = if i.else_block is Some { block_ws(i.else_block->0, in_loop, t) } else { Seq::empty() };
                    lemma_appended_trans(o0, o2, o3, w1, w2);
                    lemma_appended_trans(o0, o3, self.out@, w1 + w2, w3);
                }
            },
            ExprKind::Match(scrut, arms) => {
                self.walk_expr(scrut, in_loop);
                let ghost o1 = self.out@;
                proof { lemma_appended_refl(o1); }
                let mut k: usize = 0;
                while k < arms.len()
                    invariant
                        k <= arms@.len(),
                        self.tables() == t,
                        appended(o1, self.out@, arms_ws(*arms, k as int, in_loop, t)),
                    decreases arms@.len() - k,
                {
                    let ghost b0 = self.out@;
                    self.walk_block(&arms[k].body, in_loop);
                    proof {
                        lemma_appended_trans(o1, b0, self.out@, arms_ws(*arms, k as int, in_loop, t), block_ws(arms@[k as int].body, in_loop, t));
                    }
                    k = k + 1;
                }
                proof {
                    lemma_appended_trans(o0, o1, self.out@, expr_ws(**scrut, in_loop, t), arms_ws(*arms, arms@.len() as int, in_loop, t));
                }
            },
            ExprKind::Block(b) => self.walk_block(b, in_loop),
            ExprKind::BinOp(_, l, r) => {
                self.walk_expr(l, in_loop);
                let ghost o1 = self.out@;
                self.walk_expr(r, in_loop);
                proof { lemma_appended_trans(o0, o1, self.out@, expr_ws(**l, in_loop, t), expr_ws(**r, in_loop, t)); }
            },
            ExprKind::UnaryOp(_, x) => self.walk_expr(x, in_loop),
            ExprKind::Call(callee, args) => {
                self.walk_expr(callee, in_loop);
                let ghost o1 = self.out@;
                self.walk_exprs(args, in_loop);
                proof { lemma_appended_trans(o0, o1, self.out@, expr_ws(**callee, in_loop, t), exprs_ws(*args, args@.len() as int, in_loop, t)); }
            },
            ExprKind::Index(base, idx) => {
                self.walk_expr(base, in_loop);
                let ghost o1 = self.out@;
                self.walk_expr(idx, in_loop);
                proof { lemma_appended_trans(o0, o1, self.out@, expr_ws(**base, in_loop, t), expr_ws(**idx, in_loop, t)); }
            },
            ExprKind::FieldAccess(base, _) => self.walk_expr(base, in_loop),
            ExprKind::VecLit(elems) => self.walk_exprs(elems, in_loop),
            ExprKind::MatLit(rows) => {
                proof { lemma_appended_refl(o0); }
                let mut k: usize = 0;
                while k < rows.len()
                    invariant
                        k <= rows@.len(),
                        self.tables() == t,
                        appended(o0, self.out@, rows_ws(*rows, k as int, in_loop, t)),
                    decreases rows@.len() - k,
                {
                    let ghost b0 = self.out@;
                    self.walk_exprs(&rows[k], in_loop);
                    proof {
                        lemma_appended_trans(o0, b0, self.out@, rows_ws(*rows, k as int, in_loop, t),
                            exprs_ws(rows@[k as int], rows@[k as int]@.len() as int, in_loop, t));
                    }
                    k = k + 1;
                }
            },
            ExprKind::StructLit(_, fields) => {
                proof { lemma_appended_refl(o0); }
                let mut k: usize = 0;
                while k < fields.len()
                    invariant
                        k <= fields@.len(),
                        self.tables() == t,
                        appended(o0, self.out@, fields_ws(*fields, k as int, in_loop, t)),
                    decreases fields@.len() - k,
                {
                    let ghost b0 = self.out@;
                    self.walk_expr(&fields[k].1, in_loop);
                    proof {
                        lemma_appended_trans(o0, b0, self.out@, fields_ws(*fields, k as int, in_loop, t), expr_ws(fields@[k as int].1, in_loop, t));
                    }
                    k = k + 1;
                }
            },
            _ => {
                proof { lemma_appended_refl(self.out@); }
            },
        }
    }

    /// `s` assigns `value` inside a loop: warn when the target is a
    /// `Scalar` binding and `value` adds a `Scalar` to it.
    fn check_accumulation(&mut self, s: &Stmt, value: &Expr)
        ensures
            final(self).tables() == old(self).tables(),
            appended(old(self).out@, final(self).out@, accumulation(*s, *value, old(self).tables())),
    {
        proof { lemma_appended_refl(self.out@); }
        let acc_def = match self.resolutions.get(&s.id) {
            Some(d) => *d,
            None => {
                return;
            },
        };
        if !matches!(self.def_types.get(&acc_def), Some(Ty::Scalar(_))) {
            return;
        }
        if let ExprKind::BinOp(BinOp::Add, l, r) = &value.kind {
            let addend = if self.is_use_of(l, acc_def) {
                r
            } else if self.is_use_of(r, acc_def) {
                l
            } else {
                return;
            };
            if !matches!(self.types.get(&addend.id), Some(Ty::Scalar(_))) {
                return;
            }
            let binding_span = match self.definitions.get(&acc_def) {
                Some(info) => Some(info.span),
                None => None,
            };
            let d = precision_accumulation(value.span, binding_span);
            let ghost before = self.out@;
            self.out.push(d);
            proof {
                assert(self.out@.subrange(0, before.len() as int) =~= before);
                assert(self.out@[before.len() as int] == d);
            }
        }
    }

    /// `e` is a name that refers to `def`.
    fn is_use_of(&self, e: &Expr, def: DefId) -> (r: bool)
        ensures
            r == use_of(*e, def, self.tables()),
    {
        if let ExprKind::Ident(_) = &e.kind {
            match self.resolutions.get(&e.id) {
                Some(d) => d.0 == def.0,
                None => false,
            }
        } else {
            false
        }
    }
}

} // verus!
