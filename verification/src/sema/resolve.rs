//! Name resolution: a lexically scoped symbol table and the AST walker
//! that records, for every name use, the definition it refers to.

use vstd::prelude::*;
use crate::ast::{
    Block, Expr, ExprKind, ForStmt, FunctionDef, IfExpr, Item, LambdaBody, LambdaExpr, MatchArm,
    Pattern, PatternKind, Program, Stmt, StmtKind, Type, TypeArg, TypeKind, WhileStmt,
};
use crate::diag::{appends_sema_errors, lemma_appends_refl, lemma_appends_trans, Diagnostic, Level, Phase};
use crate::idmap::{DefMap, NodeMap};
use crate::ids::{DefId, NodeId};
use crate::sema::uses::{
    arms_uses, block_uses, elseifs_uses, expr_uses, exprs_uses, fields_uses, item_uses, items_uses, lemma_arms_uses_elem,
    lemma_elseifs_uses_elem, lemma_exprs_uses_elem, lemma_fields_uses_elem, lemma_items_uses_elem, lemma_params_uses_elem,
    lemma_patterns_uses_elem, lemma_rows_uses_elem, lemma_stmts_uses_elem, lemma_struct_fields_uses_elem, lemma_targs_uses_elem,
    lemma_types_uses_elem, lemma_variants_uses_elem, params_uses, pattern_uses, patterns_uses, program_uses, rows_uses,
    stmt_uses, stmts_uses, struct_fields_uses, targs_uses, type_uses, types_uses, variants_uses,
};
use crate::source::Span;
use crate::text::str_eq;

verus! {

broadcast use vstd::std_specs::vec::group_vec_axioms;

/// Use-site `NodeId` to the `DefId` the name refers to.
pub type ResolveTable = NodeMap<DefId>;

/// Binding-introduction `NodeId` to the `DefId` allocated for it.
pub type BindingTable = NodeMap<DefId>;

/// What a definition is.
#[derive(Clone, Copy, Debug, PartialEq, Eq, Structural)]
pub enum DefKind {
    Function,
    Struct,
    Enum,
    EnumVariant,
    TopLevelLet,
    LocalLet,
    Param,
    LoopVar,
    PatternBinding,
}

/// Metadata stored per definition.
#[derive(Debug, PartialEq, Eq)]
pub struct DefinitionInfo {
    pub kind: DefKind,
    pub span: Span,
    pub name: String,
    /// The type parameters of a generic enum; empty for anything else.
    pub type_params: Vec<String>,
}

/// A copy of a list of names.
pub fn clone_names(v: &Vec<String>) -> (r: Vec<String>)
    ensures
        r@.len() == v@.len(),
        forall|i: int| 0 <= i < v@.len() ==> (#[trigger] r@[i])@ == v@[i]@,
{
    let mut out: Vec<String> = Vec::new();
    let mut i: usize = 0;
    while i < v.len()
        invariant
            i <= v@.len(),
            out@.len() == i,
            forall|k: int| 0 <= k < i ==> (#[trigger] out@[k])@ == v@[k]@,
        decreases v@.len() - i,
    {
        out.push(v[i].clone());
        i = i + 1;
    }
    out
}

pub type DefinitionTable = DefMap<DefinitionInfo>;

/// One name bound in a scope.
#[derive(Debug)]
struct ScopeEntry {
    name: String,
    def_id: DefId,
    span: Span,
}

/// The binding of `name` in one scope, if any.
pub open spec fn find_in_scope(scope: Seq<(Seq<char>, DefId, Span)>, name: Seq<char>) -> Option<(DefId, Span)>
    decreases scope.len(),
{
    if scope.len() == 0 {
        None
    } else if scope.last().0 == name {
        Some((scope.last().1, scope.last().2))
    } else {
        find_in_scope(scope.drop_last(), name)
    }
}

/// The innermost binding of `name` across a stack of scopes.
pub open spec fn lookup_spec(scopes: Seq<Seq<(Seq<char>, DefId, Span)>>, name: Seq<char>) -> Option<DefId>
    decreases scopes.len(),
{
    if scopes.len() == 0 {
        None
    } else {
        match find_in_scope(scopes.last(), name) {
            Some((d, _)) => Some(d),
            None => lookup_spec(scopes.drop_last(), name),
        }
    }
}

/// The names, with their spans, that a top-level item binds in the root
/// scope before any body is walked: a function's or a struct's name, an
/// enum's name followed by its variants' names.
pub open spec fn item_hoists(it: Item) -> Seq<(Seq<char>, Span)> {
    match it {
        Item::Function(f) => seq![(f.name@, f.span)],
        Item::Struct(st) => seq![(st.name@, st.span)],
        Item::Enum(e) => seq![(e.name@, e.span)] + Seq::new(e.variants@.len(), |j: int| (e.variants@[j].name@, e.variants@[j].span)),
        _ => Seq::empty(),
    }
}

/// The names the first `k` items bind in the root scope, in order.
pub open spec fn hoists(items: Seq<Item>, k: int) -> Seq<(Seq<char>, Span)>
    decreases k,
{
    if k <= 0 || k > items.len() { Seq::empty() } else { hoists(items, k - 1) + item_hoists(items[k - 1]) }
}

/// `d` reports that `name`, defined at `span`, was already defined in the
/// same scope.
pub open spec fn dup_report(d: Diagnostic, name: Seq<char>, span: Span) -> bool {
    &&& d.level == Level::Error
    &&& d.phase == Phase::Sema
    &&& d.span == span
    &&& d.message@ == "`"@ + name + "` is already defined in this scope"@
}

/// Every name in `hs` that repeats an earlier one is reported in `ds`.
pub open spec fn dups_reported(hs: Seq<(Seq<char>, Span)>, ds: Seq<Diagnostic>) -> bool {
    forall|p: int, q: int| 0 <= p < q < hs.len() && (#[trigger] hs[p]).0 == (#[trigger] hs[q]).0
        ==> exists|t: int| 0 <= t < ds.len() && dup_report(#[trigger] ds[t], hs[q].0, hs[q].1)
}

/// Some name in `hs` repeats an earlier one.
pub open spec fn has_repeat(hs: Seq<(Seq<char>, Span)>) -> bool {
    exists|p: int, q: int| 0 <= p < q < hs.len() && (#[trigger] hs[p]).0 == (#[trigger] hs[q]).0
}

/// Where a name repeats, some diagnostic is reported.
pub proof fn lemma_repeat_reported(hs: Seq<(Seq<char>, Span)>, ds: Seq<Diagnostic>)
    requires
        dups_reported(hs, ds),
        has_repeat(hs),
    ensures
        ds.len() > 0,
{
    let (p, q) = choose|p: int, q: int| 0 <= p < q < hs.len() && (#[trigger] hs[p]).0 == (#[trigger] hs[q]).0;
    let t = choose|t: int| 0 <= t < ds.len() && dup_report(#[trigger] ds[t], hs[q].0, hs[q].1);
}

pub proof fn lemma_dups_keep(hs: Seq<(Seq<char>, Span)>, d0: Seq<Diagnostic>, d1: Seq<Diagnostic>)
    requires
        dups_reported(hs, d0),
        appends_sema_errors(d0, d1),
    ensures
        dups_reported(hs, d1),
{
    assert forall|p: int, q: int| 0 <= p < q < hs.len() && (#[trigger] hs[p]).0 == (#[trigger] hs[q]).0
        implies exists|t: int| 0 <= t < d1.len() && dup_report(#[trigger] d1[t], hs[q].0, hs[q].1) by {
        let t = choose|t: int| 0 <= t < d0.len() && dup_report(#[trigger] d0[t], hs[q].0, hs[q].1);
        assert(d1.subrange(0, d0.len() as int)[t] == d1[t]);
    }
}

proof fn lemma_dups_push(hs: Seq<(Seq<char>, Span)>, d0: Seq<Diagnostic>, d1: Seq<Diagnostic>, name: Seq<char>, span: Span)
    requires
        dups_reported(hs, d0),
        appends_sema_errors(d0, d1),
        (exists|p: int| 0 <= p < hs.len() && #[trigger] hs[p].0 == name) ==> dup_report(d1.last(), name, span) && d1.len() > 0,
    ensures
        dups_reported(hs.push((name, span)), d1),
{
    lemma_dups_keep(hs, d0, d1);
    let h1 = hs.push((name, span));
    assert forall|p: int, q: int| 0 <= p < q < h1.len() && (#[trigger] h1[p]).0 == (#[trigger] h1[q]).0
        implies exists|t: int| 0 <= t < d1.len() && dup_report(#[trigger] d1[t], h1[q].0, h1[q].1) by {
        if q < hs.len() {
            assert(h1[p] == hs[p] && h1[q] == hs[q]);
        } else {
            assert(h1[p] == hs[p]);
            assert(hs[p].0 == name);
            assert(dup_report(d1[d1.len() - 1], h1[q].0, h1[q].1));
        }
    }
}

/// One more root-scope definition of `name` at `span` keeps every hoisted
/// name bound and every repeated one reported.
proof fn lemma_define_step(
    s0: Seq<(Seq<char>, DefId, Span)>,
    s1: Seq<(Seq<char>, DefId, Span)>,
    d0: Seq<Diagnostic>,
    d1: Seq<Diagnostic>,
    hs: Seq<(Seq<char>, Span)>,
    name: Seq<char>,
    span: Span,
)
    requires
        forall|q: int| 0 <= q < hs.len() ==> find_in_scope(s0, #[trigger] hs[q].0) is Some,
        dups_reported(hs, d0),
        appends_sema_errors(d0, d1),
        find_in_scope(s1, name) is Some,
        forall|x: Seq<char>| #[trigger] find_in_scope(s0, x) is Some ==> find_in_scope(s1, x) is Some,
        find_in_scope(s0, name) is Some ==> d1.len() > 0 && dup_report(d1.last(), name, span),
    ensures
        forall|q: int| 0 <= q < hs.push((name, span)).len() ==> find_in_scope(s1, #[trigger] hs.push((name, span))[q].0) is Some,
        dups_reported(hs.push((name, span)), d1),
{
    let h1 = hs.push((name, span));
    assert forall|q: int| 0 <= q < h1.len() implies find_in_scope(s1, #[trigger] h1[q].0) is Some by {
        if q < hs.len() {
            assert(h1[q] == hs[q]);
            assert(find_in_scope(s0, hs[q].0) is Some);
        }
    }
    if exists|p: int| 0 <= p < hs.len() && #[trigger] hs[p].0 == name {
        let p = choose|p: int| 0 <= p < hs.len() && #[trigger] hs[p].0 == name;
        assert(find_in_scope(s0, hs[p].0) is Some);
    }
    lemma_dups_push(hs, d0, d1, name, span);
}

proof fn lemma_hoists_len(items: Seq<Item>, k: int, n: int)
    requires
        0 <= k <= n <= items.len(),
    ensures
        hoists(items, k).len() <= hoists(items, n).len(),
    decreases n - k,
{
    if k < n {
        lemma_hoists_len(items, k, n - 1);
    }
}

proof fn lemma_find_push(cur: Seq<(Seq<char>, DefId, Span)>, e: (Seq<char>, DefId, Span), x: Seq<char>)
    ensures
        find_in_scope(cur.push(e), x) is Some <==> (e.0 == x || find_in_scope(cur, x) is Some),
{
    assert(cur.push(e).drop_last() =~= cur);
}

/// A stack of lexical scopes, innermost last.
#[derive(Debug)]
pub struct SymbolTable {
    scopes: Vec<Vec<ScopeEntry>>,
}

spec fn entry_view(e: ScopeEntry) -> (Seq<char>, DefId, Span) {
    (e.name@, e.def_id, e.span)
}

impl SymbolTable {
    /// The scopes, outermost first, each as a list of (name, id, span).
    pub closed spec fn scopes(self) -> Seq<Seq<(Seq<char>, DefId, Span)>> {
        Seq::new(self.scopes@.len(), |i: int| Seq::new(self.scopes@[i]@.len(), |j: int| entry_view(self.scopes@[i]@[j])))
    }

    /// A table with just the root scope.
    pub fn new() -> (t: SymbolTable)
        ensures
            t.scopes() == seq![Seq::<(Seq<char>, DefId, Span)>::empty()],
    {
        let mut scopes: Vec<Vec<ScopeEntry>> = Vec::new();
        scopes.push(Vec::new());
        let t = SymbolTable { scopes };
        assert(t.scopes() =~~= seq![Seq::<(Seq<char>, DefId, Span)>::empty()]);
        t
    }

    /// Open a new innermost scope.
    pub fn enter_scope(&mut self)
        ensures
            final(self).scopes() == old(self).scopes().push(Seq::empty()),
    {
        self.scopes.push(Vec::new());
        assert(self.scopes() =~~= old(self).scopes().push(Seq::empty()));
    }

    /// Close the innermost scope; the root scope is never closed.
    pub fn exit_scope(&mut self)
        requires
            old(self).scopes().len() > 1,
        ensures
            final(self).scopes() == old(self).scopes().drop_last(),
    {
        self.scopes.pop();
        assert(self.scopes() =~~= old(self).scopes().drop_last());
    }

    /// Bind `name` in the innermost scope. A name already bound in that
    /// scope is refused with the span of its earlier binding; shadowing a
    /// binding of an outer scope is allowed.
    pub fn define(&mut self, name: String, def_id: DefId, span: Span) -> (r: Result<(), Span>)
        requires
            old(self).scopes().len() > 0,
        ensures
            ({
                let s0 = old(self).scopes();
                let cur = s0.last();
                match find_in_scope(cur, name@) {
                    Some((_, prev)) => r == Err::<(), Span>(prev) && final(self).scopes() == s0,
                    None => r is Ok && final(self).scopes() == s0.update(s0.len() - 1, cur.push((name@, def_id, span))),
                }
            }),
    {
        let ghost s0 = self.scopes();
        let last = self.scopes.len() - 1;
        let n = self.scopes[last].len();
        let mut i: usize = n;
        assert(s0.last().take(n as int) =~= s0.last());
        while i > 0
            invariant
                i <= n,
                n == self.scopes@[last as int]@.len(),
                last == self.scopes@.len() - 1,
                self.scopes() == s0,
                find_in_scope(s0.last(), name@) == find_in_scope(s0.last().take(i as int), name@),
            decreases i,
        {
            assert(s0.last().take(i as int).drop_last() =~= s0.last().take(i - 1));
            assert(s0.last().take(i as int).last() == entry_view(self.scopes@[last as int]@[i - 1]));
            if str_eq(self.scopes[last][i - 1].name.as_str(), name.as_str()) {
                return Err(self.scopes[last][i - 1].span);
            }
            i = i - 1;
        }
        assert(s0.last().take(0) =~= Seq::<(Seq<char>, DefId, Span)>::empty());
        let mut scope = self.scopes.pop().unwrap();
        scope.push(ScopeEntry { name, def_id, span });
        self.scopes.push(scope);
        assert(self.scopes() =~~= s0.update(s0.len() - 1, s0.last().push((name@, def_id, span))));
        Ok(())
    }

    /// The innermost binding of `name`.
    pub fn lookup(&self, name: &str) -> (r: Option<DefId>)
        ensures
            r == lookup_spec(self.scopes(), name@),
    {
        let ghost s = self.scopes();
        let mut k: usize = self.scopes.len();
        assert(s.take(k as int) =~= s);
        while k > 0
            invariant
                k <= s.len(),
                s == self.scopes(),
                lookup_spec(s, name@) == lookup_spec(s.take(k as int), name@),
            decreases k,
        {
            let scope = &self.scopes[k - 1];
            assert(s.take(k as int).drop_last() =~= s.take(k - 1));
            let ghost sc = s[k - 1];
            assert(s.take(k as int).last() == sc);
            let mut i: usize = scope.len();
            assert(sc.take(i as int) =~= sc);
            while i > 0
                invariant
                    i <= sc.len(),
                    sc.len() == scope@.len(),
                    sc == s[k - 1],
                    s == self.scopes(),
                    scope == &self.scopes@[k - 1],
                    k <= s.len(),
                    k > 0,
                    s.take(k as int).last() == sc,
                    s.take(k as int).drop_last() == s.take(k - 1),
                    lookup_spec(s, name@) == lookup_spec(s.take(k as int), name@),
                    find_in_scope(sc, name@) == find_in_scope(sc.take(i as int), name@),
                decreases i,
            {
                assert(sc.take(i as int).drop_last() =~= sc.take(i - 1));
                assert(sc.take(i as int).last() == entry_view(scope@[i - 1]));
                if str_eq(scope[i - 1].name.as_str(), name) {
                    return Some(scope[i - 1].def_id);
                }
                i = i - 1;
            }
            assert(sc.take(0) =~= Seq::<(Seq<char>, DefId, Span)>::empty());
            k = k - 1;
        }
        None
    }
}

/// Reading a name right after binding it gives the new definition.
pub proof fn lemma_define_then_lookup(
    s0: Seq<Seq<(Seq<char>, DefId, Span)>>,
    name: Seq<char>,
    d: DefId,
    sp: Span,
)
    requires
        s0.len() > 0,
    ensures
        lookup_spec(s0.update(s0.len() - 1, s0.last().push((name, d, sp))), name) == Some(d),
{
    let s1 = s0.update(s0.len() - 1, s0.last().push((name, d, sp)));
    assert(s1.last() == s0.last().push((name, d, sp)));
}

/// A name bound in the innermost scope cannot be bound there again: the
/// second `define` finds the first binding and is refused.
pub proof fn lemma_define_twice_refused(
    s0: Seq<Seq<(Seq<char>, DefId, Span)>>,
    name: Seq<char>,
    d: DefId,
    sp: Span,
)
    requires
        s0.len() > 0,
    ensures
        find_in_scope(s0.update(s0.len() - 1, s0.last().push((name, d, sp))).last(), name) == Some((d, sp)),
{
    let s1 = s0.update(s0.len() - 1, s0.last().push((name, d, sp)));
    assert(s1.last() == s0.last().push((name, d, sp)));
}

/// In a freshly opened scope every name may be bound, shadowing any
/// binding of an outer scope.
pub proof fn lemma_shadowing_allowed(s0: Seq<Seq<(Seq<char>, DefId, Span)>>, name: Seq<char>)
    ensures
        find_in_scope(s0.push(Seq::empty()).last(), name) is None,
{
}

/// Opening and then closing a scope leaves the table as it was.
pub proof fn lemma_enter_exit(s0: Seq<Seq<(Seq<char>, DefId, Span)>>)
    ensures
        s0.push(Seq::empty()).drop_last() == s0,
        forall|name: Seq<char>| #[trigger] lookup_spec(s0.push(Seq::empty()), name) == lookup_spec(s0, name),
{
    assert(s0.push(Seq::empty()).drop_last() =~= s0);
    assert forall|name: Seq<char>| #[trigger] lookup_spec(s0.push(Seq::empty()), name) == lookup_spec(s0, name) by {
        assert(s0.push(Seq::empty()).drop_last() =~= s0);
    }
}

/// The definition `d` exists and is named `name`.
pub open spec fn def_named(definitions: DefinitionTable, d: DefId, name: Seq<char>) -> bool {
    definitions.at(d) matches Some(info) && info.name@ == name
}

/// The node `n` uses a name, and `d` is a definition of that name.
pub open spec fn resolution_justified(uses: Set<(NodeId, Seq<char>)>, definitions: DefinitionTable, n: NodeId, d: DefId) -> bool {
    exists|name: Seq<char>| #[trigger] uses.contains((n, name)) && def_named(definitions, d, name)
}

/// Distinct binding sites are bound to distinct definitions.
pub open spec fn distinct_bindings(b: BindingTable) -> bool {
    forall|n1: NodeId, n2: NodeId|
        #![trigger b.at(n1), b.at(n2)]
        n1 != n2 && b.at(n1) is Some && b.at(n2) is Some ==> b.at(n1) != b.at(n2)
}

/// Every definition id recorded in the table and in the maps has an
/// entry in `definitions`.
struct Resolver {
    /// The name uses of the program being resolved.
    uses: Ghost<Set<(NodeId, Seq<char>)>>,
    table: SymbolTable,
    next_def: u32,
    resolutions: ResolveTable,
    definitions: DefinitionTable,
    binding_def_ids: BindingTable,
    diagnostics: Vec<Diagnostic>,
}

impl Resolver {
    spec fn wf(self) -> bool {
        &&& self.table.scopes().len() >= 1
        &&& forall|i: int, j: int| 0 <= i < self.table.scopes().len() && 0 <= j < self.table.scopes()[i].len()
                ==> #[trigger] def_named(self.definitions, self.table.scopes()[i][j].1, self.table.scopes()[i][j].0)
        &&& forall|n: NodeId| #[trigger] self.resolutions.at(n) is Some ==> self.definitions.at(self.resolutions.at(n)->0) is Some
        &&& forall|n: NodeId| #[trigger] self.binding_def_ids.at(n) is Some ==> self.definitions.at(self.binding_def_ids.at(n)->0) is Some
        &&& forall|d: DefId| #[trigger] self.definitions.at(d) is Some ==> d.0 < self.next_def
        &&& distinct_bindings(self.binding_def_ids)
        &&& forall|n: NodeId| #[trigger] self.resolutions.at(n) is Some ==> resolution_justified(self.uses@, self.definitions, n, self.resolutions.at(n)->0)
    }

    /// The number of open scopes.
    spec fn depth(self) -> nat {
        self.table.scopes().len()
    }

    /// The open scopes except the innermost.
    spec fn outer(self) -> Seq<Seq<(Seq<char>, DefId, Span)>> {
        self.table.scopes().drop_last()
    }

    /// The open scopes.
    spec fn scopes(self) -> Seq<Seq<(Seq<char>, DefId, Span)>> {
        self.table.scopes()
    }

    fn new(Ghost(uses): Ghost<Set<(NodeId, Seq<char>)>>) -> (r: Resolver)
        ensures
            r.wf(),
            r.depth() == 1,
            r.diagnostics@.len() == 0,
            r.uses@ == uses,
            r.next_def == 0,
    {
        let r = Resolver {
            uses: Ghost(uses),
            table: SymbolTable::new(),
            next_def: 0,
            resolutions: NodeMap::new(),
            definitions: DefMap::new(),
            binding_def_ids: NodeMap::new(),
            diagnostics: Vec::new(),
        };
        r
    }

    fn enter(&mut self)
        requires
            old(self).wf(),
        ensures
            final(self).wf(),
            final(self).uses == old(self).uses,
            final(self).scopes() == old(self).scopes().push(Seq::empty()),
            final(self).diagnostics == old(self).diagnostics,
    {
        self.table.enter_scope();
        proof {
            assert forall|i: int, j: int| 0 <= i < self.table.scopes().len() && 0 <= j < self.table.scopes()[i].len()
                implies #[trigger] def_named(self.definitions, self.table.scopes()[i][j].1, self.table.scopes()[i][j].0) by {
                assert(self.table.scopes()[i] == old(self).table.scopes()[i]);
            }
        }
    }

    fn exit(&mut self)
        requires
            old(self).wf(),
            old(self).depth() > 1,
        ensures
            final(self).wf(),
            final(self).uses == old(self).uses,
            final(self).scopes() == old(self).scopes().drop_last(),
            final(self).diagnostics == old(self).diagnostics,
    {
        self.table.exit_scope();
        proof {
            assert forall|i: int, j: int| 0 <= i < self.table.scopes().len() && 0 <= j < self.table.scopes()[i].len()
                implies #[trigger] def_named(self.definitions, self.table.scopes()[i][j].1, self.table.scopes()[i][j].0) by {
                assert(self.table.scopes()[i] == old(self).table.scopes()[i]);
            }
        }
    }

    /// Bind `name` in the innermost scope under a fresh `DefId` and record
    /// its definition (and, when given, its binding site). A same-scope
    /// collision reports `duplicate_name` and allocates nothing.
    fn define_or_report(&mut self, name: &String, kind: DefKind, span: Span, site: Option<NodeId>, type_params: Vec<String>) -> (r: Option<DefId>)
        requires
            old(self).wf(),
        ensures
            final(self).wf(),
            final(self).uses == old(self).uses,
            final(self).depth() == old(self).depth(),
            final(self).outer() == old(self).outer(),
            appends_sema_errors(old(self).diagnostics@, final(self).diagnostics@),
            r matches Some(d) ==> lookup_spec(final(self).scopes(), name@) == Some(d),
            r matches Some(d) ==> final(self).scopes().last() == old(self).scopes().last().push((name@, d, span)),
            r matches Some(d) ==> final(self).diagnostics == old(self).diagnostics && (final(self).definitions.at(d) matches Some(
                info,
            ) && info.name@ == name@ && info.kind == kind && info.span == span && info.type_params == type_params)
                && old(self).definitions.at(d) is None
                && (forall|x: DefId| x != d ==> #[trigger] final(self).definitions.at(x) == old(self).definitions.at(x))
                && (site matches Some(n) ==> final(self).binding_def_ids.at(n) == Some(d)),
            old(self).next_def < u32::MAX && find_in_scope(old(self).scopes().last(), name@) is None ==> r is Some,
            r is None ==> final(self).definitions == old(self).definitions && final(self).binding_def_ids
                == old(self).binding_def_ids && final(self).scopes() == old(self).scopes()
                && final(self).diagnostics@.len() == old(self).diagnostics@.len() + 1,
            old(self).next_def <= final(self).next_def <= old(self).next_def + 1,
            find_in_scope(old(self).scopes().last(), name@) is Some ==> r is None,
            old(self).next_def < u32::MAX ==> find_in_scope(final(self).scopes().last(), name@) is Some,
            forall|x: Seq<char>| #[trigger] find_in_scope(old(self).scopes().last(), x) is Some
                ==> find_in_scope(final(self).scopes().last(), x) is Some,
            old(self).next_def < u32::MAX ==> (find_in_scope(old(self).scopes().last(), name@) matches Some((_, prev)) ==> {
                let d = final(self).diagnostics@.last();
                &&& d.level == Level::Error
                &&& d.phase == Phase::Sema
                &&& d.span == span
                &&& d.message@ == "`"@ + name@ + "` is already defined in this scope"@
                &&& d.labels@.len() == 1
                &&& d.labels@[0].0 == prev
                &&& d.labels@[0].1@ == "previously defined here"@
                &&& d.notes@.len() == 0
            }),
    {
        if self.next_def == u32::MAX {
            crate::diag::emit(&mut self.diagnostics, Diagnostic::type_error(span, "too many definitions"));
            return None;
        }
        let def_id = DefId(self.next_def);
        let ghost s0 = self.table.scopes();
        match self.table.define(name.clone(), def_id, span) {
            Ok(()) => {
                self.next_def = self.next_def + 1;
                self.definitions.insert(def_id, DefinitionInfo { kind, span, name: name.clone(), type_params });
                if let Some(n) = site {
                    self.binding_def_ids.insert(n, def_id);
                }
                proof {
                    lemma_appends_refl(self.diagnostics@);
                    lemma_define_then_lookup(s0, name@, def_id, span);
                    let s1 = self.table.scopes();
                    assert(s1.last() == s0.last().push((name@, def_id, span)));
                    lemma_find_push(s0.last(), (name@, def_id, span), name@);
                    assert forall|x: Seq<char>| #[trigger] find_in_scope(s0.last(), x) is Some
                        implies find_in_scope(s1.last(), x) is Some by {
                        lemma_find_push(s0.last(), (name@, def_id, span), x);
                    }
                    assert(s1.drop_last() =~= s0.drop_last());
                    assert forall|i: int, j: int| 0 <= i < s1.len() && 0 <= j < s1[i].len()
                        implies #[trigger] def_named(self.definitions, s1[i][j].1, s1[i][j].0) by {
                        if i < s1.len() - 1 {
                            assert(s1[i] == s0[i]);
                            assert(def_named(old(self).definitions, s0[i][j].1, s0[i][j].0));
                        } else if j < s0.last().len() {
                            assert(s1[i][j] == s0.last()[j]);
                            assert(def_named(old(self).definitions, s0[i][j].1, s0[i][j].0));
                        }
                    }
                    assert forall|n: NodeId| #[trigger] self.resolutions.at(n) is Some
                        implies resolution_justified(self.uses@, self.definitions, n, self.resolutions.at(n)->0) by {
                        let d = self.resolutions.at(n)->0;
                        assert(resolution_justified(old(self).uses@, old(self).definitions, n, d));
                        let nm = choose|nm: Seq<char>| #[trigger] old(self).uses@.contains((n, nm)) && def_named(old(self).definitions, d, nm);
                        assert(old(self).definitions.at(d) is Some);
                        assert(d != def_id);
                        assert(self.uses@.contains((n, nm)) && def_named(self.definitions, d, nm));
                    }
                }
                Some(def_id)
            },
            Err(prev_span) => {
                let d = crate::sema::diag::duplicate_name(span, prev_span, name.as_str());
                crate::diag::emit(&mut self.diagnostics, d);
                proof {
                    assert(self.table.scopes() == s0);
                }
                None
            },
        }
    }

    /// Record the definition `name` refers to at `id`, or report it as
    /// undefined.
    fn resolve_name_use(&mut self, name: &str, span: Span, id: NodeId)
        requires
            old(self).wf(),
            old(self).uses@.contains((id, name@)),
        ensures
            final(self).wf(),
            final(self).uses == old(self).uses,
            final(self).scopes() == old(self).scopes(),
            appends_sema_errors(old(self).diagnostics@, final(self).diagnostics@),
            ({
                match lookup_spec(old(self).scopes(), name@) {
                    Some(d) => final(self).resolutions.at(id) == Some(d) && final(self).diagnostics@ == old(self).diagnostics@,
                    None => final(self).resolutions == old(self).resolutions
                        && final(self).diagnostics@.len() == old(self).diagnostics@.len() + 1,
                }
            }),
    {
        match self.table.lookup(name) {
            Some(def_id) => {
                proof { self.lemma_lookup_defined(name@); }
                self.resolutions.insert(id, def_id);
                proof {
                    lemma_appends_refl(self.diagnostics@);
                    assert(self.uses@.contains((id, name@)) && def_named(self.definitions, def_id, name@));
                    assert forall|n: NodeId| #[trigger] self.resolutions.at(n) is Some
                        implies resolution_justified(self.uses@, self.definitions, n, self.resolutions.at(n)->0) by {
                        if n != id {
                            assert(self.resolutions.at(n) == old(self).resolutions.at(n));
                        }
                    }
                }
            },
            None => {
                let d = crate::sema::diag::undefined_name(span, name);
                crate::diag::emit(&mut self.diagnostics, d);
            },
        }
    }

    proof fn lemma_lookup_defined(&self, name: Seq<char>)
        requires
            self.wf(),
        ensures
            lookup_spec(self.scopes(), name) matches Some(d) ==> def_named(self.definitions, d, name),
    {
        lemma_lookup_in(self.scopes(), name, self.definitions);
    }
}

proof fn lemma_find_in(scope: Seq<(Seq<char>, DefId, Span)>, name: Seq<char>)
    ensures
        find_in_scope(scope, name) matches Some((d, _)) ==> exists|j: int| 0 <= j < scope.len() && scope[j].1 == d && scope[j].0 == name,
    decreases scope.len(),
{
    if scope.len() > 0 && scope.last().0 != name {
        lemma_find_in(scope.drop_last(), name);
        if let Some((d, _)) = find_in_scope(scope.drop_last(), name) {
            let j = choose|j: int| 0 <= j < scope.drop_last().len() && scope.drop_last()[j].1 == d && scope.drop_last()[j].0 == name;
            assert(scope[j].1 == d && scope[j].0 == name);
        }
    } else if scope.len() > 0 {
        assert(scope[scope.len() - 1].1 == scope.last().1);
    }
}

proof fn lemma_lookup_in(scopes: Seq<Seq<(Seq<char>, DefId, Span)>>, name: Seq<char>, defs: DefinitionTable)
    requires
        forall|i: int, j: int| 0 <= i < scopes.len() && 0 <= j < scopes[i].len() ==> #[trigger] def_named(defs, scopes[i][j].1, scopes[i][j].0),
    ensures
        lookup_spec(scopes, name) matches Some(d) ==> def_named(defs, d, name),
    decreases scopes.len(),
{
    if scopes.len() > 0 {
        lemma_find_in(scopes.last(), name);
        match find_in_scope(scopes.last(), name) {
            Some((d, _)) => {
                let j = choose|j: int| 0 <= j < scopes.last().len() && scopes.last()[j].1 == d && scopes.last()[j].0 == name;
                assert(def_named(defs, scopes[scopes.len() - 1][j].1, scopes[scopes.len() - 1][j].0));
            },
            None => {
                assert forall|i: int, j: int| 0 <= i < scopes.drop_last().len() && 0 <= j < scopes.drop_last()[i].len()
                    implies #[trigger] def_named(defs, scopes.drop_last()[i][j].1, scopes.drop_last()[i][j].0) by {
                    assert(scopes.drop_last()[i] == scopes[i]);
                }
                lemma_lookup_in(scopes.drop_last(), name, defs);
            },
        }
    }
}


/// Resolve every name in `prog`.
///
/// Returns the use-site resolutions, the definition table, the
/// binding-site table and the diagnostics (undefined and duplicate
/// names), which are all sema-phase errors. Every top-level name that
/// repeats one bound before it in the root scope (function, struct, enum
/// and variant names, in order) is reported as a duplicate at its span. Every resolution and every
/// binding refers to an entry of the definition table; a resolved node is
/// a place where the program uses a name, and its definition bears that
/// name; distinct binding sites get distinct definitions.
pub fn resolve_program(prog: &Program) -> (r: (ResolveTable, DefinitionTable, BindingTable, Vec<Diagnostic>))
    ensures
        forall|i: int| 0 <= i < r.3@.len() ==> (#[trigger] r.3@[i]).phase == Phase::Sema && r.3@[i].level == Level::Error,
        forall|n: NodeId| #[trigger] r.0.at(n) is Some ==> r.1.at(r.0.at(n)->0) is Some,
        forall|n: NodeId| #[trigger] r.2.at(n) is Some ==> r.1.at(r.2.at(n)->0) is Some,
        distinct_bindings(r.2),
        forall|n: NodeId| #[trigger] r.0.at(n) is Some ==> resolution_justified(program_uses(*prog), r.1, n, r.0.at(n)->0),
        prog.items@.len() == 0 ==> r.3@.len() == 0,
        hoists(prog.items@, prog.items@.len() as int).len() < u32::MAX
            ==> dups_reported(hoists(prog.items@, prog.items@.len() as int), r.3@),
{
    let mut r = Resolver::new(Ghost(program_uses(*prog)));
    hoist_top_level(&mut r, prog);
    let ghost total = hoists(prog.items@, prog.items@.len() as int);
    let mut i: usize = 0;
    while i < prog.items.len()
        invariant
            r.wf(),
            r.uses@ == program_uses(*prog),
            r.depth() == 1,
            forall|k: int| 0 <= k < r.diagnostics@.len() ==> (#[trigger] r.diagnostics@[k]).phase == Phase::Sema && r.diagnostics@[k].level == Level::Error,
            i <= prog.items@.len(),
            prog.items@.len() == 0 ==> r.diagnostics@.len() == 0,
            total == hoists(prog.items@, prog.items@.len() as int),
            total.len() < u32::MAX ==> dups_reported(total, r.diagnostics@),
        decreases prog.items@.len() - i,
    {
        let ghost d0 = r.diagnostics@;
        proof { lemma_items_uses_elem(prog.items@, i as int, prog.items@.len() as int); }
        resolve_item(&mut r, &prog.items[i]);
        proof {
            if total.len() < u32::MAX {
                lemma_dups_keep(total, d0, r.diagnostics@);
            }
        }
        proof {
            assert forall|k: int| 0 <= k < r.diagnostics@.len() implies (#[trigger] r.diagnostics@[k]).phase == Phase::Sema && r.diagnostics@[k].level == Level::Error by {
                if k < d0.len() {
                    assert(r.diagnostics@[k] == r.diagnostics@.subrange(0, d0.len() as int)[k]);
                }
            }
        }
        i = i + 1;
    }
    proof { r.lemma_wf_maps(); }
    (r.resolutions, r.definitions, r.binding_def_ids, r.diagnostics)
}

impl Resolver {
    proof fn lemma_wf_maps(&self)
        requires
            self.wf(),
        ensures
            forall|n: NodeId| #[trigger] self.resolutions.at(n) is Some ==> self.definitions.at(self.resolutions.at(n)->0) is Some,
            forall|n: NodeId| #[trigger] self.binding_def_ids.at(n) is Some ==> self.definitions.at(self.binding_def_ids.at(n)->0) is Some,
    {
    }
}

/// Functions, structs, enums and enum variants are visible throughout the
/// program, so they are bound before any body is walked. Top-level `let`s
/// are not: like local ones they come into scope after their initializer.
#[verifier::loop_isolation(false)]
fn hoist_top_level(r: &mut Resolver, prog: &Program)
    requires
        old(r).wf(),
        old(r).depth() == 1,
        old(r).diagnostics@.len() == 0,
        old(r).next_def == 0,
    ensures
        final(r).wf(),
        final(r).uses == old(r).uses,
        final(r).depth() == 1,
        forall|k: int| 0 <= k < final(r).diagnostics@.len() ==> (#[trigger] final(r).diagnostics@[k]).phase == Phase::Sema && final(r).diagnostics@[k].level == Level::Error,
        prog.items@.len() == 0 ==> final(r).diagnostics@.len() == 0,
        hoists(prog.items@, prog.items@.len() as int).len() < u32::MAX
            ==> dups_reported(hoists(prog.items@, prog.items@.len() as int), final(r).diagnostics@),
{
    let ghost total = hoists(prog.items@, prog.items@.len() as int);
    let ghost small = total.len() < u32::MAX;
    let ghost mut hs: Seq<(Seq<char>, Span)> = Seq::empty();
    let mut i: usize = 0;
    proof { lemma_appends_refl(r.diagnostics@); }
    while i < prog.items.len()
        invariant
            r.wf(),
            r.uses == old(r).uses,
            r.depth() == 1,
            appends_sema_errors(old(r).diagnostics@, r.diagnostics@),
            old(r).diagnostics@.len() == 0,
            i <= prog.items@.len(),
            prog.items@.len() == 0 ==> r.diagnostics@.len() == 0,
            hs == hoists(prog.items@, i as int),
            r.next_def <= old(r).next_def + hs.len(),
            old(r).next_def == 0,
            small == (total.len() < u32::MAX),
            total == hoists(prog.items@, prog.items@.len() as int),
            small ==> forall|q: int| 0 <= q < hs.len() ==> find_in_scope(r.scopes().last(), #[trigger] hs[q].0) is Some,
            small ==> dups_reported(hs, r.diagnostics@),
        decreases prog.items@.len() - i,
    {
        let ghost d0 = r.diagnostics@;
        proof {
            lemma_hoists_len(prog.items@, i as int + 1, prog.items@.len() as int);
            assert(hoists(prog.items@, i as int + 1) == hs + item_hoists(prog.items@[i as int]));
            if !(prog.items@[i as int] is Let || prog.items@[i as int] is Import) {
                assert(hs.len() < total.len());
            }
        }
        match &prog.items[i] {
            Item::Function(f) => {
                let ghost s0 = r.scopes().last();
                assert(small ==> r.next_def < u32::MAX);
                r.define_or_report(&f.name, DefKind::Function, f.span, Some(f.id), Vec::new());
                proof {
                    if small {
                        lemma_define_step(s0, r.scopes().last(), d0, r.diagnostics@, hs, f.name@, f.span);
                    }
                    hs = hs.push((f.name@, f.span));
                    assert(hs =~= hoists(prog.items@, i as int + 1));
                }
            },
            Item::Struct(st) => {
                let ghost s0 = r.scopes().last();
                assert(small ==> r.next_def < u32::MAX);
                r.define_or_report(&st.name, DefKind::Struct, st.span, Some(st.id), Vec::new());
                proof {
                    if small {
                        lemma_define_step(s0, r.scopes().last(), d0, r.diagnostics@, hs, st.name@, st.span);
                    }
                    hs = hs.push((st.name@, st.span));
                    assert(hs =~= hoists(prog.items@, i as int + 1));
                }
            },
            Item::Enum(e) => {
                let ghost s0 = r.scopes().last();
                assert(small ==> r.next_def < u32::MAX);
                r.define_or_report(&e.name, DefKind::Enum, e.span, Some(e.id), clone_names(&e.type_params));
                proof {
                    if small {
                        lemma_define_step(s0, r.scopes().last(), d0, r.diagnostics@, hs, e.name@, e.span);
                    }
                    hs = hs.push((e.name@, e.span));
                }
                let ghost h_item = hoists(prog.items@, i as int + 1);
                let mut j: usize = 0;
                while j < e.variants.len()
                    invariant
                        r.wf(),
                        r.uses == old(r).uses,
                        r.depth() == 1,
                        appends_sema_errors(d0, r.diagnostics@),
                        j <= e.variants@.len(),
                        hs == h_item.subrange(0, hs.len() as int),
                        hs.len() == hoists(prog.items@, i as int).len() + 1 + j,
                        h_item.len() == hoists(prog.items@, i as int).len() + 1 + e.variants@.len(),
                        h_item.len() <= total.len(),
                        r.next_def <= hs.len(),
                        small ==> forall|q: int| 0 <= q < hs.len() ==> find_in_scope(r.scopes().last(), #[trigger] hs[q].0) is Some,
                        small ==> dups_reported(hs, r.diagnostics@),
                    decreases e.variants@.len() - j,
                {
                    let ghost d1 = r.diagnostics@;
                    let v = &e.variants[j];
                    let ghost s1 = r.scopes().last();
                    assert(hs.len() < total.len());
                    r.define_or_report(&v.name, DefKind::EnumVariant, v.span, Some(v.id), Vec::new());
                    proof {
                        lemma_appends_trans(d0, d1, r.diagnostics@);
                        if small {
                            lemma_define_step(s1, r.scopes().last(), d1, r.diagnostics@, hs, v.name@, v.span);
                        }
                        assert(h_item[hs.len() as int] == (v.name@, v.span));
                        hs = hs.push((v.name@, v.span));
                        assert(hs =~= h_item.subrange(0, hs.len() as int));
                    }
                    j = j + 1;
                }
                proof {
                    assert(hs =~= h_item);
                }
            },
            Item::Let(_) => {
                proof {
                    lemma_appends_refl(d0);
                    assert(hs =~= hoists(prog.items@, i as int + 1));
                }
            },
            Item::Import(_) => {
                proof {
                    lemma_appends_refl(d0);
                    assert(hs =~= hoists(prog.items@, i as int + 1));
                }
            },
        }
        proof { lemma_appends_trans(old(r).diagnostics@, d0, r.diagnostics@); }
        i = i + 1;
    }
    proof {
        assert forall|k: int| 0 <= k < r.diagnostics@.len() implies (#[trigger] r.diagnostics@[k]).phase == Phase::Sema && r.diagnostics@[k].level == Level::Error by {}
    }
}

#[verifier::loop_isolation(false)]
fn resolve_item(r: &mut Resolver, item: &Item)
    requires
        item_uses(*item).subset_of(old(r).uses@),
        old(r).wf(),
        old(r).depth() == 1,
    ensures
        final(r).wf(),
        final(r).uses == old(r).uses,
        final(r).depth() == 1,
        appends_sema_errors(old(r).diagnostics@, final(r).diagnostics@),
{
    match item {
        Item::Function(f) => resolve_function(r, f),
        Item::Let(l) => {
            let ghost d0 = r.diagnostics@;
            resolve_type_annotation(r, &l.ty);
            let ghost d1 = r.diagnostics@;
            resolve_expr(r, &l.init);
            let ghost d2 = r.diagnostics@;
            r.define_or_report(&l.name, DefKind::TopLevelLet, l.init.span, Some(l.init.id), Vec::new());
            proof {
                lemma_appends_trans(d0, d1, d2);
                lemma_appends_trans(d0, d2, r.diagnostics@);
            }
        },
        Item::Struct(st) => {
            let mut j: usize = 0;
            proof { lemma_appends_refl(r.diagnostics@); }
            while j < st.fields.len()
                invariant
                    r.wf(),
                    r.uses == old(r).uses,
                    r.depth() == 1,
                    appends_sema_errors(old(r).diagnostics@, r.diagnostics@),
                decreases st.fields@.len() - j,
            {
                let ghost d1 = r.diagnostics@;
                proof { lemma_struct_fields_uses_elem(st.fields, j as int, st.fields@.len() as int); }
                resolve_type_annotation(r, &st.fields[j].ty);
                proof { lemma_appends_trans(old(r).diagnostics@, d1, r.diagnostics@); }
                j = j + 1;
            }
        },
        Item::Enum(e) => {
            proof { lemma_appends_refl(r.diagnostics@); }
            // Payloads of generic enums mention the enum's own type
            // parameters, which are not names in scope; only non-generic
            // enums have their payload types resolved.
            if e.type_params.len() == 0 {
                let mut j: usize = 0;
                while j < e.variants.len()
                    invariant
                        r.wf(),
                        r.uses == old(r).uses,
                        r.depth() == 1,
                        appends_sema_errors(old(r).diagnostics@, r.diagnostics@),
                    decreases e.variants@.len() - j,
                {
                    let v = &e.variants[j];
                    let mut k: usize = 0;
                    while k < v.payload.len()
                        invariant
                            r.wf(),
                            r.uses == old(r).uses,
                            r.depth() == 1,
                            appends_sema_errors(old(r).diagnostics@, r.diagnostics@),
                        decreases v.payload@.len() - k,
                    {
                        let ghost d1 = r.diagnostics@;
                        proof { lemma_variants_uses_elem(e.variants, j as int, e.variants@.len() as int); lemma_types_uses_elem(v.payload, k as int, v.payload@.len() as int); }
                        resolve_type_annotation(r, &v.payload[k]);
                        proof { lemma_appends_trans(old(r).diagnostics@, d1, r.diagnostics@); }
                        k = k + 1;
                    }
                    j = j + 1;
                }
            }
        },
        Item::Import(_) => {
            proof { lemma_appends_refl(r.diagnostics@); }
        },
    }
}

#[verifier::loop_isolation(false)]
fn resolve_function(r: &mut Resolver, f: &FunctionDef)
    requires
        (params_uses(f.params, f.params@.len() as int) + type_uses(f.return_ty) + block_uses(f.body)).subset_of(old(r).uses@),
        old(r).wf(),
    ensures
        final(r).wf(),
        final(r).uses == old(r).uses,
        final(r).scopes() == old(r).scopes(),
        appends_sema_errors(old(r).diagnostics@, final(r).diagnostics@),
{
    r.enter();
    proof { lemma_appends_refl(r.diagnostics@); }
    let mut i: usize = 0;
    while i < f.params.len()
        invariant
            r.wf(),
            r.uses == old(r).uses,
            r.depth() == old(r).depth() + 1,
            r.outer() == old(r).scopes(),
            appends_sema_errors(old(r).diagnostics@, r.diagnostics@),
        decreases f.params@.len() - i,
    {
        let p = &f.params[i];
        let ghost d1 = r.diagnostics@;
        r.define_or_report(&p.name, DefKind::Param, p.span, Some(p.id), Vec::new());
        let ghost d2 = r.diagnostics@;
        proof { lemma_params_uses_elem(f.params, i as int, f.params@.len() as int); }
        resolve_type_annotation(r, &p.ty);
        proof {
            lemma_appends_trans(old(r).diagnostics@, d1, d2);
            lemma_appends_trans(old(r).diagnostics@, d2, r.diagnostics@);
        }
        i = i + 1;
    }
    let ghost d3 = r.diagnostics@;
    resolve_type_annotation(r, &f.return_ty);
    let ghost d4 = r.diagnostics@;
    resolve_stmts(r, &f.body.stmts);
    proof {
        lemma_appends_trans(old(r).diagnostics@, d3, d4);
        lemma_appends_trans(old(r).diagnostics@, d4, r.diagnostics@);
        assert(r.scopes().drop_last() == old(r).scopes());
    }
    r.exit();
}

fn resolve_block(r: &mut Resolver, b: &Block)
    requires
        block_uses(*b).subset_of(old(r).uses@),
        old(r).wf(),
    ensures
        final(r).wf(),
        final(r).uses == old(r).uses,
        final(r).scopes() == old(r).scopes(),
        appends_sema_errors(old(r).diagnostics@, final(r).diagnostics@),
    decreases b, 2nat,
{
    r.enter();
    resolve_stmts(r, &b.stmts);
    r.exit();
}

/// Walk statements without opening a scope: the caller owns it (function
/// bodies share the parameters' scope, loop and arm bodies share the scope
/// of their bindings).
#[verifier::loop_isolation(false)]
fn resolve_stmts(r: &mut Resolver, stmts: &Vec<Stmt>)
    requires
        stmts_uses(*stmts, stmts@.len() as int).subset_of(old(r).uses@),
        old(r).wf(),
        old(r).depth() > 1,
    ensures
        final(r).wf(),
        final(r).uses == old(r).uses,
        final(r).depth() == old(r).depth(),
        final(r).outer() == old(r).outer(),
        appends_sema_errors(old(r).diagnostics@, final(r).diagnostics@),
    decreases stmts, 1nat,
{
    proof { lemma_appends_refl(r.diagnostics@); }
    let mut i: usize = 0;
    while i < stmts.len()
        invariant
            r.wf(),
            r.uses == old(r).uses,
            r.depth() == old(r).depth(),
            r.outer() == old(r).outer(),
            appends_sema_errors(old(r).diagnostics@, r.diagnostics@),
        decreases stmts@.len() - i,
    {
        let ghost d1 = r.diagnostics@;
        proof { lemma_stmts_uses_elem(*stmts, i as int, stmts@.len() as int); }
        resolve_stmt(r, &stmts[i]);
        proof { lemma_appends_trans(old(r).diagnostics@, d1, r.diagnostics@); }
        i = i + 1;
    }
}

fn resolve_stmt(r: &mut Resolver, s: &Stmt)
    requires
        stmt_uses(*s).subset_of(old(r).uses@),
        old(r).wf(),
        old(r).depth() > 1,
    ensures
        final(r).wf(),
        final(r).uses == old(r).uses,
        final(r).depth() == old(r).depth(),
        final(r).outer() == old(r).outer(),
        appends_sema_errors(old(r).diagnostics@, final(r).diagnostics@),
        !(s.kind is Let) ==> final(r).scopes() == old(r).scopes(),
        s.kind matches StmtKind::Let(l) ==> final(r).scopes().last() == old(r).scopes().last() || (
            final(r).scopes().last().drop_last() == old(r).scopes().last() && final(r).scopes().last().last().0 == l.name@
            && final(r).scopes().last().last().2 == s.span),
    decreases s, 0nat,
{
    let ghost d0 = r.diagnostics@;
    match &s.kind {
        StmtKind::Let(l) => {
            resolve_type_annotation(r, &l.ty);
            let ghost d1 = r.diagnostics@;
            resolve_expr(r, &l.init);
            let ghost d2 = r.diagnostics@;
            r.define_or_report(&l.name, DefKind::LocalLet, s.span, Some(s.id), Vec::new());
            proof {
                lemma_appends_trans(d0, d1, d2);
                lemma_appends_trans(d0, d2, r.diagnostics@);
            }
        },
        StmtKind::Assign(name, expr) => {
            r.resolve_name_use(name.as_str(), s.span, s.id);
            let ghost d1 = r.diagnostics@;
            resolve_expr(r, expr);
            proof { lemma_appends_trans(d0, d1, r.diagnostics@); }
        },
        StmtKind::Expr(expr) => resolve_expr(r, expr),
        StmtKind::Return(Some(expr)) => resolve_expr(r, expr),
        StmtKind::Return(None) => {
            proof { lemma_appends_refl(d0); }
        },
        StmtKind::For(f) => resolve_for(r, f, s.span),
        StmtKind::While(w) => {
            resolve_expr(r, &w.cond);
            let ghost d1 = r.diagnostics@;
            resolve_block(r, &w.body);
            proof { lemma_appends_trans(d0, d1, r.diagnostics@); }
        },
    }
}

/// Loop variables live in a scope of their own around the body; their
/// binding sites are the loop's variable ids and their span is the whole
/// `for` statement.
fn resolve_for(r: &mut Resolver, f: &ForStmt, outer_span: Span)
    requires
        (match *f {
            ForStmt::Range { start, end, body, .. } => expr_uses(start) + expr_uses(end) + block_uses(body),
            ForStmt::Iter { iter, body, .. } => expr_uses(iter) + block_uses(body),
            ForStmt::IterKV { iter, body, .. } => expr_uses(iter) + block_uses(body),
        }).subset_of(old(r).uses@),
        old(r).wf(),
    ensures
        final(r).wf(),
        final(r).uses == old(r).uses,
        final(r).scopes() == old(r).scopes(),
        appends_sema_errors(old(r).diagnostics@, final(r).diagnostics@),
    decreases f, 0nat,
{
    let ghost d0 = r.diagnostics@;
    match f {
        ForStmt::Range { var, var_id, start, end, body } => {
            resolve_expr(r, start);
            let ghost d1 = r.diagnostics@;
            resolve_expr(r, end);
            let ghost d2 = r.diagnostics@;
            r.enter();
            r.define_or_report(var, DefKind::LoopVar, outer_span, Some(*var_id), Vec::new());
            let ghost d3 = r.diagnostics@;
            resolve_stmts(r, &body.stmts);
            r.exit();
            proof {
                lemma_appends_trans(d0, d1, d2);
                lemma_appends_trans(d0, d2, d3);
                lemma_appends_trans(d0, d3, r.diagnostics@);
            }
        },
        ForStmt::Iter { var, var_id, iter, body } => {
            resolve_expr(r, iter);
            let ghost d1 = r.diagnostics@;
            r.enter();
            r.define_or_report(var, DefKind::LoopVar, outer_span, Some(*var_id), Vec::new());
            let ghost d2 = r.diagnostics@;
            resolve_stmts(r, &body.stmts);
            r.exit();
            proof {
                lemma_appends_trans(d0, d1, d2);
                lemma_appends_trans(d0, d2, r.diagnostics@);
            }
        },
        ForStmt::IterKV { key, key_id, value, value_id, iter, body } => {
            resolve_expr(r, iter);
            let ghost d1 = r.diagnostics@;
            r.enter();
            r.define_or_report(key, DefKind::LoopVar, outer_span, Some(*key_id), Vec::new());
            let ghost d2 = r.diagnostics@;
            r.define_or_report(value, DefKind::LoopVar, outer_span, Some(*value_id), Vec::new());
            let ghost d3 = r.diagnostics@;
            resolve_stmts(r, &body.stmts);
            r.exit();
            proof {
                lemma_appends_trans(d0, d1, d2);
                lemma_appends_trans(d0, d2, d3);
                lemma_appends_trans(d0, d3, r.diagnostics@);
            }
        },
    }
}

#[verifier::loop_isolation(false)]
fn resolve_exprs(r: &mut Resolver, es: &Vec<Expr>)
    requires
        exprs_uses(*es, es@.len() as int).subset_of(old(r).uses@),
        old(r).wf(),
    ensures
        final(r).wf(),
        final(r).uses == old(r).uses,
        final(r).scopes() == old(r).scopes(),
        appends_sema_errors(old(r).diagnostics@, final(r).diagnostics@),
    decreases es, 1nat,
{
    proof { lemma_appends_refl(r.diagnostics@); }
    let mut i: usize = 0;
    while i < es.len()
        invariant
            r.wf(),
            r.uses == old(r).uses,
            r.scopes() == old(r).scopes(),
            appends_sema_errors(old(r).diagnostics@, r.diagnostics@),
        decreases es@.len() - i,
    {
        let ghost d1 = r.diagnostics@;
        proof { lemma_exprs_uses_elem(*es, i as int, es@.len() as int); }
        resolve_expr(r, &es[i]);
        proof { lemma_appends_trans(old(r).diagnostics@, d1, r.diagnostics@); }
        i = i + 1;
    }
}

#[verifier::loop_isolation(false)]
fn resolve_expr(r: &mut Resolver, e: &Expr)
    requires
        expr_uses(*e).subset_of(old(r).uses@),
        old(r).wf(),
    ensures
        final(r).wf(),
        final(r).uses == old(r).uses,
        final(r).scopes() == old(r).scopes(),
        appends_sema_errors(old(r).diagnostics@, final(r).diagnostics@),
    decreases e, 0nat,
{
    let ghost d0 = r.diagnostics@;
    match &e.kind {
        ExprKind::IntLit(_) | ExprKind::FloatLit(_) | ExprKind::StrLit(_) | ExprKind::BoolLit(_) => {
            proof { lemma_appends_refl(d0); }
        },
        ExprKind::Ident(name) => r.resolve_name_use(name.as_str(), e.span, e.id),
        ExprKind::VecLit(items) => resolve_exprs(r, items),
        ExprKind::MatLit(rows) => {
            proof { lemma_appends_refl(d0); }
            let mut i: usize = 0;
            while i < rows.len()
                invariant
                    r.wf(),
                    r.uses == old(r).uses,
                    r.scopes() == old(r).scopes(),
                    appends_sema_errors(d0, r.diagnostics@),
                decreases rows@.len() - i,
            {
                let ghost d1 = r.diagnostics@;
                proof { lemma_rows_uses_elem(*rows, i as int, rows@.len() as int); }
                resolve_exprs(r, &rows[i]);
                proof { lemma_appends_trans(d0, d1, r.diagnostics@); }
                i = i + 1;
            }
        },
        ExprKind::BinOp(_, lhs, rhs) => {
            resolve_expr(r, lhs);
            let ghost d1 = r.diagnostics@;
            resolve_expr(r, rhs);
            proof { lemma_appends_trans(d0, d1, r.diagnostics@); }
        },
        ExprKind::UnaryOp(_, x) => resolve_expr(r, x),
        ExprKind::Call(callee, args) => {
            resolve_expr(r, callee);
            let ghost d1 = r.diagnostics@;
            resolve_exprs(r, args);
            proof { lemma_appends_trans(d0, d1, r.diagnostics@); }
        },
        ExprKind::Index(b, i) => {
            resolve_expr(r, b);
            let ghost d1 = r.diagnostics@;
            resolve_expr(r, i);
            proof { lemma_appends_trans(d0, d1, r.diagnostics@); }
        },
        ExprKind::FieldAccess(b, _) => resolve_expr(r, b),
        ExprKind::Lambda(l) => resolve_lambda(r, l),
        ExprKind::StructLit(name, fields) => {
            r.resolve_name_use(name.as_str(), e.span, e.id);
            let ghost d1 = r.diagnostics@;
            proof { lemma_appends_refl(d1); }
            let mut i: usize = 0;
            while i < fields.len()
                invariant
                    r.wf(),
                    r.uses == old(r).uses,
                    r.scopes() == old(r).scopes(),
                    appends_sema_errors(d1, r.diagnostics@),
                decreases fields@.len() - i,
            {
                let ghost d2 = r.diagnostics@;
                proof { lemma_fields_uses_elem(*fields, i as int, fields@.len() as int); }
                resolve_expr(r, &fields[i].1);
                proof { lemma_appends_trans(d1, d2, r.diagnostics@); }
                i = i + 1;
            }
            proof { lemma_appends_trans(d0, d1, r.diagnostics@); }
        },
        ExprKind::If(if_expr) => resolve_if(r, if_expr),
        ExprKind::Match(scrut, arms) => {
            resolve_expr(r, scrut);
            let ghost d1 = r.diagnostics@;
            proof { lemma_appends_refl(d1); }
            let mut i: usize = 0;
            while i < arms.len()
                invariant
                    r.wf(),
                    r.uses == old(r).uses,
                    r.scopes() == old(r).scopes(),
                    appends_sema_errors(d1, r.diagnostics@),
                decreases arms@.len() - i,
            {
                let ghost d2 = r.diagnostics@;
                proof { lemma_arms_uses_elem(*arms, i as int, arms@.len() as int); }
                resolve_match_arm(r, &arms[i]);
                proof { lemma_appends_trans(d1, d2, r.diagnostics@); }
                i = i + 1;
            }
            proof { lemma_appends_trans(d0, d1, r.diagnostics@); }
        },
        ExprKind::Block(b) => resolve_block(r, b),
    }
}

#[verifier::loop_isolation(false)]
fn resolve_lambda(r: &mut Resolver, l: &LambdaExpr)
    requires
        (match l.body {
            LambdaBody::Expr(x) => expr_uses(*x),
            LambdaBody::Block(b) => block_uses(b),
        }).subset_of(old(r).uses@),
        old(r).wf(),
    ensures
        final(r).wf(),
        final(r).uses == old(r).uses,
        final(r).scopes() == old(r).scopes(),
        appends_sema_errors(old(r).diagnostics@, final(r).diagnostics@),
    decreases l, 0nat,
{
    r.enter();
    proof { lemma_appends_refl(r.diagnostics@); }
    let mut i: usize = 0;
    while i < l.params.len()
        invariant
            r.wf(),
            r.uses == old(r).uses,
            r.depth() == old(r).depth() + 1,
            r.outer() == old(r).scopes(),
            appends_sema_errors(old(r).diagnostics@, r.diagnostics@),
        decreases l.params@.len() - i,
    {
        let p = &l.params[i];
        let ghost d1 = r.diagnostics@;
        r.define_or_report(&p.name, DefKind::Param, p.span, Some(p.id), Vec::new());
        proof { lemma_appends_trans(old(r).diagnostics@, d1, r.diagnostics@); }
        i = i + 1;
    }
    let ghost d2 = r.diagnostics@;
    match &l.body {
        LambdaBody::Expr(e) => {
            resolve_expr(r, e);
        },
        LambdaBody::Block(b) => {
            resolve_stmts(r, &b.stmts);
        },
    }
    proof {
        lemma_appends_trans(old(r).diagnostics@, d2, r.diagnostics@);
    }
    r.exit();
}

#[verifier::loop_isolation(false)]
fn resolve_if(r: &mut Resolver, i: &IfExpr)
    requires
        (expr_uses(*i.cond) + block_uses(i.then_block) + elseifs_uses(i.elseifs, i.elseifs@.len() as int) + match i.else_block {
            Some(b) => block_uses(b),
            None => Set::empty(),
        }).subset_of(old(r).uses@),
        old(r).wf(),
    ensures
        final(r).wf(),
        final(r).uses == old(r).uses,
        final(r).scopes() == old(r).scopes(),
        appends_sema_errors(old(r).diagnostics@, final(r).diagnostics@),
    decreases i, 0nat,
{
    let ghost d0 = r.diagnostics@;
    resolve_expr(r, &i.cond);
    let ghost d1 = r.diagnostics@;
    resolve_block(r, &i.then_block);
    proof { lemma_appends_trans(d0, d1, r.diagnostics@); }
    let mut k: usize = 0;
    while k < i.elseifs.len()
        invariant
            r.wf(),
            r.uses == old(r).uses,
            r.scopes() == old(r).scopes(),
            appends_sema_errors(d0, r.diagnostics@),
        decreases i.elseifs@.len() - k,
    {
        let ghost d2 = r.diagnostics@;
        proof { lemma_elseifs_uses_elem(i.elseifs, k as int, i.elseifs@.len() as int); }
        resolve_expr(r, &i.elseifs[k].0);
        let ghost d3 = r.diagnostics@;
        resolve_block(r, &i.elseifs[k].1);
        proof {
            lemma_appends_trans(d0, d2, d3);
            lemma_appends_trans(d0, d3, r.diagnostics@);
        }
        k = k + 1;
    }
    if let Some(else_block) = &i.else_block {
        let ghost d4 = r.diagnostics@;
        resolve_block(r, else_block);
        proof { lemma_appends_trans(d0, d4, r.diagnostics@); }
    }
}

fn resolve_match_arm(r: &mut Resolver, arm: &MatchArm)
    requires
        (pattern_uses(arm.pattern) + block_uses(arm.body)).subset_of(old(r).uses@),
        old(r).wf(),
    ensures
        final(r).wf(),
        final(r).uses == old(r).uses,
        final(r).scopes() == old(r).scopes(),
        appends_sema_errors(old(r).diagnostics@, final(r).diagnostics@),
    decreases arm, 0nat,
{
    r.enter();
    let ghost d0 = r.diagnostics@;
    bind_pattern(r, &arm.pattern);
    let ghost d1 = r.diagnostics@;
    resolve_stmts(r, &arm.body.stmts);
    proof { lemma_appends_trans(d0, d1, r.diagnostics@); }
    r.exit();
}

/// Bind the names a pattern introduces; a variant's constructor name is a
/// use of the variant.
#[verifier::loop_isolation(false)]
fn bind_pattern(r: &mut Resolver, p: &Pattern)
    requires
        pattern_uses(*p).subset_of(old(r).uses@),
        old(r).wf(),
        old(r).depth() > 1,
    ensures
        final(r).wf(),
        final(r).uses == old(r).uses,
        final(r).depth() == old(r).depth(),
        final(r).outer() == old(r).outer(),
        appends_sema_errors(old(r).diagnostics@, final(r).diagnostics@),
    decreases p,
{
    match &p.kind {
        PatternKind::Wildcard | PatternKind::IntLit(_) | PatternKind::BoolLit(_) | PatternKind::StrLit(_) => {
            proof { lemma_appends_refl(r.diagnostics@); }
        },
        PatternKind::Ident(name) => {
            r.define_or_report(name, DefKind::PatternBinding, p.span, Some(p.id), Vec::new());
        },
        PatternKind::Variant(ctor, subs) => {
            r.resolve_name_use(ctor.as_str(), p.span, p.id);
            let ghost d1 = r.diagnostics@;
            proof { lemma_appends_refl(d1); }
            let mut i: usize = 0;
            while i < subs.len()
                invariant
                    r.wf(),
                    r.uses == old(r).uses,
                    r.depth() == old(r).depth(),
                    r.outer() == old(r).outer(),
                    appends_sema_errors(d1, r.diagnostics@),
                decreases subs@.len() - i,
            {
                let ghost d2 = r.diagnostics@;
                proof { lemma_patterns_uses_elem(*subs, i as int, subs@.len() as int); }
                bind_pattern(r, &subs[i]);
                proof { lemma_appends_trans(d1, d2, r.diagnostics@); }
                i = i + 1;
            }
            proof { lemma_appends_trans(old(r).diagnostics@, d1, r.diagnostics@); }
        },
    }
}

/// The built-in type names, which have no definition.
pub open spec fn is_builtin_type_name_spec(name: Seq<char>) -> bool {
    name == "Int"@ || name == "Bool"@ || name == "String"@ || name == "Scalar"@ || name == "Vec"@
        || name == "Mat"@ || name == "Array"@ || name == "Dict"@
}

pub fn is_builtin_type_name(name: &str) -> (r: bool)
    ensures
        r == is_builtin_type_name_spec(name@),
{
    str_eq(name, "Int") || str_eq(name, "Bool") || str_eq(name, "String") || str_eq(name, "Scalar")
        || str_eq(name, "Vec") || str_eq(name, "Mat") || str_eq(name, "Array") || str_eq(name, "Dict")
}

/// Record resolutions for the user-defined type names of an annotation.
/// The arguments of `Scalar`, `Vec` and `Mat` are units or sizes and are
/// not walked.
#[verifier::loop_isolation(false)]
fn resolve_type_annotation(r: &mut Resolver, ty: &Type)
    requires
        type_uses(*ty).subset_of(old(r).uses@),
        old(r).wf(),
    ensures
        final(r).wf(),
        final(r).uses == old(r).uses,
        final(r).scopes() == old(r).scopes(),
        appends_sema_errors(old(r).diagnostics@, final(r).diagnostics@),
    decreases ty,
{
    let ghost d0 = r.diagnostics@;
    match &ty.kind {
        TypeKind::Named(name) => {
            if !is_builtin_type_name(name.as_str()) {
                r.resolve_name_use(name.as_str(), ty.span, ty.id);
            } else {
                proof { lemma_appends_refl(d0); }
            }
        },
        TypeKind::Generic(name, args) => {
            if !is_builtin_type_name(name.as_str()) {
                r.resolve_name_use(name.as_str(), ty.span, ty.id);
            } else {
                proof { lemma_appends_refl(d0); }
            }
            let ghost d1 = r.diagnostics@;
            proof { lemma_appends_refl(d1); }
            let unit_or_size_only = str_eq(name.as_str(), "Scalar") || str_eq(name.as_str(), "Vec") || str_eq(name.as_str(), "Mat");
            if !unit_or_size_only {
                let mut i: usize = 0;
                while i < args.len()
                    invariant
                        r.wf(),
                        r.uses == old(r).uses,
                        r.scopes() == old(r).scopes(),
                        appends_sema_errors(d1, r.diagnostics@),
                    decreases args@.len() - i,
                {
                    match &args[i] {
                        TypeArg::Type(t) => {
                            let ghost d2 = r.diagnostics@;
                            proof { lemma_targs_uses_elem(*args, i as int, args@.len() as int); }
                            resolve_type_annotation(r, t);
                            proof { lemma_appends_trans(d1, d2, r.diagnostics@); }
                        },
                        TypeArg::Int(_) | TypeArg::Unit(_) => {},
                    }
                    i = i + 1;
                }
            }
            proof { lemma_appends_trans(d0, d1, r.diagnostics@); }
        },
        TypeKind::Function(args, ret) => {
            proof { lemma_appends_refl(d0); }
            let mut i: usize = 0;
            while i < args.len()
                invariant
                    r.wf(),
                    r.uses == old(r).uses,
                    r.scopes() == old(r).scopes(),
                    appends_sema_errors(d0, r.diagnostics@),
                decreases args@.len() - i,
            {
                let ghost d2 = r.diagnostics@;
                proof { lemma_types_uses_elem(*args, i as int, args@.len() as int); }
                resolve_type_annotation(r, &args[i]);
                proof { lemma_appends_trans(d0, d2, r.diagnostics@); }
                i = i + 1;
            }
            let ghost d3 = r.diagnostics@;
            resolve_type_annotation(r, ret);
            proof { lemma_appends_trans(d0, d3, r.diagnostics@); }
        },
    }
}

} // verus!
