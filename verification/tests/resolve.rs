use dyne::ids::DefId;
use dyne::sema::resolve::SymbolTable;
use dyne::source::Span;

fn span_at(start: u32, end: u32) -> Span {
    Span::new(start as usize, end as usize)
}

#[test]
fn root_scope_lookup_returns_none_for_undefined_name() {
    let table = SymbolTable::new();
    assert_eq!(table.lookup("x"), None);
}

#[test]
fn define_then_lookup_returns_def_id() {
    let mut table = SymbolTable::new();
    table.define("x".into(), DefId(7), span_at(0, 1)).unwrap();
    assert_eq!(table.lookup("x"), Some(DefId(7)));
}

#[test]
fn exit_scope_drops_inner_definitions() {
    let mut table = SymbolTable::new();
    table.enter_scope();
    table.define("x".into(), DefId(1), span_at(0, 1)).unwrap();
    assert_eq!(table.lookup("x"), Some(DefId(1)));
    table.exit_scope();
    assert_eq!(table.lookup("x"), None);
}

#[test]
fn same_scope_redefinition_returns_previous_span() {
    let mut table = SymbolTable::new();
    let first = span_at(0, 1);
    table.define("x".into(), DefId(1), first).unwrap();
    let err = table
        .define("x".into(), DefId(2), span_at(10, 11))
        .unwrap_err();
    assert_eq!(err, first);
}

#[test]
fn outer_scope_shadowing_is_allowed_and_inner_wins() {
    let mut table = SymbolTable::new();
    table.define("x".into(), DefId(1), span_at(0, 1)).unwrap();
    table.enter_scope();
    table.define("x".into(), DefId(2), span_at(10, 11)).unwrap();
    assert_eq!(table.lookup("x"), Some(DefId(2)));
    table.exit_scope();
    assert_eq!(table.lookup("x"), Some(DefId(1)));
}

#[test]
fn lookup_walks_multiple_scopes_innermost_first() {
    let mut table = SymbolTable::new();
    table
        .define("outer".into(), DefId(1), span_at(0, 5))
        .unwrap();
    table.enter_scope();
    table
        .define("inner".into(), DefId(2), span_at(10, 15))
        .unwrap();
    assert_eq!(table.lookup("outer"), Some(DefId(1)));
    assert_eq!(table.lookup("inner"), Some(DefId(2)));
}

