use static_single_assignment::assigner::StaticSingleAssigner;
use static_single_assignment::error::{RenameError, SsaError};
use static_single_assignment::rename_table::RenameTable;
use static_single_assignment::symbol::{Symbol, GATES, OWNER};

fn versioned(base: u32, version: u64) -> Symbol {
    Symbol { base, version }
}

#[test]
fn new_table_binds_nothing() {
    let table = RenameTable::new();
    assert_eq!(table.lookup(Symbol::source(1)), None);
}

#[test]
fn update_then_lookup_finds_the_binding() {
    let mut table = RenameTable::new();
    table.update(Symbol::source(1), versioned(1, 4));
    assert_eq!(table.lookup(Symbol::source(1)), Some(versioned(1, 4)));
    assert_eq!(table.lookup(Symbol::source(2)), None);
    assert_eq!(table.lookup(versioned(1, 4)), None);
}

#[test]
fn update_overwrites_and_keeps_the_place_of_the_key() {
    let mut table = RenameTable::new();
    table.update(Symbol::source(1), versioned(1, 1));
    table.update(Symbol::source(2), versioned(2, 2));
    table.update(Symbol::source(1), versioned(1, 3));
    assert_eq!(table.lookup(Symbol::source(1)), Some(versioned(1, 3)));
    let frame = table.pop();
    assert_eq!(
        frame,
        vec![(Symbol::source(1), versioned(1, 3)), (Symbol::source(2), versioned(2, 2))]
    );
}

#[test]
fn keys_differ_by_version_as_well_as_base() {
    let mut table = RenameTable::new();
    table.update(versioned(1, 0), versioned(1, 5));
    table.update(versioned(1, 5), versioned(1, 6));
    assert_eq!(table.lookup(versioned(1, 0)), Some(versioned(1, 5)));
    assert_eq!(table.lookup(versioned(1, 5)), Some(versioned(1, 6)));
    assert_eq!(table.lookup(versioned(1, 6)), None);
}

#[test]
fn lookup_walks_outward() {
    let x = Symbol::source(1);
    let y = Symbol::source(2);
    let mut table = RenameTable::new();
    table.update(x, x);
    table.push();
    table.update(y, versioned(2, 1));
    assert_eq!(table.lookup(x), Some(x));
    assert_eq!(table.lookup(y), Some(versioned(2, 1)));
    let frame = table.pop();
    assert_eq!(frame, vec![(y, versioned(2, 1))]);
    assert_eq!(table.lookup(y), None);
    assert_eq!(table.lookup(x), Some(x));
}

#[test]
fn innermost_binding_wins() {
    let x = Symbol::source(1);
    let mut table = RenameTable::new();
    table.update(x, versioned(1, 1));
    table.push();
    table.push();
    table.update(x, versioned(1, 2));
    table.push();
    assert_eq!(table.lookup(x), Some(versioned(1, 2)));
    table.pop();
    table.pop();
    assert_eq!(table.lookup(x), Some(versioned(1, 1)));
}

#[test]
fn update_touches_the_innermost_frame_only() {
    let x = Symbol::source(1);
    let mut table = RenameTable::new();
    table.update(x, versioned(1, 1));
    table.push();
    table.update(x, versioned(1, 2));
    assert_eq!(table.pop(), vec![(x, versioned(1, 2))]);
    assert_eq!(table.pop(), vec![(x, versioned(1, 1))]);
}

#[test]
fn pop_of_the_last_frame_leaves_an_empty_one() {
    let x = Symbol::source(1);
    let mut table = RenameTable::new();
    table.update(x, x);
    assert_eq!(table.pop(), vec![(x, x)]);
    assert_eq!(table.lookup(x), None);
    assert_eq!(table.pop(), vec![]);
    table.update(x, versioned(1, 9));
    assert_eq!(table.lookup(x), Some(versioned(1, 9)));
}

#[test]
fn assigner_starts_with_nothing_bound_and_nothing_handed_out() {
    let assigner = StaticSingleAssigner::new();
    assert_eq!(assigner.counter, 0);
    assert_eq!(assigner.rename_table.lookup(Symbol::source(0)), None);
}

#[test]
fn assigner_push_and_pop_bracket_a_scope() {
    let x = Symbol::source(1);
    let mut assigner = StaticSingleAssigner::new();
    assigner.push();
    assigner.rename_table.update(x, x);
    assert_eq!(assigner.rename_table.lookup(x), Some(x));
    assert_eq!(assigner.pop(), vec![(x, x)]);
    assert_eq!(assigner.rename_table.lookup(x), None);
    assert_eq!(assigner.counter, 0);
}

#[test]
fn unique_symbol_counts_up() {
    let mut assigner = StaticSingleAssigner::new();
    assert_eq!(assigner.unique_symbol(Symbol::source(7)), Ok(versioned(7, 1)));
    assert_eq!(assigner.unique_symbol(Symbol::source(7)), Ok(versioned(7, 2)));
    assert_eq!(assigner.unique_symbol(versioned(8, 1)), Ok(versioned(8, 3)));
    assert_eq!(assigner.counter, 3);
}

#[test]
fn unique_symbol_fails_when_versions_run_out() {
    let mut assigner = StaticSingleAssigner::new();
    assigner.counter = u64::MAX - 1;
    assert_eq!(assigner.unique_symbol(Symbol::source(7)), Ok(versioned(7, u64::MAX)));
    assert_eq!(assigner.unique_symbol(Symbol::source(7)), Err(RenameError::Exhausted));
    assert_eq!(assigner.counter, u64::MAX);
}

#[test]
fn reserved_names_are_those_of_the_interner() {
    assert_eq!(OWNER, leo_span::sym::owner.as_u32());
    assert_eq!(GATES, leo_span::sym::gates.as_u32());
    assert_eq!(Symbol::reserved_owner(), Symbol { base: leo_span::sym::owner.as_u32(), version: 0 });
    assert_eq!(Symbol::reserved_gates(), Symbol { base: leo_span::sym::gates.as_u32(), version: 0 });
    assert_ne!(Symbol::reserved_owner(), Symbol::reserved_gates());
}

#[test]
fn reserved_names_read_back_as_their_text() {
    leo_span::symbol::create_session_if_not_set_then(|_| {
        assert_eq!(leo_span::Symbol::new(OWNER).to_string(), "owner");
        assert_eq!(leo_span::Symbol::new(GATES).to_string(), "gates");
        assert_eq!(leo_span::Symbol::intern("owner").as_u32(), Symbol::reserved_owner().base);
        assert_eq!(leo_span::Symbol::intern("gates").as_u32(), Symbol::reserved_gates().base);
    });
}

#[test]
fn in_function_names_the_function() {
    let f = Symbol::source(50);
    assert_eq!(
        RenameError::Unresolved(Symbol::source(3)).in_function(f),
        SsaError::UnresolvedSymbol { symbol: Symbol::source(3), function: f }
    );
    assert_eq!(RenameError::Exhausted.in_function(f), SsaError::VersionsExhausted { function: f });
}
