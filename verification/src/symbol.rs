//! Variable names.
use vstd::prelude::*;

verus! {

/// A name in the tree.
///
/// `base` is the index of the interned source text. `version` is 0 for a name
/// as the source wrote it; the pass gives each definition it emits the base of
/// the name it defines and a version that no name had before.
#[derive(Clone, Copy, PartialEq, Eq, Structural, Debug, Hash)]
pub struct Symbol {
    pub base: u32,
    pub version: u64,
}

/// Index of the interned text `owner`.
pub const OWNER: u32 = 101;

/// Index of the interned text `gates`.
pub const GATES: u32 = 102;

/// The name of the first reserved member of a record.
pub open spec fn owner() -> Symbol {
    Symbol { base: OWNER, version: 0 }
}

/// The name of the second reserved member of a record.
pub open spec fn gates() -> Symbol {
    Symbol { base: GATES, version: 0 }
}

/// Reads `leo_span::sym::owner` and returns `Symbol::as_u32` of it: the place
/// of `owner` in the interner's list of predefined texts, counted from 0.
#[verifier::external_body]
pub(crate) fn owner_index() -> (index: u32)
    ensures
        index == OWNER,
{
    leo_span::sym::owner.as_u32()
}

/// Reads `leo_span::sym::gates` and returns `Symbol::as_u32` of it: the place
/// of `gates` in the interner's list of predefined texts, counted from 0.
#[verifier::external_body]
pub(crate) fn gates_index() -> (index: u32)
    ensures
        index == GATES,
{
    leo_span::sym::gates.as_u32()
}

impl Symbol {
    /// The name that the source text with index `base` stands for.
    pub fn source(base: u32) -> (name: Symbol)
        ensures
            name == (Symbol { base, version: 0 }),
    {
        Symbol { base, version: 0 }
    }

    /// The reserved member name `owner`.
    pub fn reserved_owner() -> (name: Symbol)
        ensures
            name == owner(),
    {
        Symbol { base: owner_index(), version: 0 }
    }

    /// The reserved member name `gates`.
    pub fn reserved_gates() -> (name: Symbol)
        ensures
            name == gates(),
    {
        Symbol { base: gates_index(), version: 0 }
    }
}

} // verus!
