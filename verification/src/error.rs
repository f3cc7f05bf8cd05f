//! The ways the pass fails.
//!
//! Each of them means that the tree was not prepared as the pass expects, or
//! that the machine's limits were reached: none is a fault of the source
//! that a user could mend.
use crate::symbol::Symbol;
use vstd::prelude::*;

verus! {

/// Why the statements of a block could not be renamed.
#[derive(Clone, Copy, PartialEq, Eq, Structural, Debug)]
pub enum RenameError {
    /// The name is read where no open scope binds it.
    Unresolved(Symbol),
    /// A new name was needed and every version had been handed out.
    Exhausted,
}

/// Why a declaration could not be rebuilt.
#[derive(Clone, Copy, PartialEq, Eq, Structural, Debug)]
pub enum SsaError {
    /// `symbol` is read in `function` where no open scope binds it.
    UnresolvedSymbol { symbol: Symbol, function: Symbol },
    /// A new name was needed in `function` and every version had been handed out.
    VersionsExhausted { function: Symbol },
    /// The record `record` has no member named `field`.
    MissingReservedField { record: Symbol, field: Symbol },
}

impl RenameError {
    /// The failure as one of the function named `function`.
    pub open spec fn within(self, function: Symbol) -> SsaError {
        match self {
            RenameError::Unresolved(symbol) => SsaError::UnresolvedSymbol { symbol, function },
            RenameError::Exhausted => SsaError::VersionsExhausted { function },
        }
    }

    /// The failure as one of the function named `function`.
    pub fn in_function(self, function: Symbol) -> (error: SsaError)
        ensures
            error == self.within(function),
    {
        match self {
            RenameError::Unresolved(symbol) => SsaError::UnresolvedSymbol { symbol, function },
            RenameError::Exhausted => SsaError::VersionsExhausted { function },
        }
    }
}

} // verus!
