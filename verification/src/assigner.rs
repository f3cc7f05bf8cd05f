//! The state of one run of the pass.
use crate::error::RenameError;
use crate::rename_table::RenameTable;
use crate::symbol::Symbol;
use vstd::prelude::*;

verus! {

/// The pass: the rename table of the scopes that are open, and the highest
/// version that a name was given so far.
pub struct StaticSingleAssigner {
    pub rename_table: RenameTable,
    pub counter: u64,
}

/// What a run of the pass knows at a point of the tree.
pub struct RenameState {
    /// The frames of the open scopes, outermost first.
    pub frames: Seq<Seq<(Symbol, Symbol)>>,
    /// The highest version handed out.
    pub counter: u64,
}

impl RenameState {
    /// The state of a pass that has done nothing yet: one frame without
    /// bindings, and no version handed out.
    pub open spec fn initial() -> RenameState {
        RenameState { frames: seq![Seq::<(Symbol, Symbol)>::empty()], counter: 0 }
    }

    /// The same frames, where `counter` versions are handed out.
    pub open spec fn at(self, counter: u64) -> RenameState {
        RenameState { frames: self.frames, counter }
    }
}

impl View for StaticSingleAssigner {
    type V = RenameState;

    open spec fn view(&self) -> RenameState {
        RenameState { frames: self.rename_table@, counter: self.counter }
    }
}

/// The name that a definition of `name` gets where `counter` versions are
/// taken: the same base, under the next version.
pub open spec fn fresh(counter: u64, name: Symbol) -> Symbol {
    Symbol { base: name.base, version: (counter + 1) as u64 }
}

impl StaticSingleAssigner {
    /// A pass that has opened no scope and handed out no version.
    pub fn new() -> (assigner: StaticSingleAssigner)
        ensures
            assigner@ == RenameState::initial(),
    {
        StaticSingleAssigner { rename_table: RenameTable::new(), counter: 0 }
    }

    /// Enters a scope: its frame starts without bindings and sees those of
    /// the scopes around it.
    pub fn push(&mut self)
        ensures
            final(self)@ == (RenameState { frames: old(self)@.frames.push(Seq::empty()), ..old(self)@ }),
    {
        self.rename_table.push();
    }

    /// Leaves the innermost scope and returns its bindings, which no later
    /// lookup sees.
    pub fn pop(&mut self) -> (frame: Vec<(Symbol, Symbol)>)
        ensures
            frame@ == old(self)@.frames.last(),
            final(self)@.counter == old(self)@.counter,
            final(self)@.frames == if old(self)@.frames.len() > 1 {
                old(self)@.frames.drop_last()
            } else {
                seq![Seq::<(Symbol, Symbol)>::empty()]
            },
    {
        self.rename_table.pop()
    }

    /// A name for a new definition of `name`, which no earlier call returned.
    /// Fails, and changes nothing, where the versions have run out.
    pub fn unique_symbol(&mut self, name: Symbol) -> (made: Result<Symbol, RenameError>)
        ensures
            final(self)@.frames == old(self)@.frames,
            old(self)@.counter < u64::MAX ==> made == Ok::<Symbol, RenameError>(fresh(old(self)@.counter, name))
                && final(self)@.counter == old(self)@.counter + 1,
            old(self)@.counter == u64::MAX ==> made == Err::<Symbol, RenameError>(RenameError::Exhausted)
                && final(self)@.counter == old(self)@.counter,
    {
        if self.counter == u64::MAX {
            Err(RenameError::Exhausted)
        } else {
            self.counter = self.counter + 1;
            Ok(Symbol { base: name.base, version: self.counter })
        }
    }
}

} // verus!
