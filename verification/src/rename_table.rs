//! The stack of rename frames.
use crate::ordered_map::{frame_entries, frame_get, frame_insert, frame_into_entries, frame_new, inserted, value_at};
use crate::symbol::Symbol;
use indexmap::IndexMap;
use vstd::prelude::*;

verus! {

/// The name that `name` stands for in a stack of frames: the value of the
/// innermost frame that holds it. The last frame is the innermost.
pub open spec fn resolve(frames: Seq<Seq<(Symbol, Symbol)>>, name: Symbol) -> Option<Symbol>
    decreases frames.len(),
{
    if frames.len() == 0 {
        None
    } else {
        match value_at(frames.last(), name) {
            Some(value) => Some(value),
            None => resolve(frames.drop_last(), name),
        }
    }
}

/// `frames` after `name` was bound to `value` in the innermost frame.
pub open spec fn bound(frames: Seq<Seq<(Symbol, Symbol)>>, name: Symbol, value: Symbol) -> Seq<
    Seq<(Symbol, Symbol)>,
> {
    frames.update(frames.len() - 1, inserted(frames.last(), name, value))
}

/// For each scope that is open, a frame that maps a name of the source to the
/// name it currently stands for. There is always an innermost frame.
pub struct RenameTable {
    enclosing: Vec<IndexMap<(u32, u64), (u32, u64)>>,
    current: IndexMap<(u32, u64), (u32, u64)>,
}

impl View for RenameTable {
    type V = Seq<Seq<(Symbol, Symbol)>>;

    /// The frames, outermost first.
    closed spec fn view(&self) -> Seq<Seq<(Symbol, Symbol)>> {
        self.enclosing@.map_values(|frame: IndexMap<(u32, u64), (u32, u64)>| frame_entries(frame)).push(
            frame_entries(self.current),
        )
    }
}

impl RenameTable {
    /// A table with one frame that binds nothing.
    pub fn new() -> (table: RenameTable)
        ensures
            table@ == seq![Seq::<(Symbol, Symbol)>::empty()],
    {
        let table = RenameTable { enclosing: Vec::new(), current: frame_new() };
        assert(table@ =~= seq![Seq::<(Symbol, Symbol)>::empty()]);
        table
    }

    /// A table is never without a frame.
    pub(crate) proof fn lemma_has_frame(&self)
        ensures
            self@.len() >= 1,
    {
    }

    /// Opens a scope: a new frame without bindings becomes the innermost.
    pub fn push(&mut self)
        ensures
            final(self)@ == old(self)@.push(Seq::empty()),
    {
        let mut frame = frame_new();
        core::mem::swap(&mut self.current, &mut frame);
        self.enclosing.push(frame);
        assert(self@ =~= old(self)@.push(Seq::empty()));
    }

    /// Closes the innermost scope and returns its bindings. The frame that
    /// enclosed it becomes the innermost; where there was none, the table is
    /// left with one frame that binds nothing.
    pub fn pop(&mut self) -> (frame: Vec<(Symbol, Symbol)>)
        ensures
            frame@ == old(self)@.last(),
            final(self)@ == if old(self)@.len() > 1 {
                old(self)@.drop_last()
            } else {
                seq![Seq::<(Symbol, Symbol)>::empty()]
            },
    {
        let mut frame = match self.enclosing.pop() {
            Some(parent) => parent,
            None => frame_new(),
        };
        core::mem::swap(&mut self.current, &mut frame);
        assert(self@ =~= if old(self)@.len() > 1 {
            old(self)@.drop_last()
        } else {
            seq![Seq::<(Symbol, Symbol)>::empty()]
        });
        frame_into_entries(frame)
    }

    /// Binds `symbol` to `new_symbol` in the innermost frame, over a binding
    /// that the frame may have for it.
    pub fn update(&mut self, symbol: Symbol, new_symbol: Symbol)
        ensures
            final(self)@ == bound(old(self)@, symbol, new_symbol),
    {
        frame_insert(&mut self.current, symbol, new_symbol);
        assert(self@ =~= bound(old(self)@, symbol, new_symbol));
    }

    /// The name that `symbol` stands for: the binding of the innermost frame
    /// that has one, `None` where no frame has.
    pub fn lookup(&self, symbol: Symbol) -> (found: Option<Symbol>)
        ensures
            found == resolve(self@, symbol),
    {
        match frame_get(&self.current, symbol) {
            Some(value) => Some(value),
            None => {
                let mut depth: usize = self.enclosing.len();
                while depth > 0
                    invariant
                        depth <= self.enclosing.len(),
                        resolve(self@, symbol) == resolve(self@.take(depth as int), symbol),
                    decreases depth,
                {
                    depth = depth - 1;
                    proof {
                        assert(self@.take(depth as int + 1).drop_last() =~= self@.take(depth as int));
                    }
                    match frame_get(&self.enclosing[depth], symbol) {
                        Some(value) => {
                            return Some(value);
                        },
                        None => {},
                    }
                }
                None
            },
        }
    }
}

} // verus!
