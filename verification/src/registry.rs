//! The macro set registry: the holder of the currently active macro list.
//!
//! The registry starts empty and is only ever replaced wholesale; there is
//! no partial update.  Readers take a snapshot — a deep copy with the same
//! view — so a matcher can scan and an interpreter can run without holding
//! any lock on the registry, and a later `replace` cannot reach what a
//! snapshot owns: an in-flight run keeps executing the tree it captured.
//! An embedder that shares the registry across threads wraps it in a lock
//! held only for the duration of `replace` or `snapshot`.

use vstd::prelude::*;
use crate::model::{Macro, MacroView, macro_seq_view, macro_view};

verus! {

/// The process-wide holder of the current macro list.
pub struct MacroRegistry {
    macros: Vec<Macro>,
}

impl View for MacroRegistry {
    type V = Seq<MacroView>;

    closed spec fn view(&self) -> Seq<MacroView> {
        macro_seq_view(self.macros@)
    }
}

impl MacroRegistry {
    /// The registry a process starts with: no macros.
    pub fn new() -> (r: MacroRegistry)
        ensures
            r@ == Seq::<MacroView>::empty(),
    {
        let r = MacroRegistry { macros: Vec::new() };
        proof {
            assert(r@ =~= Seq::<MacroView>::empty());
        }
        r
    }

    /// Swaps the whole macro list; nothing of the old list survives, and
    /// nothing outside the registry is touched — snapshots taken earlier
    /// keep their value.
    pub fn replace(&mut self, macros: Vec<Macro>)
        ensures
            final(self)@ == macro_seq_view(macros@),
    {
        self.macros = macros;
    }

    /// A deep copy of the current list, for one matching pass: it owns its
    /// memory, so the caller never reads the registry again after this
    /// returns.
    pub fn snapshot(&self) -> (r: Vec<Macro>)
        ensures
            macro_seq_view(r@) == self@,
    {
        let n = self.macros.len();
        let mut r: Vec<Macro> = Vec::new();
        let mut i: usize = 0;
        while i < n
            invariant
                n == self.macros@.len(),
                i <= n,
                r@.len() == i,
                forall|j: int|
                    0 <= j < i ==> macro_view(#[trigger] r@[j]) == macro_view(self.macros@[j]),
            decreases n - i,
        {
            r.push(self.macros[i].clone());
            i = i + 1;
        }
        proof {
            assert(macro_seq_view(r@) =~= macro_seq_view(self.macros@));
        }
        r
    }
}

} // verus!
