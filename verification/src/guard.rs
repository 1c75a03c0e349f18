//! The reentrancy guard for textual rendering.
//!
//! While a container is being rendered, its identity is held here.  An
//! element whose own rendering leads back into the same container finds the
//! identity already present and receives a fixed placeholder instead of
//! recursing forever.  The identities form a stack: `repr` pushes its
//! container's identity on entry and pops it on every exit path, and each
//! host rendering hook must leave the stack as it found it.

use vstd::prelude::*;

verus! {

/// The set of container identities currently being rendered, held as a stack
/// of entry order.
pub struct ReprGuard {
    pub ids: Vec<u64>,
}

impl View for ReprGuard {
    type V = Seq<u64>;

    open spec fn view(&self) -> Seq<u64> {
        self.ids@
    }
}

impl ReprGuard {
    /// A guard with no identities entered.
    pub fn new() -> (g: ReprGuard)
        ensures
            g@ == Seq::<u64>::empty(),
    {
        ReprGuard { ids: Vec::new() }
    }

    /// Whether `id` is currently being rendered.
    pub fn holds(&self, id: u64) -> (r: bool)
        ensures
            r == self@.contains(id),
    {
        let mut i: usize = 0;
        while i < self.ids.len()
            invariant
                i <= self.ids.len(),
                forall|j: int| 0 <= j < i ==> self.ids@[j] != id,
            decreases self.ids.len() - i,
        {
            if self.ids[i] == id {
                assert(self@[i as int] == id);
                return true;
            }
            i += 1;
        }
        false
    }

    /// Records that `id` is now being rendered.
    pub fn enter(&mut self, id: u64)
        ensures
            final(self)@ == old(self)@.push(id),
    {
        self.ids.push(id);
    }

    /// Releases the most recently entered identity.
    pub fn leave(&mut self)
        requires
            old(self)@.len() > 0,
        ensures
            final(self)@ == old(self)@.drop_last(),
    {
        let _ = self.ids.pop();
        assert(self@ =~= old(self)@.drop_last());
    }
}

} // verus!
