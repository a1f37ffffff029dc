//! Sources of fresh numeric identifiers.
use vstd::prelude::*;

verus! {

/// A counter handing out identifiers 1, 2, 3, ... in order, wrapping around
/// after `u64::MAX` as an atomic `fetch_add` does.
#[derive(Debug)]
pub struct IdSource {
    next: u64,
}

impl IdSource {
    /// The identifier the next call to `fresh` hands out.
    pub closed spec fn peek(&self) -> u64 {
        self.next
    }

    pub fn new() -> (s: Self)
        ensures
            s.peek() == 1,
    {
        IdSource { next: 1 }
    }

    /// Take the next identifier.
    pub fn fresh(&mut self) -> (id: u64)
        ensures
            id == old(self).peek(),
            final(self).peek() == if old(self).peek() == u64::MAX {
                0
            } else {
                (old(self).peek() + 1) as u64
            },
    {
        let id = self.next;
        self.next = self.next.wrapping_add(1);
        id
    }
}

} // verus!
