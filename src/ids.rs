use vstd::prelude::*;

verus! {

/// Hands out ids in increasing order, so that no two are the same.
pub struct IdCounter {
    pub next: usize,
}

impl IdCounter {
    /// A counter whose first id is 0.
    pub fn new() -> (r: IdCounter)
        ensures
            r.next == 0,
    {
        IdCounter { next: 0 }
    }

    /// The next id; every later id is larger.
    pub fn fresh(&mut self) -> (r: usize)
        requires
            old(self).next < usize::MAX,
        ensures
            r == old(self).next,
            final(self).next == old(self).next + 1,
    {
        let r = self.next;
        self.next = self.next + 1;
        r
    }
}

} // verus!
