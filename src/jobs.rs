use vstd::prelude::*;

verus! {

/// How many mesh jobs may run at once, over all planets.
pub const MAX_IN_FLIGHT: u64 = 4;

/// Where a tile's mesh is: not asked for yet, being built, built, or
/// given up on after its worker failed.
#[derive(Clone, Copy, Debug, PartialEq, Eq, Structural)]
pub enum JobStatus {
    NotStarted,
    Generating,
    Ready,
    Failed,
}

/// Counts the mesh jobs in flight and admits a new one only below capacity.
/// The count never exceeds the capacity.
pub struct AdmissionCounter {
    in_flight: u64,
    capacity: u64,
}

impl AdmissionCounter {
    #[verifier::type_invariant]
    spec fn within_capacity(&self) -> bool {
        self.in_flight <= self.capacity
    }

    pub closed spec fn spec_in_flight(&self) -> u64 {
        self.in_flight
    }

    pub closed spec fn spec_capacity(&self) -> u64 {
        self.capacity
    }

    /// An empty counter admitting at most `MAX_IN_FLIGHT` jobs.
    pub fn new() -> (r: AdmissionCounter)
        ensures
            r.spec_in_flight() == 0,
            r.spec_capacity() == MAX_IN_FLIGHT,
    {
        AdmissionCounter { in_flight: 0, capacity: MAX_IN_FLIGHT }
    }

    /// An empty counter admitting at most `capacity` jobs.
    pub fn with_capacity(capacity: u64) -> (r: AdmissionCounter)
        ensures
            r.spec_in_flight() == 0,
            r.spec_capacity() == capacity,
    {
        AdmissionCounter { in_flight: 0, capacity }
    }

    /// The jobs in flight, which never exceed the capacity.
    pub fn in_flight(&self) -> (r: u64)
        ensures
            r == self.spec_in_flight(),
            r <= self.spec_capacity(),
    {
        proof {
            use_type_invariant(self);
        }
        self.in_flight
    }

    pub fn capacity(&self) -> (r: u64)
        ensures
            r == self.spec_capacity(),
    {
        self.capacity
    }

    /// Admits one job if there is room, and counts it.
    pub fn try_admit(&mut self) -> (r: bool)
        ensures
            r == (old(self).spec_in_flight() < old(self).spec_capacity()),
            final(self).spec_capacity() == old(self).spec_capacity(),
            final(self).spec_in_flight() <= final(self).spec_capacity(),
            final(self).spec_in_flight() == old(self).spec_in_flight() + if r {
                1int
            } else {
                0int
            },
    {
        proof {
            use_type_invariant(&*self);
        }
        if self.in_flight < self.capacity {
            self.in_flight = self.in_flight + 1;
            true
        } else {
            false
        }
    }

    /// Takes one finished job off the count; an empty count stays empty.
    pub fn release(&mut self)
        ensures
            final(self).spec_capacity() == old(self).spec_capacity(),
            final(self).spec_in_flight() <= final(self).spec_capacity(),
            final(self).spec_in_flight() == if old(self).spec_in_flight() > 0 {
                old(self).spec_in_flight() - 1
            } else {
                0
            },
    {
        proof {
            use_type_invariant(&*self);
        }
        if self.in_flight > 0 {
            self.in_flight = self.in_flight - 1;
        }
    }
}

} // verus!
