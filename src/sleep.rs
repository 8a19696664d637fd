//! A timer that tests drive by hand: it has elapsed once the time set on it
//! reaches its duration.

use vstd::prelude::*;

verus! {

/// A hand-driven timer; times are in milliseconds.
pub struct MockSleep {
    duration: u64,
    elapsed: u64,
}

impl MockSleep {
    pub closed spec fn spec_duration(&self) -> nat {
        self.duration as nat
    }

    pub closed spec fn spec_elapsed(&self) -> nat {
        self.elapsed as nat
    }

    pub fn new(duration: u64) -> (r: MockSleep)
        ensures
            r.spec_duration() == duration,
            r.spec_elapsed() == 0,
    {
        MockSleep { duration, elapsed: 0 }
    }

    pub fn is_elapsed(&self) -> (r: bool)
        ensures
            r == (self.spec_elapsed() >= self.spec_duration()),
    {
        self.elapsed >= self.duration
    }

    pub fn set_elapsed(&mut self, elapsed: u64)
        ensures
            final(self).spec_elapsed() == elapsed,
            final(self).spec_duration() == old(self).spec_duration(),
    {
        self.elapsed = elapsed;
    }

    /// Makes the timer elapse now.
    pub fn force_complete(&mut self)
        ensures
            final(self).spec_elapsed() == old(self).spec_duration(),
            final(self).spec_duration() == old(self).spec_duration(),
    {
        self.elapsed = self.duration;
    }
}

} // verus!
