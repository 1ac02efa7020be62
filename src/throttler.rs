use vstd::prelude::*;

verus! {

/// A modulo counter that lets a costly task run on one tick out of every
/// `length`: the first tick runs it, then every `length`-th tick after a run.
pub struct Throttler {
    length: usize,
    counter: usize,
}

impl Throttler {
    /// The number of ticks from one run to the next.
    pub closed spec fn length(&self) -> nat {
        self.length as nat
    }

    /// The number of ticks since the last run.
    pub closed spec fn counter(&self) -> nat {
        self.counter as nat
    }

    /// The counter never passes the length, so a tick never overflows it.
    pub closed spec fn wf(&self) -> bool {
        &&& self.length < usize::MAX
        &&& self.counter <= self.length
    }

    /// A throttler whose first tick runs the task.
    pub fn new(length: usize) -> (r: Throttler)
        requires
            length < usize::MAX,
        ensures
            r.wf(),
            r.length() == length,
            r.counter() == length,
    {
        Throttler { length, counter: length }
    }

    /// Counts one tick and says whether the task runs on it. It runs when
    /// `length` ticks have been counted since the last run; the count then
    /// starts again from zero.
    pub fn try_run(&mut self) -> (run: bool)
        requires
            old(self).wf(),
        ensures
            final(self).wf(),
            final(self).length() == old(self).length(),
            run == (old(self).counter() + 1 >= old(self).length()),
            final(self).counter() == if run {
                0
            } else {
                old(self).counter() + 1
            },
    {
        self.counter += 1;
        if self.counter >= self.length {
            self.counter = 0;
            true
        } else {
            false
        }
    }
}

} // verus!
