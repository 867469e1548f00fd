//! The pure core of the concurrent driver: the deadline decision each worker
//! makes between kernel runs, and the operation counter it reports to.

use vstd::prelude::*;

verus! {

/// The decision a worker takes after each check of the clock: keep looping
/// exactly while the elapsed whole seconds since the start are below the
/// timeout. Once this returns false for a worker, that worker runs no
/// further sieve computation.
pub fn worker_should_continue(elapsed_secs: u64, timeout_secs: u64) -> (r: bool)
    ensures
        r == (elapsed_secs < timeout_secs),
{
    elapsed_secs < timeout_secs
}

/// The shared operation counter, as every worker and the driver see it:
/// starts at zero, grows by exactly one per completed sieve computation,
/// and is never decremented.
pub struct OpCounter {
    /// Completed sieve computations recorded so far.
    pub count: u64,
}

impl OpCounter {
    /// A fresh counter, before any work.
    pub fn new() -> (c: OpCounter)
        ensures
            c.count == 0,
    {
        OpCounter { count: 0 }
    }

    /// Record one completed sieve computation: the count grows by exactly
    /// one, so no update is ever lost.
    pub fn record(&mut self)
        requires
            old(self).count < u64::MAX,
        ensures
            final(self).count == old(self).count + 1,
    {
        self.count = self.count + 1;
    }

    /// Record a worker's whole batch of k completed computations, one by
    /// one: exactly k is added, whatever k is, so summing each worker's
    /// increments gives the final count.
    pub fn record_batch(&mut self, k: u64)
        requires
            old(self).count + k <= u64::MAX,
        ensures
            final(self).count == old(self).count + k,
    {
        let mut done: u64 = 0;
        while done < k
            invariant
                done <= k,
                self.count == old(self).count + done,
                old(self).count + k <= u64::MAX,
            decreases k - done,
        {
            self.record();
            done = done + 1;
        }
    }

    /// The value the driver reads once all workers are done.
    pub fn total(&self) -> (r: u64)
        ensures
            r == self.count,
    {
        self.count
    }
}

} // verus!
