//! The counter behind the shared-state pattern.
//!
//! In the runtime layer the counter sits behind a mutual-exclusion lock and
//! is bumped from many tasks; the lock guarantees that every increment reads
//! the value the previous one wrote. This module verifies that sequential
//! core: each increment adds exactly one, and a run of increments that each
//! see their predecessor's result loses no update.

use vstd::prelude::*;

verus! {

/// A counter whose value only ever moves by explicit, observable steps.
pub struct Counter {
    count: i32,
}

impl Counter {
    /// The counter's current value.
    pub closed spec fn value(self) -> int {
        self.count as int
    }

    /// A counter starting at the given value.
    pub fn new(initial: i32) -> (c: Self)
        ensures
            c.value() == initial,
    {
        Counter { count: initial }
    }

    /// Add exactly one to the counter: the update is never lost and never
    /// doubled. Exclusive access (`&mut`) stands in for the lock that the
    /// runtime layer holds across this step.
    pub fn increment(&mut self)
        requires
            old(self).value() < i32::MAX,
        ensures
            final(self).value() == old(self).value() + 1,
    {
        self.count = self.count + 1;
    }

    /// Read the current value.
    pub fn get(&self) -> (v: i32)
        ensures
            v == self.value(),
    {
        self.count
    }
}

/// Law: no lost updates. A trace records the counter's value after each of
/// its updates; if the counter starts at zero and every update increments
/// the value the previous update left — which is exactly what mutual
/// exclusion guarantees for concurrent increments — then after `n` updates
/// the value is exactly `n`.
pub proof fn lemma_no_lost_updates(trace: Seq<int>)
    requires
        trace.len() > 0,
        trace[0] == 0,
        forall|i: int| 0 <= i < trace.len() - 1 ==> trace[i + 1] == #[trigger] trace[i] + 1,
    ensures
        trace.last() == trace.len() - 1,
    decreases trace.len(),
{
    if trace.len() > 1 {
        lemma_no_lost_updates(trace.drop_last());
        assert(trace.drop_last()[trace.len() - 2] == trace[trace.len() - 2]);
    }
}

} // verus!
