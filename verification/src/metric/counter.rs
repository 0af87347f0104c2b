//! A cumulative integer metric.

use vstd::prelude::*;

verus! {

/// A signed 64-bit counter that starts at zero.
#[derive(Copy, Clone, Debug)]
pub struct Counter {
    pub value: i64,
}

impl Counter {
    /// The counter after a signed delta is applied.
    pub open spec fn spec_add(self, delta: int) -> Counter {
        Counter { value: (self.value + delta) as i64 }
    }

    /// A counter at zero.
    pub fn new() -> (c: Counter)
        ensures
            c.value == 0,
    {
        Counter { value: 0 }
    }

    /// Resets the counter to zero.
    pub fn clear(&mut self)
        ensures
            final(self).value == 0,
    {
        self.value = 0;
    }

    /// Subtracts `value` from the counter.
    pub fn dec(&mut self, value: i64)
        requires
            i64::MIN <= old(self).value - value <= i64::MAX,
        ensures
            *final(self) == old(self).spec_add(-value),
            final(self).value == old(self).value - value,
    {
        self.value = self.value - value;
    }

    /// Adds `value` to the counter.
    pub fn inc(&mut self, value: i64)
        requires
            i64::MIN <= old(self).value + value <= i64::MAX,
        ensures
            *final(self) == old(self).spec_add(value as int),
            final(self).value == old(self).value + value,
    {
        self.value = self.value + value;
    }

    /// The current value.
    pub fn snapshot(self) -> (value: i64)
        ensures
            value == self.value,
    {
        self.value
    }
}

/// The arithmetic sum of a sequence of deltas.
pub open spec fn sum(deltas: Seq<int>) -> int
    decreases deltas.len(),
{
    if deltas.len() == 0 {
        0
    } else {
        sum(deltas.drop_last()) + deltas.last()
    }
}

/// The counter that results from applying the deltas in order to `start`:
/// an increment by `n` is the delta `n`, a decrement by `n` the delta `-n`.
pub open spec fn apply(start: Counter, deltas: Seq<int>) -> Counter
    decreases deltas.len(),
{
    if deltas.len() == 0 {
        start
    } else {
        apply(start, deltas.drop_last()).spec_add(deltas.last())
    }
}

/// Whether the running total of the deltas stays within the counter's
/// range after every step.
pub open spec fn stays_in_range(deltas: Seq<int>) -> bool {
    forall|n: int| 0 <= n <= deltas.len() ==> i64::MIN <= #[trigger] sum(deltas.take(n)) <= i64::MAX
}

/// A counter that starts at zero holds, after any sequence of increments
/// and decrements whose running total stays in range, the arithmetic sum
/// of the deltas applied.
pub proof fn lemma_counter_holds_sum(deltas: Seq<int>)
    requires
        stays_in_range(deltas),
    ensures
        apply(Counter { value: 0 }, deltas).value == sum(deltas),
    decreases deltas.len(),
{
    if deltas.len() > 0 {
        let front = deltas.drop_last();
        assert forall|n: int| 0 <= n <= front.len() implies i64::MIN <= #[trigger] sum(
            front.take(n),
        ) <= i64::MAX by {
            assert(front.take(n) == deltas.take(n));
        }
        lemma_counter_holds_sum(front);
        assert(deltas.take(deltas.len() as int) == deltas);
        assert(i64::MIN <= sum(deltas.take(deltas.len() as int)) <= i64::MAX);
    }
}

} // verus!
