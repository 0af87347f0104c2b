//! A rate meter: a lifetime event count, and per window the events that
//! have been recorded since the window's moving average last advanced.
//!
//! The averages themselves are floating-point numbers. The meter stores
//! them as IEEE 754 bit patterns and leaves their arithmetic to the caller:
//! `tick` hands out the events of each window, and `update_snapshot` takes
//! the rates back.

use vstd::prelude::*;
use vstd::wrapping::u64_specs::wrapping_add_signed;

verus! {

/// The number of averaging windows.
pub const WINDOWS: usize = 3;

/// The length in minutes of the window at `index`: 1, 5 and 15.
pub open spec fn spec_window_minutes(index: int) -> u64 {
    if index == 0 {
        1
    } else if index == 1 {
        5
    } else {
        15
    }
}

/// The length in minutes of the window at `index`.
pub fn window_minutes(index: usize) -> (minutes: u64)
    requires
        index < WINDOWS,
    ensures
        minutes == spec_window_minutes(index as int),
{
    if index == 0 {
        1
    } else if index == 1 {
        5
    } else {
        15
    }
}

/// The index of the window that is `minutes` long, if there is one.
pub fn window_index(minutes: u64) -> (index: Option<usize>)
    ensures
        match index {
            Some(i) => i < WINDOWS && spec_window_minutes(i as int) == minutes,
            None => forall|i: int| 0 <= i < WINDOWS ==> spec_window_minutes(i) != minutes,
        },
{
    let mut i: usize = 0;
    while i < WINDOWS
        invariant
            i <= WINDOWS,
            forall|j: int| 0 <= j < i ==> spec_window_minutes(j) != minutes,
        decreases WINDOWS - i,
    {
        if window_minutes(i) == minutes {
            return Some(i);
        }
        i = i + 1;
    }
    None
}

/// The current time in whole seconds since the epoch, as `time::get_time`
/// reports it. Nothing is claimed of the value: it is whatever the system
/// clock says.
#[verifier::external_body]
fn clock_seconds() -> (seconds: i64) {
    time::get_time().sec
}

/// What a meter shows at one moment.
#[derive(Debug)]
pub struct MeterSnapshot {
    pub count: i64,
    /// The rates of the three windows, as bit patterns.
    pub rates: [u64; 3],
    /// The mean rate, as a bit pattern.
    pub mean: u64,
}

/// The state of a meter.
pub struct MeterView {
    /// The events recorded over the meter's lifetime.
    pub count: int,
    /// Per window, the events recorded since the window last advanced.
    pub pending: Seq<u64>,
    /// Per window, the stored rate as a bit pattern.
    pub rates: Seq<u64>,
    /// The stored mean rate as a bit pattern.
    pub mean: u64,
    /// The second at which the meter was made.
    pub start: i64,
}

impl MeterView {
    /// One bucket and one rate per window.
    pub open spec fn wf(self) -> bool {
        &&& self.pending.len() == WINDOWS
        &&& self.rates.len() == WINDOWS
    }

    /// The state after `n` events are recorded. A bucket is a 64-bit
    /// counter that wraps around.
    pub open spec fn mark(self, n: i64) -> MeterView {
        MeterView {
            count: self.count + n,
            pending: Seq::new(self.pending.len(), |i: int| wrapping_add_signed(self.pending[i], n)),
            ..self
        }
    }

    /// The state after every window has advanced by one step.
    pub open spec fn tick(self) -> MeterView {
        MeterView { pending: Seq::new(self.pending.len(), |i: int| 0u64), ..self }
    }

    /// The state after recomputed rates are stored.
    pub open spec fn store(self, rates: Seq<u64>, mean: u64) -> MeterView {
        MeterView { rates, mean, ..self }
    }
}

#[derive(Debug)]
pub struct Meter {
    count: i64,
    rates: [u64; 3],
    mean: u64,
    pending: [u64; 3],
    start: i64,
}

impl View for Meter {
    type V = MeterView;

    closed spec fn view(&self) -> MeterView {
        MeterView {
            count: self.count as int,
            pending: self.pending@,
            rates: self.rates@,
            mean: self.mean,
            start: self.start,
        }
    }
}

impl Meter {
    /// A meter that has seen no event: count zero, nothing pending, all
    /// rates and the mean at positive zero.
    pub fn new() -> (m: Meter)
        ensures
            m@.wf(),
            m@.count == 0,
            m@.pending == seq![0u64, 0u64, 0u64],
            m@.rates == seq![0u64, 0u64, 0u64],
            m@.mean == 0,
    {
        let start = clock_seconds();
        let m = Meter { count: 0, rates: [0, 0, 0], mean: 0, pending: [0, 0, 0], start };
        assert(m@.pending =~= seq![0u64, 0u64, 0u64]);
        m
    }

    /// What the meter shows now.
    pub fn snapshot(&self) -> (s: MeterSnapshot)
        ensures
            s.count == self@.count,
            s.rates@ == self@.rates,
            s.mean == self@.mean,
    {
        MeterSnapshot { count: self.count, rates: self.rates, mean: self.mean }
    }

    /// Records `n` events: in the lifetime count and in the pending bucket
    /// of every window. The count has to stay within 64 bits.
    pub fn mark(&mut self, n: i64)
        requires
            i64::MIN <= old(self)@.count + n <= i64::MAX,
        ensures
            final(self)@ == old(self)@.mark(n),
            final(self)@.wf(),
    {
        let pending = [
            self.pending[0].wrapping_add_signed(n),
            self.pending[1].wrapping_add_signed(n),
            self.pending[2].wrapping_add_signed(n),
        ];
        self.count = self.count + n;
        self.pending = pending;
        assert(self@.pending =~= old(self)@.mark(n).pending);
    }

    /// Advances every window by one step: hands out the events pending for
    /// each window and empties the buckets. The caller decays each rate
    /// with the events of its window.
    pub fn tick(&mut self) -> (events: [u64; 3])
        ensures
            final(self)@ == old(self)@.tick(),
            final(self)@.wf(),
            forall|i: int| 0 <= i < WINDOWS ==> #[trigger] events@[i] == old(self)@.pending[i],
    {
        let events = self.pending;
        self.pending = [0, 0, 0];
        assert(self@.pending =~= old(self)@.tick().pending);
        events
    }

    /// Stores the rates and the mean that the caller has recomputed.
    pub fn update_snapshot(&mut self, rates: [u64; 3], mean: u64)
        ensures
            final(self)@ == old(self)@.store(rates@, mean),
    {
        self.rates = rates;
        self.mean = mean;
    }

    /// The stored rate of the window that is `minutes` long, as a bit
    /// pattern; positive zero where no window has that length.
    pub fn rate(&self, minutes: u64) -> (bits: u64)
        ensures
            minutes == 1 ==> bits == self@.rates[0],
            minutes == 5 ==> bits == self@.rates[1],
            minutes == 15 ==> bits == self@.rates[2],
            minutes != 1 && minutes != 5 && minutes != 15 ==> bits == 0,
    {
        match window_index(minutes) {
            Some(i) => self.rates[i],
            None => {
                assert(spec_window_minutes(0) != minutes);
                assert(spec_window_minutes(1) != minutes);
                assert(spec_window_minutes(2) != minutes);
                0
            },
        }
    }

    /// The stored mean rate, as a bit pattern.
    pub fn mean(&self) -> (bits: u64)
        ensures
            bits == self@.mean,
    {
        self.mean
    }

    /// The number of events recorded over the meter's lifetime.
    pub fn count(&self) -> (count: i64)
        ensures
            count == self@.count,
    {
        self.count
    }

    /// The second, since the epoch, at which the meter was made.
    pub fn start(&self) -> (seconds: i64)
        ensures
            seconds == self@.start,
    {
        self.start
    }
}

/// Marks add up: after a meter has recorded two runs of events, its
/// count has grown by their sum, and so has every pending bucket that has
/// room for them.
pub proof fn lemma_marks_add_up(m: MeterView, a: i64, b: i64)
    requires
        m.wf(),
        0 <= a,
        0 <= b,
        a + b <= i64::MAX,
        forall|i: int| 0 <= i < WINDOWS ==> #[trigger] m.pending[i] + a + b <= u64::MAX,
    ensures
        m.mark(a).mark(b).count == m.count + a + b,
        forall|i: int| 0 <= i < WINDOWS ==> #[trigger] m.mark(a).mark(b).pending[i] == m.pending[i] + a + b,
        m.mark(a).mark(b) == m.mark((a + b) as i64),
{
    assert forall|i: int| 0 <= i < WINDOWS implies #[trigger] m.mark(a).mark(b).pending[i] == m.pending[i] + a
        + b by {
        assert(m.pending[i] + a + b <= u64::MAX);
    }
    assert(m.mark(a).mark(b).pending =~= m.mark((a + b) as i64).pending);
}

/// A step leaves every bucket empty, so a step that follows with no event
/// in between advances every window with zero events, and neither step
/// touches the count.
pub proof fn lemma_idle_tick_is_empty(m: MeterView)
    requires
        m.wf(),
    ensures
        m.tick().wf(),
        m.tick().count == m.count,
        forall|i: int| 0 <= i < WINDOWS ==> #[trigger] m.tick().pending[i] == 0,
        m.tick().tick() == m.tick(),
{
    assert(m.tick().tick().pending =~= m.tick().pending);
}

} // verus!
