//! Processor usage: the share of time spent busy and idle between two
//! readings of the kernel's statistics.
//!
//! The shares are quotients of tick counts. This module keeps the readings
//! and computes the counts; the caller divides, and stores the quotients
//! as bit patterns.

use vstd::prelude::*;
use std::sync::Arc;
use crate::metric::gauge::Gauge;
use crate::metric::gauge::NAN_BITS;
use crate::metric::key;
use crate::metric::metric_id::borrowed_names_of;
use crate::metric::metric_id::borrowed_pairs_view;
use crate::metric::metric_id::insert_all;
use crate::metric::MetricId;
use crate::parsers::StatCpu;
use crate::plugin::share;
use crate::plugin::Sample;
use crate::plugin::Samples;
use crate::scheduler::Interval;

verus! {

/// The ticks that passed between two readings.
#[derive(Copy, Clone, Debug, PartialEq, Eq, Structural)]
pub struct CpuDelta {
    /// Ticks spent on anything but idling.
    pub used: u64,
    /// Ticks spent idling.
    pub free: u64,
    /// All ticks; never zero.
    pub total: u64,
}

/// Whether `next` is a reading that can follow `prev`: its sums fit in 64
/// bits and none of its counts has gone back.
pub open spec fn follows(prev: StatCpu, next: StatCpu) -> bool {
    &&& prev.spec_total() <= u64::MAX
    &&& next.spec_total() <= u64::MAX
    &&& prev.spec_total() <= next.spec_total()
    &&& prev.spec_used() <= next.spec_used()
    &&& prev.idle <= next.idle
}

/// The ticks between two readings, if any passed.
pub open spec fn spec_cpu_delta(prev: StatCpu, next: StatCpu) -> Option<CpuDelta> {
    if next.spec_total() - prev.spec_total() > 0 {
        Some(
            CpuDelta {
                used: (next.spec_used() - prev.spec_used()) as u64,
                free: (next.idle - prev.idle) as u64,
                total: (next.spec_total() - prev.spec_total()) as u64,
            },
        )
    } else {
        None
    }
}

/// Whether `next` can follow `prev`.
pub fn can_follow(prev: &StatCpu, next: &StatCpu) -> (ok: bool)
    ensures
        ok == follows(*prev, *next),
{
    let p = match checked_total(prev) {
        Some(p) => p,
        None => {
            return false;
        },
    };
    let n = match checked_total(next) {
        Some(n) => n,
        None => {
            return false;
        },
    };
    p <= n && prev.used() <= next.used() && prev.idle <= next.idle
}

/// The sum of all counts of a reading, if it fits in 64 bits.
pub fn checked_total(stat: &StatCpu) -> (total: Option<u64>)
    ensures
        match total {
            Some(t) => t == stat.spec_total(),
            None => stat.spec_total() > u64::MAX,
        },
{
    let mut sum: u64 = stat.user;
    let rest: [u64; 9] = [
        stat.nice,
        stat.system,
        stat.iowait,
        stat.irq,
        stat.softirq,
        stat.steal,
        stat.guest,
        stat.guest_nice,
        stat.idle,
    ];
    let ghost mut so_far: int = stat.user as int;
    let mut i: usize = 0;
    while i < 9
        invariant
            i <= 9,
            sum == so_far,
            rest@ == seq![
                stat.nice,
                stat.system,
                stat.iowait,
                stat.irq,
                stat.softirq,
                stat.steal,
                stat.guest,
                stat.guest_nice,
                stat.idle,
            ],
            so_far == stat.user + partial(rest@, i as int),
            so_far <= stat.spec_total(),
        decreases 9 - i,
    {
        proof {
            reveal_with_fuel(partial, 10);
        }
        match sum.checked_add(rest[i]) {
            Some(s) => {
                sum = s;
                proof {
                    so_far = so_far + rest[i as int];
                }
            },
            None => {
                return None;
            },
        }
        i = i + 1;
    }
    proof {
        reveal_with_fuel(partial, 10);
    }
    Some(sum)
}

/// The sum of the first `n` numbers.
pub open spec fn partial(numbers: Seq<u64>, n: int) -> int
    decreases n,
{
    if n <= 0 {
        0
    } else {
        partial(numbers, n - 1) + numbers[n - 1]
    }
}

/// The ticks between two readings, if any passed.
pub fn cpu_delta(prev: &StatCpu, next: &StatCpu) -> (delta: Option<CpuDelta>)
    requires
        follows(*prev, *next),
    ensures
        delta == spec_cpu_delta(*prev, *next),
        delta matches Some(d) ==> d.total > 0 && d.used + d.free == d.total,
{
    let total_diff = next.total() - prev.total();
    if total_diff > 0 {
        Some(CpuDelta { used: next.used() - prev.used(), free: next.free() - prev.free(), total: total_diff })
    } else {
        None
    }
}

/// How long the processor input asks to wait between updates: a second.
pub fn next_update() -> (interval: Interval)
    ensures
        interval == (Interval { secs: 1, nanos: 0 }),
{
    Interval::from_millis(1000)
}

/// The state of the processor input: the last reading and the two gauges.
pub struct Metrics {
    previous: Option<StatCpu>,
    used: (Arc<MetricId>, Gauge),
    free: (Arc<MetricId>, Gauge),
}

impl Metrics {
    /// The last reading.
    pub closed spec fn spec_previous(&self) -> Option<StatCpu> {
        self.previous
    }

    /// The share of busy time, as a bit pattern.
    pub closed spec fn spec_used(&self) -> u64 {
        self.used.1.bits()
    }

    /// The share of idle time, as a bit pattern.
    pub closed spec fn spec_free(&self) -> u64 {
        self.free.1.bits()
    }

    /// The series of the busy share.
    pub closed spec fn used_id(&self) -> Arc<MetricId> {
        self.used.0
    }

    /// The series of the idle share.
    pub closed spec fn free_id(&self) -> Arc<MetricId> {
        self.free.0
    }

    /// No reading yet, both gauges unset. The two series have the key
    /// `system`, the unit `%`, and under `what` their names, which is the
    /// tag that says what they mean.
    pub fn new() -> (m: Metrics)
        ensures
            m.spec_previous() is None,
            m.spec_used() == NAN_BITS,
            m.spec_free() == NAN_BITS,
            m.used_id()@.key == Some("system"@),
            m.free_id()@.key == Some("system"@),
            m.used_id()@.tags == insert_all(
                Seq::empty(),
                borrowed_pairs_view(seq![("what", "cpu-used"), ("unit", "%")]),
            ),
            m.free_id()@.tags == insert_all(
                Seq::empty(),
                borrowed_pairs_view(seq![("what", "cpu-free"), ("unit", "%")]),
            ),
            m.used_id()@.meaning == borrowed_names_of(seq!["what"]),
            m.free_id()@.meaning == borrowed_names_of(seq!["what"]),
    {
        let used_tags: [(&str, &str); 2] = [("what", "cpu-used"), ("unit", "%")];
        let free_tags: [(&str, &str); 2] = [("what", "cpu-free"), ("unit", "%")];
        let what: [&str; 1] = ["what"];
        assert(used_tags@ =~= seq![("what", "cpu-used"), ("unit", "%")]);
        assert(free_tags@ =~= seq![("what", "cpu-free"), ("unit", "%")]);
        assert(what@ =~= seq!["what"]);
        let used = key("system").tags(used_tags.as_slice()).meaning(what.as_slice()).build();
        let free = key("system").tags(free_tags.as_slice()).meaning(what.as_slice()).build();
        assert(used@.meaning =~= borrowed_names_of(seq!["what"]));
        assert(free@.meaning =~= borrowed_names_of(seq!["what"]));
        Metrics { previous: None, used: (Arc::new(used), Gauge::new()), free: (Arc::new(free), Gauge::new()) }
    }

    /// The last reading.
    pub fn previous(&self) -> (previous: Option<&StatCpu>)
        ensures
            match previous {
                Some(stat) => self.spec_previous() == Some(*stat),
                None => self.spec_previous() is None,
            },
    {
        self.previous.as_ref()
    }

    /// Takes a new reading, and hands out the ticks that passed since the
    /// one before, for the caller to work out the shares. There are none
    /// on the first reading, and none where no tick has passed.
    pub fn advance(&mut self, next: StatCpu) -> (delta: Option<CpuDelta>)
        requires
            old(self).spec_previous() matches Some(prev) ==> follows(prev, next),
        ensures
            final(self).spec_previous() == Some(next),
            delta == match old(self).spec_previous() {
                Some(prev) => spec_cpu_delta(prev, next),
                None => None,
            },
            final(self).spec_used() == old(self).spec_used(),
            final(self).spec_free() == old(self).spec_free(),
            final(self).used_id() == old(self).used_id(),
            final(self).free_id() == old(self).free_id(),
    {
        let delta = match &self.previous {
            None => None,
            Some(prev) => cpu_delta(prev, &next),
        };
        self.previous = Some(next);
        delta
    }

    /// Stores the shares of busy and of idle time, as bit patterns.
    pub fn set_shares(&mut self, used: u64, free: u64)
        ensures
            final(self).spec_used() == used,
            final(self).spec_free() == free,
            final(self).spec_previous() == old(self).spec_previous(),
            final(self).used_id() == old(self).used_id(),
            final(self).free_id() == old(self).free_id(),
    {
        self.used.1.set(used);
        self.free.1.set(free);
    }

    /// The current samples: the idle share, then the busy share.
    pub fn samples(&self) -> (samples: Samples)
        ensures
            samples@.len() == 2,
            samples@[0].metric_id == self.free_id(),
            samples@[0].value == self.spec_free(),
            samples@[1].metric_id == self.used_id(),
            samples@[1].value == self.spec_used(),
    {
        let mut results: Vec<Sample> = Vec::new();
        results.push(Sample::new(share(&self.free.0), self.free.1.snapshot()));
        results.push(Sample::new(share(&self.used.0), self.used.1.snapshot()));
        results
    }
}

} // verus!
