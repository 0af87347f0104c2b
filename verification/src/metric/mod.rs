//! Metric primitives.

pub mod counter;
pub mod gauge;
pub mod meter;
pub mod metric_id;
pub mod order;

pub use self::gauge::Gauge;
pub use self::metric_id::MetricId;
pub use self::metric_id::MetricIdBuilder;
use self::metric_id::MetricIdView;
use self::metric_id::sorted;
use vstd::prelude::*;

verus! {

/// A builder of a metric id that starts from the key.
pub fn key(name: &str) -> (b: MetricIdBuilder)
    ensures
        b@ == (MetricIdView { key: Some(name@), ..MetricIdView::empty() }),
        sorted(b@.tags),
{
    MetricId::new_with_key(name)
}

} // verus!
