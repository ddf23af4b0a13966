use crate::metrics::Metric;
use vstd::prelude::*;

verus! {

/// Decides which metrics a snapshot shows.
pub trait MetricsFilter: Send + Sync {
    /// Whether the metric `metric`, known as `name`, is to be shown.
    fn accept(&self, name: &str, metric: &Metric) -> bool;
}

/// Whether `verdict` is what the filter `filter` may say of the metric `metric`, known as
/// `name`, when it is asked.
pub open spec fn says<F: MetricsFilter + ?Sized>(
    filter: &F,
    name: &str,
    metric: &Metric,
    verdict: bool,
) -> bool {
    call_ensures(F::accept, (filter, name, metric), verdict)
}

} // verus!
