//! The contract of a source of external metrics.

use crate::pkg::labels::Selector;
use k8s_metrics::external_metrics::v1beta1::ExternalMetricValue;
use vstd::prelude::*;

verus! {

/// `k8s_metrics::external_metrics::v1beta1::ExternalMetricValue`, one value of
/// an external metric as the metrics API defines it. The type is only carried
/// through: nothing is claimed of what a value of it holds.
#[verifier::external_type_specification]
#[verifier::external_body]
#[verifier::reject_recursive_types(M)]
pub struct ExExternalMetricValue<M>(ExternalMetricValue<M>);

/// ExternalMetricInfo describes a metric.
#[derive(Debug)]
pub struct ExternalMetricInfo {
    pub metric: String,
}

/// ExternalMetricsProvider is a source of external metrics.
/// Metric is normally identified by a name and a set of labels/tags. It is up
/// to a specific implementation how to translate the metric selector to a
/// filter for metric values. Namespace can be used by the implementation for
/// metric identification, access control or ignored.
pub trait ExternalMetricsProvider {
    type Metric;

    type MetricSelector: Selector;

    type Err;

    /// Fetches the values of a metric that the selector lets through. That
    /// none does is no error: the list is then empty.
    fn get_external_metric(
        &self,
        namespace: &str,
        metric_selector: Self::MetricSelector,
        info: ExternalMetricInfo,
    ) -> Result<Vec<ExternalMetricValue<Self::Metric>>, Self::Err>;

    /// Lists all metrics that are available at the moment. There is no way
    /// for this to fail: an implementation that cannot list cheaply keeps a
    /// list and refreshes it on the side.
    fn list_all_external_metrics(&self) -> Vec<ExternalMetricInfo>;
}

} // verus!
