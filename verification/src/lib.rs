//! Label selection and the provider contracts of a metrics aggregation layer.
//!
//! The selection algebra lives under [`pkg`]: operators, validated
//! requirements, label sets and selectors, each with a mathematical model and
//! contracts stated over it. The provider contracts say what a backend of
//! custom or external metrics has to offer.

pub use custom::CustomMetricInfo;
pub use custom::CustomMetricsProvider;
pub use external::ExternalMetricInfo;
pub use external::ExternalMetricsProvider;

mod custom;
mod external;
pub mod pkg;
