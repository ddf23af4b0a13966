//! A registry of named metrics.
//!
//! Code that measures asks the registry for an instrument by name and gets a handle to
//! it; the first request for a name makes the instrument, and every later request gets
//! a handle to the same one. Code that reports asks the registry for a snapshot: a map
//! from names to handles, made of the instruments that the registry keeps and of what
//! the registered metrics sets produce at that moment, less what the filter rejects.
//!
//! - [`metrics`]: the five kinds of instrument, and [`Metric`], a handle to one of them.
//! - [`names`]: [`NameMap`], the map from names that the registry is made of.
//! - [`filter`] and [`mset`]: what users implement to filter and to add to snapshots.
//! - [`snapshot`]: how layers of metrics are folded into one snapshot.
//! - [`registry`]: [`MetricsRegistry`], owned by one holder, and what it holds as
//!   mathematics.
//! - [`shared`]: [`SharedRegistry`], one registry for many threads.
//! - [`laws`]: what holds of any sequence of requests.

pub mod filter;
pub mod laws;
pub mod metrics;
pub mod mset;
pub mod names;
pub mod registry;
pub mod shared;
pub mod snapshot;

pub use filter::MetricsFilter;
pub use metrics::Counter;
pub use metrics::Gauge;
pub use metrics::GaugeFn;
pub use metrics::Histogram;
pub use metrics::Meter;
pub use metrics::Metric;
pub use metrics::MetricKind;
pub use metrics::Timer;
pub use mset::MetricsSet;
pub use mset::SetHandle;
pub use names::NameMap;
pub use registry::MetricsRegistry;
pub use registry::RegistryError;
pub use registry::RegistryState;
pub use shared::SharedRegistry;
