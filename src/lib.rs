//! Evaluation of Prometheus metric samples and alert records against
//! declarative threshold and matching rules.
//!
//! - [`bound`]: threshold predicates on one reading, or on a pair of readings
//!   for rates of change.
//! - [`element`]: the per-endpoint engine that applies bounds to a scrape and
//!   remembers the samples that rate bounds compare against.
//! - [`alert`]: matching of alert records against names and labels.
//! - [`config_file`]: how configured rules become bounds and filters.

pub mod alert;
pub mod bound;
pub mod config_file;
pub mod element;
pub mod endpoint;
pub mod error;
mod table;

pub use alert::{Alert, AlertChecker, AlertFilter};
pub use bound::{Bound, HistogramCount, MetricValue};
pub use element::{ElementHealth, Filter, Sample};
pub use error::AgentError;
