//! Host resource monitoring: snapshot model, threshold evaluation, rolling-window
//! anomaly detection, alert delivery decisions and the per-tick sampling step.
//!
//! Percentages are fixed-point integers in hundredths of a percent
//! (`10000` stands for `100.00%`), so every comparison below is exact.

pub mod snapshot;
pub mod series;
pub mod anomaly;
pub mod alerts;
pub mod sampler;
pub mod ranking;
pub mod text;

pub use snapshot::{percent_centi, Metric, MetricsSnapshot, ProcessInfo, TopN};
pub use series::RollingSeries;
pub use anomaly::{AnomalyDetector, MAX_WINDOW};
pub use alerts::AlertSink;
pub use sampler::{tick, Limits, TickOutcome};
pub use ranking::top_processes;
