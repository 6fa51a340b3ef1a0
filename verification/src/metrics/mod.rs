//! Metrics: counters and gauges, per-host pool metrics, timers and the
//! collector's configuration.
pub mod collector;
pub mod command;
pub mod connection;
pub mod pool;
pub mod clock;
pub mod types;
