//! The collector's configuration and its health verdicts.
use vstd::prelude::*;
use std::time::Duration;
use super::clock::duration_from_secs;
use crate::text::copy_str;

verus! {

/// Configuration for metrics collection.
#[derive(Debug, Clone)]
pub struct MetricsConfig {
    /// Whether metrics collection is enabled.
    pub enabled: bool,
    /// Prefix for all metric names.
    pub prefix: String,
    /// Labels added to all metrics.
    pub global_labels: Vec<(String, String)>,
    /// How often to collect metrics in the background.
    pub collection_interval: Duration,
    /// Whether per-host metrics are kept.
    pub per_host_metrics: bool,
    /// Whether per-module metrics are kept.
    pub per_module_metrics: bool,
    /// Maximum number of hosts tracked one by one.
    pub max_tracked_hosts: usize,
    /// Maximum number of modules tracked one by one.
    pub max_tracked_modules: usize,
}

impl Default for MetricsConfig {
    /// Enabled, prefixed `rustible`, collecting every fifteen seconds, per host
    /// and per module, for up to a thousand hosts and a hundred modules.
    fn default() -> (c: Self)
        ensures
            c.enabled,
            c.prefix@ == "rustible"@,
            c.global_labels@.len() == 0,
            c.per_host_metrics,
            c.per_module_metrics,
            c.max_tracked_hosts == 1000,
            c.max_tracked_modules == 100,
    {
        MetricsConfig {
            enabled: true,
            prefix: copy_str("rustible"),
            global_labels: Vec::new(),
            collection_interval: duration_from_secs(15),
            per_host_metrics: true,
            per_module_metrics: true,
            max_tracked_hosts: 1000,
            max_tracked_modules: 100,
        }
    }
}

/// Overall health.
#[derive(Debug, Clone, Copy, PartialEq, Eq, Structural)]
pub enum HealthStatus {
    /// All systems operating normally.
    Healthy,
    /// Some issues but still operational.
    Degraded,
    /// Significant issues affecting operation.
    Unhealthy,
}

impl HealthStatus {
    /// The lowercase name by which the status is displayed.
    pub fn as_str(&self) -> (r: &'static str)
        ensures
            r@ == match self {
                HealthStatus::Healthy => "healthy"@,
                HealthStatus::Degraded => "degraded"@,
                HealthStatus::Unhealthy => "unhealthy"@,
            },
    {
        match self {
            HealthStatus::Healthy => "healthy",
            HealthStatus::Degraded => "degraded",
            HealthStatus::Unhealthy => "unhealthy",
        }
    }
}

} // verus!
