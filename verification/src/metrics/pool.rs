//! Connection pool metrics kept per host.
use vstd::prelude::*;
use super::types::{label_views, Counter};
use crate::text::copy_str;

verus! {

/// Pool metrics for one host.
#[derive(Debug, Clone)]
pub struct HostPoolMetrics {
    /// Host identifier.
    pub host: String,
    /// Connections created for this host.
    pub created: Counter,
    /// Connections destroyed for this host.
    pub destroyed: Counter,
    /// Checkouts for this host.
    pub checkouts: Counter,
    /// Checkins for this host.
    pub checkins: Counter,
    /// Health checks passed.
    pub health_passes: Counter,
    /// Health checks failed.
    pub health_failures: Counter,
}

/// A counter at zero, named `name`, labelled with the host alone.
pub open spec fn host_counter(c: Counter, name: Seq<char>, host: Seq<char>) -> bool {
    &&& c.fixed() == 0
    &&& c.name_view() == name
    &&& c.labels_view() == seq![("host"@, host)]
}

/// The labels `host=<host>`.
fn host_labels(host: &str) -> (r: Vec<(String, String)>)
    ensures
        label_views(r@) == seq![("host"@, host@)],
{
    let mut l: Vec<(String, String)> = Vec::new();
    l.push((copy_str("host"), copy_str(host)));
    proof {
        assert(label_views(l@) =~= seq![("host"@, host@)]);
    }
    l
}

impl HostPoolMetrics {
    /// Counters at zero for `host`, each labelled with it.
    pub fn new(host: &str) -> (m: HostPoolMetrics)
        ensures
            m.host@ == host@,
            host_counter(m.created, "rustible_host_pool_created_total"@, host@),
            host_counter(m.destroyed, "rustible_host_pool_destroyed_total"@, host@),
            host_counter(m.checkouts, "rustible_host_pool_checkouts_total"@, host@),
            host_counter(m.checkins, "rustible_host_pool_checkins_total"@, host@),
            host_counter(m.health_passes, "rustible_host_pool_health_passes_total"@, host@),
            host_counter(m.health_failures, "rustible_host_pool_health_failures_total"@, host@),
            m.created.help_view() == "Connections created per host"@,
            m.destroyed.help_view() == "Connections destroyed per host"@,
            m.checkouts.help_view() == "Connection checkouts per host"@,
            m.checkins.help_view() == "Connection checkins per host"@,
            m.health_passes.help_view() == "Health checks passed per host"@,
            m.health_failures.help_view() == "Health checks failed per host"@,
    {
        HostPoolMetrics {
            host: copy_str(host),
            created: Counter::with_labels(
                "rustible_host_pool_created_total",
                "Connections created per host",
                host_labels(host),
            ),
            destroyed: Counter::with_labels(
                "rustible_host_pool_destroyed_total",
                "Connections destroyed per host",
                host_labels(host),
            ),
            checkouts: Counter::with_labels(
                "rustible_host_pool_checkouts_total",
                "Connection checkouts per host",
                host_labels(host),
            ),
            checkins: Counter::with_labels(
                "rustible_host_pool_checkins_total",
                "Connection checkins per host",
                host_labels(host),
            ),
            health_passes: Counter::with_labels(
                "rustible_host_pool_health_passes_total",
                "Health checks passed per host",
                host_labels(host),
            ),
            health_failures: Counter::with_labels(
                "rustible_host_pool_health_failures_total",
                "Health checks failed per host",
                host_labels(host),
            ),
        }
    }

    /// The counts of the counters, in whole units, and the connections still
    /// checked out.
    pub fn snapshot(&self) -> (s: HostPoolMetricsSnapshot)
        ensures
            s.host == self.host,
            s.created == self.created.fixed() / 1000,
            s.destroyed == self.destroyed.fixed() / 1000,
            s.checkouts == self.checkouts.fixed() / 1000,
            s.checkins == self.checkins.fixed() / 1000,
            s.health_passes == self.health_passes.fixed() / 1000,
            s.health_failures == self.health_failures.fixed() / 1000,
            s.active == active_connections(self.checkouts.fixed(), self.checkins.fixed()),
    {
        let out = self.checkouts.fixed_value();
        let back = self.checkins.fixed_value();
        let active: i64 = if out >= back {
            ((out - back) / 1000) as i64
        } else {
            -(((back - out) / 1000) as i64)
        };
        HostPoolMetricsSnapshot {
            host: self.host.clone(),
            created: self.created.fixed_value() / 1000,
            destroyed: self.destroyed.fixed_value() / 1000,
            checkouts: out / 1000,
            checkins: back / 1000,
            health_passes: self.health_passes.fixed_value() / 1000,
            health_failures: self.health_failures.fixed_value() / 1000,
            active,
        }
    }
}

/// Checkouts less checkins, in whole units, rounded toward zero.
pub open spec fn active_connections(checkouts: u64, checkins: u64) -> int {
    if checkouts >= checkins {
        (checkouts - checkins) / 1000
    } else {
        -((checkins - checkouts) / 1000)
    }
}

/// A snapshot of one host's pool metrics.
#[derive(Debug, Clone)]
pub struct HostPoolMetricsSnapshot {
    /// Host identifier.
    pub host: String,
    /// Connections created.
    pub created: u64,
    /// Connections destroyed.
    pub destroyed: u64,
    /// Total checkouts.
    pub checkouts: u64,
    /// Total checkins.
    pub checkins: u64,
    /// Health checks passed.
    pub health_passes: u64,
    /// Health checks failed.
    pub health_failures: u64,
    /// Connections checked out now.
    pub active: i64,
}

} // verus!
