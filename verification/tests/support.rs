use sha2::Digest;
use rustible::lockfile::{
    check_resource, check_resource_digest, compute_hash, verify_playbook_hash, verify_resources, FileFound,
    LockedResource,
    LockfileError, LockfileMetadata, ResourceType,
};
use rustible::metrics::collector::{HealthStatus, MetricsConfig};
use rustible::metrics::command::CommandTimer;
use rustible::metrics::connection::ConnectionTimer;
use rustible::metrics::pool::HostPoolMetrics;
use rustible::metrics::types::{Counter, Gauge};
use rustible::task_files::{path_within, TaskIncluder};
use rustible::{version, VersionInfo};

#[test]
fn counter_counts_in_thousandths() {
    let mut c = Counter::new("requests_total", "Requests");
    c.inc();
    c.inc();
    c.inc_by_fixed(500);
    assert_eq!(c.fixed_value(), 2500);
    assert_eq!(c.name(), "requests_total");
    assert_eq!(c.help(), "Requests");
    c.reset();
    assert_eq!(c.fixed_value(), 0);
    let labelled = Counter::with_labels("x", "y", vec![("k".to_string(), "v".to_string())]);
    assert_eq!(labelled.labels().len(), 1);
}

#[test]
fn gauge_goes_below_zero() {
    let mut g = Gauge::new("connections", "Open connections");
    g.inc();
    g.dec();
    g.dec();
    assert_eq!(g.fixed_value(), 1000);
    assert!(g.negative());
    g.inc_by_fixed(1500);
    assert_eq!(g.fixed_value(), 500);
    assert!(!g.negative());
    g.dec_by_fixed(2000);
    assert_eq!(g.fixed_value(), 1500);
    assert!(g.negative());
    g.set_fixed(5000, true);
    g.dec();
    assert_eq!((g.fixed_value(), g.negative()), (6000, true));
    g.inc();
    g.inc();
    assert_eq!((g.fixed_value(), g.negative()), (4000, true));
}

#[test]
fn host_pool_snapshot_counts_whole_units() {
    let mut m = HostPoolMetrics::new("web1");
    m.checkouts.inc();
    m.checkouts.inc();
    m.checkins.inc();
    m.created.inc();
    let s = m.snapshot();
    assert_eq!(s.host, "web1");
    assert_eq!(s.checkouts, 2);
    assert_eq!(s.checkins, 1);
    assert_eq!(s.created, 1);
    assert_eq!(s.active, 1);
    assert_eq!(m.created.name(), "rustible_host_pool_created_total");
    assert_eq!(m.created.labels(), &vec![("host".to_string(), "web1".to_string())]);
    let mut back = HostPoolMetrics::new("h");
    back.checkins.inc();
    assert_eq!(back.snapshot().active, -1);
}

#[test]
fn timers_keep_their_subject() {
    let t = CommandTimer::new("h".to_string(), "ping".to_string());
    assert_eq!(t.host, "h");
    assert_eq!(t.module, "ping");
    let _ = t.elapsed();
    let c = ConnectionTimer::new("db".to_string());
    assert_eq!(c.host, "db");
    let _ = c.elapsed();
}

#[test]
fn metrics_config_defaults() {
    let c = MetricsConfig::default();
    assert!(c.enabled);
    assert_eq!(c.prefix, "rustible");
    assert_eq!(c.collection_interval.as_secs(), 15);
    assert_eq!(c.max_tracked_hosts, 1000);
    assert_eq!(c.max_tracked_modules, 100);
    assert_eq!(HealthStatus::Degraded.as_str(), "degraded");
}

#[test]
fn lockfile_hash_is_sha256_hex() {
    assert_eq!(
        compute_hash("abc"),
        "ba7816bf8f01cfea414140de5dae2223b00361a396177a9cb410ff61f20015ad"
    );
    assert!(verify_playbook_hash(&compute_hash("x"), "x").is_ok());
    assert_eq!(verify_playbook_hash("00", "x").unwrap_err(), LockfileError::Outdated);
}

#[test]
fn lockfile_integrity_rules() {
    assert!(verify_resources(1, 0, &[], &[]).is_err());
    let file = LockedResource {
        name: "f".to_string(),
        resource_type: ResourceType::File,
        location: "/f".to_string(),
        checksum: Some("ABC".to_string()),
        git_ref: None,
    };
    let git = LockedResource { resource_type: ResourceType::Git, ..file.clone() };
    assert_eq!(
        verify_resources(0, 0, &[git.clone()], &[FileFound::Special]).unwrap_err(),
        LockfileError::ResolutionFailed("Integrity verification for Git resource 'f' is not supported".to_string())
    );
    assert!(check_resource_digest(&file, "abc".to_string()).is_ok());
    assert_eq!(
        check_resource_digest(&file, "abd".to_string()).unwrap_err(),
        LockfileError::IntegrityFailed { name: "f".to_string(), expected: "ABC".to_string(), actual: "abd".to_string() }
    );
    assert!(LockfileMetadata::default().is_empty());
}

#[test]
fn integrity_is_checked_resource_by_resource() {
    let good = LockedResource {
        name: "good".to_string(),
        resource_type: ResourceType::File,
        location: "/good".to_string(),
        checksum: Some(compute_hash("expected").to_uppercase()),
        git_ref: None,
    };
    let bad = LockedResource { name: "bad".to_string(), ..good.clone() };
    let git = LockedResource { name: "git".to_string(), resource_type: ResourceType::Git, ..good.clone() };
    let expected = FileFound::Regular(b"expected".to_vec());
    let modified = FileFound::Regular(b"modified".to_vec());
    assert!(check_resource(&good, &expected).is_ok());
    assert_eq!(
        check_resource(&good, &modified).unwrap_err(),
        LockfileError::IntegrityFailed {
            name: "good".to_string(),
            expected: compute_hash("expected").to_uppercase(),
            actual: compute_hash("modified"),
        }
    );
    assert_eq!(
        check_resource(&good, &FileFound::Special).unwrap_err(),
        LockfileError::ResolutionFailed(
            "Integrity verification requires a regular local file for resource 'good'".to_string()
        )
    );
    assert_eq!(
        check_resource(&good, &FileFound::Unreadable("gone".to_string())).unwrap_err(),
        LockfileError::Io("gone".to_string())
    );
    // A digest mismatch before an unverifiable resource is what is reported.
    assert!(matches!(
        verify_resources(0, 0, &[good.clone(), bad, git.clone()], &[expected.clone(), modified, FileFound::Special]),
        Err(LockfileError::IntegrityFailed { .. })
    ));
    assert!(matches!(
        verify_resources(0, 0, &[good.clone(), git], &[expected.clone(), FileFound::Special]),
        Err(LockfileError::ResolutionFailed(_))
    ));
    assert!(verify_resources(0, 0, &[good.clone(), good], &[expected.clone(), expected]).is_ok());
}

#[test]
fn included_paths_stay_under_base() {
    let inc = TaskIncluder::new("/play");
    assert_eq!(inc.candidate_path("tasks/a.yml"), "/play/tasks/a.yml");
    assert_eq!(inc.candidate_path("/etc/x.yml"), "/etc/x.yml");
    assert!(inc.check_within_base("a.yml", "/play/a.yml", "/play").is_ok());
    let err = inc.check_within_base("../x", "/playground/x", "/play").unwrap_err();
    assert_eq!(err.requested_path, "../x");
    assert_eq!(
        err.message(),
        "Path traversal detected: '../x' escapes base directory '/play'"
    );
    assert!(path_within("/a/./b//c", "/a/b"));
    assert!(!path_within("a/b", "/a"));
}

#[test]
fn version_is_reported() {
    assert_eq!(version(), "0.1.0");
    let info = VersionInfo { version: "1.0", rust_version: "1.70", target: "x86_64", profile: "release" };
    assert_eq!(info.describe(), "rustible 1.0 (x86_64, release)");
}

#[test]
fn test_diligence_integrity_rejects_missing_or_modified_local_file() {
    let resource = LockedResource {
        name: "local-fixture".into(),
        resource_type: ResourceType::File,
        location: "/tmp/resource".into(),
        checksum: Some(compute_hash("expected")),
        git_ref: None,
    };
    let resources = [resource];
    let missing = FileFound::Unreadable("No such file or directory".to_string());
    assert!(verify_resources(0, 0, &resources, &[missing]).is_err());
    let modified = FileFound::Regular(b"modified".to_vec());
    assert!(verify_resources(0, 0, &resources, &[modified]).is_err());
    let expected = FileFound::Regular(b"expected".to_vec());
    assert!(verify_resources(0, 0, &resources, &[expected]).is_ok());
}

#[test]
fn test_diligence_integrity_hashes_multiple_chunks() {
    let bytes: Vec<u8> = (0..(9 * 8192 + 3)).map(|index| (index % 251) as u8).collect();
    let resource = LockedResource {
        name: "multiple-chunks".into(),
        resource_type: ResourceType::File,
        location: "/tmp/resource".into(),
        checksum: Some(format!("{:x}", sha2::Sha256::digest(&bytes))),
        git_ref: None,
    };
    assert!(verify_resources(0, 0, &[resource], &[FileFound::Regular(bytes)]).is_ok());
}

#[test]
fn test_diligence_integrity_fifo_child() {
    let resource = LockedResource {
        name: "private-fifo".into(),
        resource_type: ResourceType::File,
        location: "/tmp/fifo".into(),
        checksum: Some(compute_hash("")),
        git_ref: None,
    };
    assert!(matches!(
        verify_resources(0, 0, &[resource], &[FileFound::Special]),
        Err(LockfileError::ResolutionFailed(_))
    ));
}
