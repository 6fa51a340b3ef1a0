use rustible::modules::copy::{backup_path, copy_actions, CopyAction, CopyOutcome};
use rustible::modules::command::CommandStep;
use rustible::lockfile::{
    compute_hash, verify_resources, DependencySource, LockedCollection, LockedResource, LockedRole, Lockfile,
    LockfileError, ResourceType,
};
use rustible::metrics::types::{Counter, Gauge};
use rustible::modules::command::CommandModule;
use rustible::modules::fetch::FetchModule;
use rustible::modules::git::GitModule;
use rustible::modules::python::PythonModuleExecutor;
use rustible::modules::replace::ReplaceModule;
use rustible::modules::ModuleError;

fn strings(v: &[&str]) -> Vec<String> {
    v.iter().map(|s| s.to_string()).collect()
}

#[test]
fn test_destination_uses_ansible_layout() {
    let path = FetchModule::destination("/backup", "web1", "/etc/hosts", false, false);
    assert_eq!(path, "/backup/web1/etc/hosts");
}

#[test]
fn test_flat_destination_keeps_the_given_path() {
    let path = FetchModule::destination("/backup/hosts.txt", "web1", "/etc/hosts", true, false);
    assert_eq!(path, "/backup/hosts.txt");
}

#[test]
fn test_flat_destination_directory_keeps_the_file_name() {
    let path = FetchModule::destination("/backup/", "web1", "/etc/hosts", true, false);
    assert_eq!(path, "/backup/hosts");
}

#[test]
fn flat_destination_into_a_directory_and_nameless_sources() {
    assert_eq!(FetchModule::destination("/backup", "web1", "/etc/hosts", true, true), "/backup/hosts");
    assert_eq!(FetchModule::destination("/backup/", "web1", "/", true, false), "/backup/fetched");
    assert_eq!(FetchModule::destination("out", "h", "rel/file", false, false), "out/h/rel/file");
}

#[test]
fn test_git_module_validate_params() {
    assert!(GitModule::validate_params(false, true, None).is_err());
    assert!(GitModule::validate_params(true, false, None).is_err());
    assert!(GitModule::validate_params(true, true, None).is_ok());
}

#[test]
fn test_git_module_validate_depth() {
    assert_eq!(
        GitModule::validate_params(true, true, Some(0)),
        Err(ModuleError::InvalidParameter("depth must be greater than 0".to_string()))
    );
    assert!(GitModule::validate_params(true, true, Some(1)).is_ok());
    assert_eq!(GitModule::validate_params(false, false, Some(0)), Err(ModuleError::MissingParameter("repo".to_string())));
}

#[test]
fn test_invalid_regexp_is_reported() {
    let error = ReplaceModule::validate_params("[").unwrap_err();
    assert!(matches!(&error, ModuleError::InvalidParameter(m) if m.contains("Invalid regexp")));
    assert!(ReplaceModule::validate_params("a+b").is_ok());
}

fn outcome(stdout: &str) -> Result<(bool, String), ModuleError> {
    let payload = PythonModuleExecutor::json_payload(stdout);
    let doc: serde_json::Value = serde_json::from_str(&payload).unwrap();
    PythonModuleExecutor::result_outcome(
        doc.get("failed").and_then(|v| v.as_bool()).unwrap_or(false),
        doc.get("changed").and_then(|v| v.as_bool()).unwrap_or(false),
        doc.get("msg").and_then(|v| v.as_str()),
        "apt",
    )
}

#[test]
fn test_parse_success_result() {
    let (changed, msg) = outcome(r#"{"changed": true, "msg": "Package installed"}"#).unwrap();
    assert!(changed);
    assert!(msg.contains("Package installed"));
}

#[test]
fn test_parse_failed_result() {
    let err = outcome(r#"{"failed": true, "msg": "Permission denied"}"#).unwrap_err();
    assert!(matches!(err, ModuleError::ExecutionFailed(_)));
}

#[test]
fn module_results_are_read() {
    assert_eq!(PythonModuleExecutor::json_payload("  warning: x\n{\"a\": 1}\n"), "{\"a\": 1}");
    assert_eq!(PythonModuleExecutor::json_payload(" plain "), "plain");
    assert_eq!(
        PythonModuleExecutor::result_outcome(false, false, None, "ping"),
        Ok((false, "Module ping executed successfully".to_string()))
    );
    assert_eq!(
        PythonModuleExecutor::result_outcome(true, false, None, "ping"),
        Err(ModuleError::ExecutionFailed("Module failed".to_string()))
    );
    assert_eq!(
        PythonModuleExecutor::unreadable_result(-2, " boom \n", "ping", "eof", "x"),
        ModuleError::ExecutionFailed("Module ping failed with exit code -2: boom".to_string())
    );
    assert_eq!(
        PythonModuleExecutor::unreadable_result(0, "", "ping", "eof", " x "),
        ModuleError::ExecutionFailed("Failed to parse module ping output as JSON: eof. Output: x".to_string())
    );
    assert!(PythonModuleExecutor::is_reserved_key("msg"));
    assert!(!PythonModuleExecutor::is_reserved_key("stdout"));
}

#[test]
fn quoted_words_and_empty_arguments_are_preserved() {
    for raw in [false, true] {
        let text = "synthetic-command 'two words' \"\" tail";
        let words = if raw {
            CommandModule::command_words(None, Some(text), None)
        } else {
            CommandModule::command_words(Some(text), None, None)
        }
        .unwrap();
        assert_eq!(words[0], "synthetic-command");
        assert_eq!(words[1..].to_vec(), strings(&["two words", "", "tail"]));
    }
}

#[test]
fn argv_precedes_freeform_and_preserves_literal_values() {
    let argv = strings(&["synthetic-command", "", "two words", "$literal"]);
    let words = CommandModule::command_words(Some("unused 'unterminated"), None, Some(&argv)).unwrap();
    assert_eq!(words[0], "synthetic-command");
    assert_eq!(words[1..].to_vec(), strings(&["", "two words", "$literal"]));
}

#[test]
fn malformed_quotes_and_empty_programs_are_rejected() {
    for cmd in [
        "synthetic-command 'unfinished",
        "synthetic-command \"unfinished",
        "'' argument",
        "\"\" argument",
        " ",
    ] {
        assert!(CommandModule::command_words(Some(cmd), None, None).is_err(), "{cmd:?}");
    }
    let argv = strings(&["", "argument"]);
    assert!(CommandModule::command_words(Some("synthetic-command"), None, Some(&argv)).is_err());
    assert!(CommandModule::command_words(None, None, Some(&[])).is_err());
    assert!(CommandModule::command_words(None, None, None).is_err());
}

#[test]
fn guards_and_working_directories() {
    assert_eq!(CommandModule::working_directory(Some("/a"), Some("/b")), Some("/a".to_string()));
    assert_eq!(CommandModule::working_directory(None, Some("/b")), Some("/b".to_string()));
    assert_eq!(CommandModule::guard_location("guard", Some("/tmp/x")), "/tmp/x/guard");
    assert_eq!(CommandModule::guard_location("/abs/guard", Some("/tmp/x")), "/abs/guard");
    assert_eq!(CommandModule::guard_location("guard", None), "guard");
    assert_eq!(CommandModule::skip_reason(Some("f"), true, None, false), Some("Skipped, 'f' exists".to_string()));
    assert_eq!(CommandModule::skip_reason(None, false, Some("g"), false), Some("Skipped, 'g' does not exist".to_string()));
    assert_eq!(CommandModule::skip_reason(Some("f"), false, Some("g"), true), None);
}

#[test]
fn test_compute_hash() {
    let hash1 = compute_hash("hello world");
    let hash2 = compute_hash("hello world");
    let hash3 = compute_hash("different content");
    assert_eq!(hash1, hash2);
    assert_ne!(hash1, hash3);
    assert_eq!(hash1.len(), 64);
    assert_eq!(hash1, "b94d27b9934d3e08a52e52d7da7dabfac484efe37a5380ee9088f7ace2efcde9");
}

#[test]
fn test_diligence_integrity_rejects_unverified_dependencies() {
    let mut lockfile = Lockfile::new("playbook.yml", "- hosts: all", 0, "0.1.0");
    assert!(lockfile.verify_integrity(&[]).is_ok());
    lockfile.add_role(
        LockedRole {
            name: "test.role".into(),
            version: "1.0.0".into(),
            source: DependencySource::Galaxy { server: None },
            checksum: "not-verified".into(),
            dependencies: Vec::new(),
        },
        1,
    );
    assert!(lockfile.verify_integrity(&[]).is_err());
    assert!(verify_resources(0, 0, &[], &[]).is_ok());
    assert!(verify_resources(1, 0, &[], &[]).is_err());
}

#[test]
fn test_counter_basic() {
    let mut counter = Counter::new("test_counter", "A test counter");
    assert_eq!(counter.fixed_value() as f64 / 1000.0, 0.0);
    counter.inc();
    assert_eq!(counter.fixed_value() as f64 / 1000.0, 1.0);
    counter.inc_by_fixed(2500);
    assert!((counter.fixed_value() as f64 / 1000.0 - 3.5).abs() < 0.01);
}

#[test]
fn test_gauge_basic() {
    let mut gauge = Gauge::new("test_gauge", "A test gauge");
    assert_eq!(gauge.fixed_value(), 0);
    gauge.set_fixed(10_000, false);
    assert_eq!(gauge.fixed_value(), 10_000);
    gauge.inc();
    assert_eq!(gauge.fixed_value(), 11_000);
    gauge.dec();
    assert_eq!(gauge.fixed_value(), 10_000);
    assert!(!gauge.negative());
}

#[test]
fn fetched_bytes_are_digested() {
    assert_eq!(
        FetchModule::checksum(b"hello world"),
        "b94d27b9934d3e08a52e52d7da7dabfac484efe37a5380ee9088f7ace2efcde9"
    );
}

#[test]
fn check_mode_copies_take_no_steps() {
    for outcome in [CopyOutcome::Copy, CopyOutcome::PermissionsOnly, CopyOutcome::UpToDate] {
        assert!(copy_actions(outcome, true, true, true, false, Some(0o644)).is_empty());
    }
    assert_eq!(
        copy_actions(CopyOutcome::Copy, false, true, true, false, Some(0o600)),
        vec![CopyAction::Backup, CopyAction::CreateParent, CopyAction::Write, CopyAction::EnsureMode(0o600)]
    );
    assert_eq!(copy_actions(CopyOutcome::Copy, false, true, false, true, None), vec![CopyAction::Write]);
    assert_eq!(copy_actions(CopyOutcome::PermissionsOnly, false, false, true, true, Some(0o600)), vec![CopyAction::EnsureMode(0o600)]);
    assert!(copy_actions(CopyOutcome::UpToDate, false, true, true, true, Some(0o600)).is_empty());
    assert_eq!(backup_path("/etc/x", "~"), "/etc/x~");
}

#[test]
fn command_steps() {
    assert!(matches!(CommandModule::command_step(Some("s".to_string()), true, "ls"), CommandStep::Skip(m) if m == "s"));
    assert!(matches!(CommandModule::command_step(None, true, "ls"), CommandStep::Report(m) if m == "Would execute: ls"));
    assert!(matches!(CommandModule::command_step(None, false, "ls"), CommandStep::Run));
}

#[test]
fn shell_escape_gives_one_word() {
    assert_eq!(rustible::modules::apt::shell_escape("g++"), "g++");
    assert_eq!(rustible::modules::apt::shell_escape("it's here"), "'it'\\''s here'");
    assert_eq!(rustible::modules::apt::shell_escape("$(rm -rf /)"), "'$(rm -rf /)'");
}

#[test]
fn test_lockfile_creation() {
    let lockfile = Lockfile::new("playbook.yml", "- hosts: all\n  tasks: []", 1700000000, "0.1.0");
    assert!(!lockfile.playbook_hash.is_empty());
    assert_eq!(lockfile.version, 1);
    assert!(lockfile.is_empty());
    assert_eq!(lockfile.len(), 0);
}

#[test]
fn test_lockfile_verify_playbook() {
    let lockfile = Lockfile::new("playbook.yml", "- hosts: all", 0, "0.1.0");
    assert!(lockfile.verify_playbook("- hosts: all").is_ok());
    assert!(matches!(lockfile.verify_playbook("- hosts: webservers"), Err(LockfileError::Outdated)));
}

fn role(name: &str, version: &str) -> LockedRole {
    LockedRole {
        name: name.to_string(),
        version: version.to_string(),
        source: DependencySource::Galaxy { server: None },
        checksum: "abc123".to_string(),
        dependencies: vec![],
    }
}

#[test]
fn lockfile_keeps_entries_by_name() {
    let mut lockfile = Lockfile::new("playbook.yml", "- hosts: all", 0, "0.1.0");
    lockfile.add_role(role("geerlingguy.nginx", "3.1.0"), 5);
    lockfile.add_role(role("alpha.role", "1.0.0"), 6);
    lockfile.add_role(role("geerlingguy.nginx", "3.2.0"), 7);
    assert_eq!(lockfile.updated_at, 7);
    assert_eq!(lockfile.created_at, 0);
    let names: Vec<&str> = lockfile.roles.iter().map(|r| r.name.as_str()).collect();
    assert_eq!(names, vec!["alpha.role", "geerlingguy.nginx"]);
    assert_eq!(lockfile.get_role("geerlingguy.nginx").unwrap().version, "3.2.0");
    assert!(lockfile.get_role("missing").is_none());
    lockfile.add_collection(
        LockedCollection {
            name: "community.general".to_string(),
            version: "8.0.0".to_string(),
            source: DependencySource::Galaxy { server: None },
            checksum: "def456".to_string(),
            dependencies: vec![],
        },
        8,
    );
    assert_eq!(lockfile.get_collection("community.general").unwrap().version, "8.0.0");
    assert_eq!(lockfile.len(), 3);
    assert!(!lockfile.is_empty());
}

#[test]
fn lockfile_checks_resources_in_name_order() {
    let mut lockfile = Lockfile::new("playbook.yml", "- hosts: all", 0, "0.1.0");
    let file = |name: &str, content: &str| LockedResource {
        name: name.to_string(),
        resource_type: ResourceType::File,
        location: format!("/{}", name),
        checksum: Some(compute_hash(content)),
        git_ref: None,
    };
    lockfile.add_resource(file("zeta", "z"), 1);
    lockfile.add_resource(file("beta", "b"), 2);
    let names: Vec<&str> = lockfile.resources().iter().map(|r| r.name.as_str()).collect();
    assert_eq!(names, vec!["beta", "zeta"]);
    let found = [
        rustible::lockfile::FileFound::Regular(b"wrong".to_vec()),
        rustible::lockfile::FileFound::Special,
    ];
    assert!(matches!(
        lockfile.verify_integrity(&found),
        Err(LockfileError::IntegrityFailed { name, .. }) if name == "beta"
    ));
}

#[test]
fn copy_refuses_read_only_destination_without_force() {
    use_write_permission();
}

fn use_write_permission() {
    assert_eq!(
        rustible::modules::copy::write_permission(true, true, true, false, "/etc/motd").unwrap_err(),
        rustible::modules::ModuleError::PermissionDenied(
            "Destination '/etc/motd' is read-only and force is not set".to_string()
        )
    );
    assert!(rustible::modules::copy::write_permission(true, true, true, true, "/etc/motd").is_ok());
    assert!(rustible::modules::copy::write_permission(false, true, true, false, "/etc/motd").is_ok());
}

#[test]
fn lockfile_updates_playbook_hash() {
    let mut lockfile = Lockfile::new("playbook.yml", "- hosts: all", 0, "0.1.0");
    lockfile.update_playbook_hash("- hosts: web", 9);
    assert!(lockfile.verify_playbook("- hosts: web").is_ok());
    assert!(lockfile.verify_playbook("- hosts: all").is_err());
    assert_eq!(lockfile.updated_at, 9);
}
