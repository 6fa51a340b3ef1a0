use rustible::modules::apt::{self, AptModule, AptState};
use rustible::modules::dnf::{self, DnfModule, DnfState};
use rustible::modules::packages::{next_stage, PackagePlan, RunEvent, RunStage};
use rustible::modules::pip::{PipModule, PipState};
use rustible::modules::{ModuleClassification, ModuleError, ParallelizationHint};

#[test]
fn test_apt_state_from_str() {
    assert_eq!(AptState::from_str("present").unwrap(), AptState::Present);
    assert_eq!(AptState::from_str("installed").unwrap(), AptState::Present);
    assert_eq!(AptState::from_str("absent").unwrap(), AptState::Absent);
    assert_eq!(AptState::from_str("removed").unwrap(), AptState::Absent);
    assert_eq!(AptState::from_str("latest").unwrap(), AptState::Latest);
    assert!(AptState::from_str("invalid").is_err());
}

#[test]
fn test_apt_module_name() {
    let module = AptModule;
    assert_eq!(module.name(), "apt");
}

#[test]
fn test_apt_module_classification() {
    let module = AptModule;
    assert_eq!(module.classification(), ModuleClassification::RemoteCommand);
}

#[test]
fn test_apt_module_parallelization() {
    let module = AptModule;
    assert_eq!(
        module.parallelization_hint(),
        ParallelizationHint::HostExclusive
    );
}

#[test]
fn test_apt_module_required_params() {
    let module = AptModule;
    assert_eq!(module.required_params(), &["name"]);
}

#[test]
fn apt_test_shell_escape() {
    assert_eq!(apt::shell_escape("simple"), "simple");
    assert_eq!(apt::shell_escape("nginx"), "nginx");
    assert_eq!(apt::shell_escape("with space"), "'with space'");
    assert_eq!(apt::shell_escape("with'quote"), "'with'\\''quote'");
    assert_eq!(apt::shell_escape("pkg; rm -rf /"), "'pkg; rm -rf /'");
    assert_eq!(apt::shell_escape("$(whoami)"), "'$(whoami)'");
    assert_eq!(apt::shell_escape("`id`"), "'`id`'");
}

#[test]
fn dnf_test_shell_escape() {
    assert_eq!(dnf::shell_escape("simple"), "simple");
    assert_eq!(dnf::shell_escape("nginx"), "nginx");
    assert_eq!(dnf::shell_escape("with space"), "'with space'");
    assert_eq!(dnf::shell_escape("with'quote"), "'with'\\''quote'");
    assert_eq!(dnf::shell_escape("pkg; rm -rf /"), "'pkg; rm -rf /'");
    assert_eq!(dnf::shell_escape("$(malicious)"), "'$(malicious)'");
    assert_eq!(dnf::shell_escape("`cmd`"), "'`cmd`'");
}

#[test]
fn test_dnf_state_from_str() {
    assert_eq!(DnfState::from_str("present").unwrap(), DnfState::Present);
    assert_eq!(DnfState::from_str("installed").unwrap(), DnfState::Present);
    assert_eq!(DnfState::from_str("absent").unwrap(), DnfState::Absent);
    assert_eq!(DnfState::from_str("removed").unwrap(), DnfState::Absent);
    assert_eq!(DnfState::from_str("latest").unwrap(), DnfState::Latest);
    assert!(DnfState::from_str("invalid").is_err());
}

#[test]
fn test_dnf_module_name() {
    let module = DnfModule;
    assert_eq!(module.name(), "dnf");
}

#[test]
fn test_dnf_module_classification() {
    let module = DnfModule;
    assert_eq!(module.classification(), ModuleClassification::RemoteCommand);
}

#[test]
fn test_dnf_module_parallelization_hint() {
    let module = DnfModule;
    assert_eq!(
        module.parallelization_hint(),
        ParallelizationHint::HostExclusive
    );
}

#[test]
fn test_dnf_module_required_params() {
    let module = DnfModule;
    assert_eq!(module.required_params(), &["name"]);
}

#[test]
fn test_pip_state_from_str() {
    assert_eq!(PipState::from_str("present").unwrap(), PipState::Present);
    assert_eq!(PipState::from_str("installed").unwrap(), PipState::Present);
    assert_eq!(PipState::from_str("absent").unwrap(), PipState::Absent);
    assert_eq!(PipState::from_str("removed").unwrap(), PipState::Absent);
    assert_eq!(PipState::from_str("latest").unwrap(), PipState::Latest);
    assert!(PipState::from_str("invalid").is_err());
}

#[test]
fn test_build_pip_command() {
    assert_eq!(PipModule::pip_command(None, None), "pip3");
    assert_eq!(PipModule::pip_command(Some("pip"), None), "pip");
    assert_eq!(
        PipModule::pip_command(Some("pip"), Some("/path/to/venv")),
        "/path/to/venv/bin/pip"
    );
}

#[test]
fn test_validate_params() {
    assert!(PipModule::validate_params(false, false).is_err());
    assert!(PipModule::validate_params(true, false).is_ok());
    assert!(PipModule::validate_params(false, true).is_ok());
}

#[test]
fn state_names_ignore_case_and_report_the_input() {
    assert_eq!(AptState::from_str("PRESENT").unwrap(), AptState::Present);
    assert_eq!(DnfState::from_str("Latest").unwrap(), DnfState::Latest);
    match AptState::from_str("Bogus") {
        Err(rustible::modules::ModuleError::InvalidParameter(m)) => assert_eq!(
            m,
            "Invalid state 'Bogus'. Valid states: present, absent, latest"
        ),
        other => panic!("unexpected {:?}", other),
    }
}

#[test]
fn shell_escape_keeps_plus_only_for_apt() {
    assert_eq!(apt::shell_escape("g++"), "g++");
    assert_eq!(dnf::shell_escape("g++"), "'g++'");
    assert_eq!(apt::shell_escape(""), "''");
    assert_eq!(apt::shell_escape("caf\u{e9}"), "caf\u{e9}");
}

fn names(v: &[&str]) -> Vec<String> {
    v.iter().map(|s| s.to_string()).collect()
}

#[test]
fn apt_plan_sorts_packages_by_state() {
    let pkgs = names(&["nginx", "curl", "vim"]);
    let plan = AptModule::plan(&pkgs, AptState::Latest, &[true, false, true]);
    assert_eq!(plan.to_upgrade, names(&["nginx", "vim"]));
    assert_eq!(plan.to_install, names(&["curl"]));
    assert!(plan.to_remove.is_empty() && plan.already_ok.is_empty());
    let report = plan.check_report();
    assert!(report.changed);
    assert_eq!(report.msg, "Would install: curl. Would upgrade: nginx, vim.");
    let done = plan.done_report();
    assert_eq!(done.msg, "Installed: curl. Upgraded: nginx, vim.");
    let results = plan.results();
    assert_eq!(
        results,
        vec![
            ("curl".to_string(), "installed".to_string()),
            ("nginx".to_string(), "upgraded".to_string()),
            ("vim".to_string(), "upgraded".to_string())
        ]
    );
}

#[test]
fn apt_plan_present_installed_is_noop() {
    let pkgs = names(&["nginx", "curl"]);
    let plan = AptModule::plan(&pkgs, AptState::Present, &[true, true]);
    let report = plan.check_report();
    assert!(!report.changed);
    assert_eq!(report.msg, "All packages already in desired state: nginx, curl");
    assert_eq!(plan.done_report().msg, "All packages already in desired state");
}

#[test]
fn package_commands_escape_names() {
    let pkgs = names(&["nginx", "lib foo"]);
    assert_eq!(
        AptModule::install_command(&pkgs),
        "DEBIAN_FRONTEND=noninteractive apt-get install -y nginx 'lib foo'"
    );
    assert_eq!(
        AptModule::installed_check_command("nginx"),
        "dpkg -s nginx 2>/dev/null | grep -q '^Status:.*installed'"
    );
    assert_eq!(DnfModule::dnf_command("install", &pkgs), "dnf install -y nginx 'lib foo'");
    assert_eq!(DnfModule::installed_check_command("a b"), "rpm -q 'a b'");
    assert_eq!(DnfModule::failure_detail("out", ""), "out");
    assert_eq!(DnfModule::failure_detail("out", "err"), "err");
}

#[test]
fn dnf_latest_always_installs() {
    let pkgs = names(&["nginx"]);
    let plan = DnfModule::plan(&pkgs, DnfState::Latest, &[true]);
    assert_eq!(plan.to_install, names(&["nginx"]));
    assert!(plan.to_upgrade.is_empty());
}

#[test]
fn apt_diff_lines_describe_each_package() {
    let pkgs = names(&["nginx", "curl"]);
    let probes = vec![(true, "1.2".to_string()), (false, String::new())];
    let diff = AptModule::diff_lines(&pkgs, AptState::Absent, &probes);
    assert_eq!(diff.before, "nginx: 1.2\ncurl: (not installed)");
    assert_eq!(diff.after, "nginx: (will be removed)\ncurl: (not installed)");
    let blind = AptModule::blind_diff_lines(&pkgs, AptState::Present);
    assert_eq!(blind.after, "nginx: (will be installed/updated)\ncurl: (will be installed/updated)");
}

fn empty_plan() -> PackagePlan {
    PackagePlan { to_install: vec![], to_remove: vec![], to_upgrade: vec![], already_ok: vec![] }
}

#[test]
fn package_run_steps_in_order() {
    let none = empty_plan();
    let ok = RunEvent::Succeeded;
    let s = next_stage(RunStage::Start, ok, false, true, 2, &none);
    assert_eq!(s, RunStage::UpdatingCache);
    let s = next_stage(s, ok, false, true, 2, &none);
    assert_eq!(s, RunStage::Checking(0));
    let s = next_stage(s, RunEvent::Installed(true), false, true, 2, &none);
    assert_eq!(s, RunStage::Checking(1));
    let s = next_stage(s, RunEvent::Installed(false), false, true, 2, &none);
    assert_eq!(s, RunStage::Planning);
    let pkgs = vec!["nginx".to_string(), "curl".to_string()];
    let plan = AptModule::plan(&pkgs, AptState::Latest, &[true, false]);
    let s = next_stage(s, ok, false, true, 2, &plan);
    assert_eq!(s, RunStage::Installing);
    let s = next_stage(s, ok, false, true, 2, &plan);
    assert_eq!(s, RunStage::Upgrading);
    let s = next_stage(s, ok, false, true, 2, &plan);
    assert_eq!(s, RunStage::Finished);
}

#[test]
fn package_run_check_mode_and_failures() {
    let none = empty_plan();
    let ok = RunEvent::Succeeded;
    // Check mode skips the cache update and finishes after planning.
    let s = next_stage(RunStage::Start, ok, true, true, 1, &none);
    assert_eq!(s, RunStage::Checking(0));
    let s = next_stage(s, RunEvent::Installed(false), true, true, 1, &none);
    assert_eq!(s, RunStage::Planning);
    let pkgs = vec!["nginx".to_string()];
    let plan = AptModule::plan(&pkgs, AptState::Present, &[false]);
    assert_eq!(next_stage(s, ok, true, true, 1, &plan), RunStage::Finished);
    // Without packages to handle, the run goes straight to planning.
    assert_eq!(next_stage(RunStage::Start, ok, false, false, 0, &none), RunStage::Planning);
    assert_eq!(next_stage(RunStage::Planning, ok, false, false, 0, &none), RunStage::Finished);
    // The first failure ends the run.
    assert_eq!(next_stage(RunStage::UpdatingCache, RunEvent::Failed, false, true, 1, &none), RunStage::Failed);
    assert_eq!(next_stage(RunStage::Installing, RunEvent::Failed, false, true, 1, &plan), RunStage::Failed);
    assert_eq!(next_stage(RunStage::Failed, ok, false, true, 1, &plan), RunStage::Failed);
    // Only removal left.
    let removal = AptModule::plan(&pkgs, AptState::Absent, &[true]);
    assert_eq!(next_stage(RunStage::Planning, ok, false, false, 1, &removal), RunStage::Removing);
    assert_eq!(next_stage(RunStage::Removing, ok, false, false, 1, &removal), RunStage::Finished);
}

#[test]
fn shell_escape_quotes_the_empty_word() {
    assert_eq!(apt::shell_escape(""), "''");
    assert_eq!(dnf::shell_escape(""), "''");
}

#[test]
fn pip_plan_and_reports() {
    let pkgs = vec!["requests".to_string(), "flask".to_string()];
    let plan = PipModule::plan(&pkgs, PipState::Present, &[true, false]);
    assert_eq!(plan.to_install, vec!["flask".to_string()]);
    assert_eq!(plan.already_ok, vec!["requests".to_string()]);
    let latest = PipModule::plan(&pkgs, PipState::Latest, &[true, false]);
    assert_eq!(latest.to_install, pkgs);
    assert!(latest.to_upgrade.is_empty());
    let absent = PipModule::plan(&pkgs, PipState::Absent, &[true, false]);
    assert_eq!(absent.to_remove, vec!["requests".to_string()]);
    assert_eq!(PipModule::pip_show_command("flask"), vec!["show".to_string(), "flask".to_string()]);
    assert_eq!(
        PipModule::install_args(PipState::Latest, &pkgs),
        vec!["install", "--upgrade", "requests", "flask"].iter().map(|s| s.to_string()).collect::<Vec<_>>()
    );
    assert_eq!(
        PipModule::uninstall_args(&absent.to_remove),
        vec!["uninstall".to_string(), "-y".to_string(), "requests".to_string()]
    );
    assert_eq!(
        PipModule::check_report(&plan, false),
        (true, "Would install: flask.".to_string())
    );
    assert_eq!(
        PipModule::done_report(&plan, true),
        (true, "Virtualenv created. Installed: flask.".to_string())
    );
    let nothing = PipModule::plan(&pkgs, PipState::Present, &[true, true]);
    assert_eq!(
        PipModule::check_report(&nothing, false),
        (false, "All packages already in desired state: requests, flask".to_string())
    );
    assert_eq!(PipModule::done_report(&nothing, false), (false, "All packages already in desired state".to_string()));
    assert!(matches!(
        PipModule::requirements_args(PipState::Absent, "req.txt"),
        Err(ModuleError::InvalidParameter(_))
    ));
    assert_eq!(
        PipModule::requirements_args(PipState::Present, "req.txt").unwrap(),
        vec!["install".to_string(), "-r".to_string(), "req.txt".to_string()]
    );
    assert_eq!(
        PipModule::requirements_done_report("req.txt", "Requirement already satisfied: x", false),
        (false, "All requirements already satisfied".to_string())
    );
    assert_eq!(
        PipModule::requirements_done_report("req.txt", "Successfully installed x", false),
        (true, "Installed packages from requirements file: req.txt".to_string())
    );
    assert_eq!(
        PipModule::failure("Failed to install packages", "out", ""),
        ModuleError::ExecutionFailed("Failed to install packages: out".to_string())
    );
}
