use rustible::modules::command::CommandModule;
use rustible::modules::copy::CopyModule;
use rustible::modules::fetch::FetchModule;
use rustible::modules::git::GitModule;
use rustible::modules::lineinfile::{LineState, LineinfileModule};
use rustible::modules::network::network_module_names;
use rustible::modules::python::{bundle_script, python_shell_word, PythonModuleExecutor};
use rustible::modules::replace::ReplaceModule;
use rustible::modules::{ModuleClassification, ModuleError};

#[test]
fn test_git_module_name_and_description() {
    let module = GitModule;
    assert_eq!(module.name(), "git");
    assert!(!module.description().is_empty());
}

#[test]
fn test_git_module_required_params() {
    let module = GitModule;
    let required = module.required_params();
    assert_eq!(required.len(), 2);
    assert!(required.contains(&"repo"));
    assert!(required.contains(&"dest"));
}

#[test]
fn test_executor_creation() {
    let executor = PythonModuleExecutor::new_with_env(None, None);
    assert!(!executor.module_paths().is_empty());
}

#[test]
fn python_search_path_follows_home_and_library() {
    let mut executor = PythonModuleExecutor::new_with_env(Some("/home/u"), Some("/a:/b"));
    assert_eq!(
        executor.module_paths(),
        &vec![
            "/home/u/.ansible/collections".to_string(),
            "/home/u/.ansible/plugins/modules".to_string(),
            "/usr/share/ansible/plugins/modules".to_string(),
            "/usr/lib/python3/dist-packages/ansible/modules".to_string(),
            "/a".to_string(),
            "/b".to_string(),
        ]
    );
    executor.add_module_path("/first");
    assert_eq!(executor.module_paths()[0], "/first");
    assert_eq!(executor.module_paths().len(), 7);
}

#[test]
fn python_wrapper_carries_base64() {
    let script = bundle_script("print(1)", "{}");
    assert!(script.starts_with("#!/usr/bin/env python\n"));
    assert!(script.contains("MODULE_B64 = 'cHJpbnQoMSk='"));
    assert!(script.contains("ARGS_B64 = 'e30='"));
    assert_eq!(
        python_shell_word("x"),
        "\"import base64,sys;exec(base64.b64decode('eA==').decode())\""
    );
}

#[test]
fn test_substitute_replaces_every_match() {
    let result = ReplaceModule::substitute("a1 b2 c3", r"\d", "#").unwrap();
    assert_eq!(result.content, "a# b# c#");
    assert!(result.changed);
}

#[test]
fn test_substitute_supports_capture_groups() {
    let result = ReplaceModule::substitute("port = 80", r"port = (\d+)", "port = 8$1").unwrap();
    assert_eq!(result.content, "port = 880");
}

#[test]
fn test_substitute_reports_no_change() {
    let result = ReplaceModule::substitute("nothing here", r"\d", "#").unwrap();
    assert!(!result.changed);
}

#[test]
fn substitute_refuses_bad_patterns() {
    match ReplaceModule::substitute("x", "(", "y") {
        Err(ModuleError::InvalidParameter(m)) => assert!(m.starts_with("Invalid regexp: ")),
        _ => panic!("expected an error"),
    }
}

#[test]
fn test_module_names() {
    let names = network_module_names();
    assert!(names.contains(&"ios_config"));
    assert_eq!(names.len(), 4);
}

#[test]
fn simple_module_metadata() {
    assert_eq!(CommandModule.name(), "command");
    assert_eq!(CommandModule.required_params(), &["cmd"]);
    assert_eq!(CommandModule.classification(), ModuleClassification::RemoteCommand);
    assert_eq!(CopyModule.name(), "copy");
    assert_eq!(CopyModule.classification(), ModuleClassification::NativeTransport);
    assert!(CopyModule.required_params().is_empty());
    assert_eq!(FetchModule.required_params(), &["src", "dest"]);
    assert_eq!(LineinfileModule.name(), "lineinfile");
    assert_eq!(ReplaceModule.required_params(), &["path", "regexp"]);
}

#[test]
fn line_state_from_str() {
    assert_eq!(LineState::from_str("PRESENT").unwrap(), LineState::Present);
    assert_eq!(LineState::from_str("absent").unwrap(), LineState::Absent);
    assert!(LineState::from_str("maybe").is_err());
}
