use rustible::modules::file::{attribute_changes, FileModule, FileState, RemoteEntry, SelinuxContext};
use rustible::modules::file_plan::{file_done_report, file_plan, FileFacts, FilePlanParams, FileStep};
use rustible::modules::file_remote::{
    attribute_commands, command_failure, remote_done_report, remote_plan, remote_refusal, RemoteDone,
};
use rustible::modules::{ModuleClassification, ModuleError};

#[test]
fn test_parse_remote_entry_directory() {
    let entry = FileModule::parse_remote_entry("directory\n\n750 root root\n");
    assert_eq!(entry.state, Some(FileState::Directory));
    assert_eq!(entry.mode.as_deref(), Some("750"));
    assert_eq!(entry.owner.as_deref(), Some("root"));
    assert_eq!(entry.group.as_deref(), Some("root"));
    assert_eq!(entry.link_target, None);
}

#[test]
fn test_parse_remote_entry_link() {
    let entry = FileModule::parse_remote_entry("link\n/opt/target\n777 root root\n");
    assert_eq!(entry.state, Some(FileState::Link));
    assert_eq!(entry.link_target.as_deref(), Some("/opt/target"));
}

#[test]
fn test_parse_remote_entry_absent() {
    let entry = FileModule::parse_remote_entry("absent\n\n");
    assert_eq!(entry.state, None);
    assert_eq!(entry.mode, None);
    assert_eq!(entry.owner, None);
}

#[test]
fn test_parse_remote_entry_file_without_stat() {
    let entry = FileModule::parse_remote_entry("file\n\n");
    assert_eq!(entry.state, Some(FileState::File));
    assert_eq!(entry.mode, None);
}

#[test]
fn parse_remote_entry_of_empty_output_is_absent() {
    let entry = FileModule::parse_remote_entry("");
    assert_eq!(entry.state, None);
    assert_eq!(entry.link_target, None);
}

#[test]
fn file_state_from_str_accepts_aliases() {
    assert_eq!(FileState::from_str("DIR").unwrap(), FileState::Directory);
    assert_eq!(FileState::from_str("symlink").unwrap(), FileState::Link);
    assert_eq!(FileState::from_str("hardlink").unwrap(), FileState::Hard);
    assert_eq!(FileState::from_str("touch").unwrap(), FileState::Touch);
    assert_eq!(
        FileState::from_str("gone").unwrap_err(),
        ModuleError::InvalidParameter(
            "Invalid state 'gone'. Valid states: file, directory, link, hard, absent, touch".to_string()
        )
    );
}

#[test]
fn selinux_context_string_fills_missing_parts() {
    let none = SelinuxContext::default();
    assert!(!none.is_set());
    assert_eq!(none.to_context_string(), None);
    let ctx = SelinuxContext {
        seuser: Some("system_u".to_string()),
        serole: None,
        setype: Some("httpd_sys_content_t".to_string()),
        selevel: None,
    };
    assert!(ctx.is_set());
    assert_eq!(ctx.to_context_string().as_deref(), Some("system_u:_:httpd_sys_content_t:_"));
}

#[test]
fn file_module_metadata() {
    let module = FileModule;
    assert_eq!(module.name(), "file");
    assert_eq!(module.classification(), ModuleClassification::NativeTransport);
    assert_eq!(module.required_params(), &["path"]);
}

#[test]
fn parse_timestamp_reads_epoch_seconds() {
    assert_eq!(FileModule::parse_timestamp("1700000000").unwrap(), 1700000000);
    assert_eq!(FileModule::parse_timestamp("-5").unwrap(), -5);
    assert!(FileModule::parse_timestamp("2024-01-01").is_err());
}

#[test]
fn attribute_changes_compare_modes_without_leading_zeros() {
    let entry = RemoteEntry {
        state: Some(FileState::File),
        mode: Some("644".to_string()),
        owner: Some("root".to_string()),
        group: Some("root".to_string()),
        link_target: None,
    };
    let (chmod, chown) = attribute_changes(Some(0o644), Some("root"), None, &entry);
    assert_eq!(chmod, None);
    assert_eq!(chown, None);
    let (chmod, chown) = attribute_changes(Some(0o10755), None, Some("www"), &entry);
    assert_eq!(chmod.as_deref(), Some("755"));
    assert_eq!(chown.as_deref(), Some(":www"));
    let (_, chown) = attribute_changes(None, Some("app"), Some("root"), &entry);
    assert_eq!(chown.as_deref(), Some("app:root"));
}

#[test]
fn parse_timestamp_reads_iso_8601() {
    assert_eq!(FileModule::parse_timestamp("2024-01-01T00:00:00Z").unwrap(), 1704067200);
    assert_eq!(FileModule::parse_timestamp("2024-01-01T02:00:00+02:00").unwrap(), 1704067200);
    assert_eq!(FileModule::parse_timestamp("2024-01-01 00:00:00.250").unwrap(), 1704067200);
    assert_eq!(FileModule::parse_timestamp("20240101T000000Z").unwrap(), 1704067200);
    assert_eq!(FileModule::parse_timestamp("1969-12-31T23:59:59Z").unwrap(), -1);
    assert_eq!(FileModule::parse_timestamp("2000-02-29T00:00:00Z").unwrap(), 951782400);
    assert!(FileModule::parse_timestamp("2023-02-29T00:00:00Z").is_err());
    assert!(FileModule::parse_timestamp("2024-01-01T24:00:00Z").is_err());
    assert!(FileModule::parse_timestamp("yesterday").is_err());
}

fn plan_params(path: &str, src: Option<&str>) -> FilePlanParams {
    FilePlanParams {
        path: path.to_string(),
        target: path.to_string(),
        src: src.map(|s| s.to_string()),
        mode: None,
        recurse: false,
        force: false,
        follow: true,
        sets_times: false,
        selinux_set: false,
    }
}

fn nothing_there() -> FileFacts {
    FileFacts {
        is_symlink: false,
        exists: false,
        is_dir: false,
        is_file: false,
        attributes_differ: false,
        attributes_differ_without_mode: false,
        link_points_to_src: false,
        src_exists: true,
        same_file_as_src: false,
        symlink_inside: false,
    }
}

#[test]
fn test_file_create_directory() {
    let p = plan_params("/tmp/x/testdir", None);
    let plan = file_plan(FileState::Directory, None, &p, &nothing_there(), false).unwrap();
    assert_eq!(plan.steps, vec![FileStep::CreateDirectory, FileStep::SetAttributes]);
    assert!(plan.created);
    let (changed, msg) = file_done_report(FileState::Directory, "/tmp/x/testdir", plan.created, false);
    assert!(changed);
    assert_eq!(msg, "Created directory '/tmp/x/testdir'");
}

#[test]
fn test_file_create_directory_idempotent() {
    let p = plan_params("/tmp/x/testdir", None);
    let facts = FileFacts { exists: true, is_dir: true, ..nothing_there() };
    let plan = file_plan(FileState::Directory, Some(FileState::Directory), &p, &facts, false).unwrap();
    assert_eq!(plan.steps, vec![FileStep::SetAttributes]);
    assert!(!plan.created);
    let (changed, msg) = file_done_report(FileState::Directory, "/tmp/x/testdir", false, false);
    assert!(!changed);
    assert_eq!(msg, "Directory '/tmp/x/testdir' already exists with correct attributes");
}

#[test]
fn test_file_create_file() {
    let p = plan_params("/tmp/x/testfile", None);
    let plan = file_plan(FileState::File, None, &p, &nothing_there(), false).unwrap();
    assert_eq!(plan.steps, vec![FileStep::CreateFile, FileStep::SetAttributes]);
    let (changed, msg) = file_done_report(FileState::File, "/tmp/x/testfile", plan.created, false);
    assert!(changed);
    assert_eq!(msg, "Created file '/tmp/x/testfile'");
}

#[test]
fn test_file_absent() {
    let p = plan_params("/tmp/x/testfile", None);
    let facts = FileFacts { exists: true, is_file: true, ..nothing_there() };
    let plan = file_plan(FileState::Absent, Some(FileState::File), &p, &facts, false).unwrap();
    assert_eq!(plan.steps, vec![FileStep::Remove]);
    assert_eq!(plan.report, Some((true, "Removed '/tmp/x/testfile'".to_string())));
    let gone = file_plan(FileState::Absent, None, &p, &nothing_there(), false).unwrap();
    assert!(gone.steps.is_empty());
    assert_eq!(gone.report, Some((false, "Path '/tmp/x/testfile' already absent".to_string())));
}

#[test]
fn test_file_symlink() {
    let p = plan_params("/tmp/x/link", Some("/tmp/x/source"));
    let plan = file_plan(FileState::Link, None, &p, &nothing_there(), false).unwrap();
    assert_eq!(plan.steps, vec![FileStep::Symlink]);
    assert_eq!(plan.report, Some((true, "Created symlink '/tmp/x/link' -> '/tmp/x/source'".to_string())));
    let right = FileFacts { is_symlink: true, exists: true, link_points_to_src: true, ..nothing_there() };
    let kept = file_plan(FileState::Link, Some(FileState::Link), &p, &right, false).unwrap();
    assert!(kept.steps.is_empty());
    assert_eq!(kept.report, Some((false, "Symlink '/tmp/x/link' already points to '/tmp/x/source'".to_string())));
    let wrong = FileFacts { is_symlink: true, exists: true, ..nothing_there() };
    assert_eq!(
        file_plan(FileState::Link, Some(FileState::Link), &p, &wrong, false).unwrap_err(),
        ModuleError::ExecutionFailed("Symlink '/tmp/x/link' already exists with different target".to_string())
    );
    let forced = FilePlanParams { force: true, ..p.clone() };
    let replaced = file_plan(FileState::Link, Some(FileState::Link), &forced, &wrong, false).unwrap();
    assert_eq!(replaced.steps, vec![FileStep::ClearDestination, FileStep::Symlink]);
    let no_src = plan_params("/tmp/x/link", None);
    assert_eq!(
        file_plan(FileState::Link, None, &no_src, &nothing_there(), false).unwrap_err(),
        ModuleError::MissingParameter("src is required for symlinks".to_string())
    );
}

#[test]
fn test_file_with_mode() {
    let p = FilePlanParams { mode: Some(0o755), ..plan_params("/tmp/x/testfile", None) };
    let plan = file_plan(FileState::File, None, &p, &nothing_there(), false).unwrap();
    assert_eq!(plan.steps, vec![FileStep::CreateFile, FileStep::SetAttributes]);
    let existing = FileFacts { exists: true, is_file: true, attributes_differ: true, ..nothing_there() };
    let check = file_plan(FileState::File, Some(FileState::File), &p, &existing, true).unwrap();
    assert_eq!(check.report, Some((true, "Would update attributes on '/tmp/x/testfile'".to_string())));
    let (changed, msg) = file_done_report(FileState::File, "/tmp/x/testfile", false, true);
    assert!(changed);
    assert_eq!(msg, "Updated attributes on file '/tmp/x/testfile'");
}

#[test]
fn test_file_check_mode() {
    let p = plan_params("/tmp/x/testdir", None);
    let plan = file_plan(FileState::Directory, None, &p, &nothing_there(), true).unwrap();
    assert!(plan.steps.is_empty());
    let (changed, msg) = plan.report.unwrap();
    assert!(changed);
    assert!(msg.contains("Would create"));
}

#[test]
fn test_file_touch() {
    let p = plan_params("/tmp/x/testfile", None);
    let plan = file_plan(FileState::Touch, None, &p, &nothing_there(), false).unwrap();
    assert_eq!(plan.steps, vec![FileStep::Touch, FileStep::SetAttributes]);
    assert_eq!(plan.report, Some((true, "Touched '/tmp/x/testfile'".to_string())));
}

#[test]
fn file_plan_refusals() {
    let on_link = FileFacts { is_symlink: true, exists: true, is_file: true, ..nothing_there() };
    let p = FilePlanParams { follow: false, sets_times: true, ..plan_params("/tmp/x/f", None) };
    assert_eq!(
        file_plan(FileState::File, Some(FileState::Link), &p, &on_link, false).unwrap_err(),
        ModuleError::Unsupported("Timestamp and SELinux updates on symbolic links require follow=true".to_string())
    );
    let dir_on_file = FileFacts { exists: true, is_file: true, ..nothing_there() };
    assert_eq!(
        file_plan(FileState::Directory, Some(FileState::File), &plan_params("/tmp/x/f", None), &dir_on_file, false)
            .unwrap_err(),
        ModuleError::ExecutionFailed("Path '/tmp/x/f' exists but is not a directory".to_string())
    );
    let hard = plan_params("/tmp/x/h", Some("/tmp/x/s"));
    let missing_src = FileFacts { src_exists: false, ..nothing_there() };
    assert_eq!(
        file_plan(FileState::Hard, None, &hard, &missing_src, false).unwrap_err(),
        ModuleError::ExecutionFailed("Source '/tmp/x/s' does not exist".to_string())
    );
    let absent_check = file_plan(FileState::Absent, Some(FileState::Directory), &plan_params("/d", None), &dir_on_file, true)
        .unwrap();
    assert_eq!(absent_check.diff, Some(("Some(Directory)".to_string(), "absent".to_string())));
}

fn probe(state: Option<FileState>, mode: Option<&str>, link: Option<&str>) -> RemoteEntry {
    RemoteEntry {
        state,
        mode: mode.map(|m| m.to_string()),
        owner: Some("root".to_string()),
        group: Some("root".to_string()),
        link_target: link.map(|l| l.to_string()),
    }
}

#[test]
fn remote_file_commands_per_state() {
    let dir = remote_plan("/srv/my dir", FileState::Directory, "directory", &probe(None, None, None), None, None, None, None, false, false)
        .unwrap();
    assert_eq!(dir.commands.len(), 1);
    assert_eq!(dir.commands[0].command, "mkdir -p '/srv/my dir'");
    assert!(dir.reprobe && dir.attributes);
    let gone = remote_plan("/srv/a", FileState::Absent, "absent", &probe(Some(FileState::File), None, None), None, None, None, None, false, false)
        .unwrap();
    assert_eq!(gone.commands[0].command, "rm -rf /srv/a");
    assert_eq!(gone.report, Some((true, "Removed '/srv/a'".to_string())));
    let link = remote_plan("/srv/l", FileState::Link, "link", &probe(None, None, None), None, None, None, Some("/srv/t"), false, false)
        .unwrap();
    assert_eq!(link.commands[0].command, "ln -sfn /srv/t /srv/l");
    assert_eq!(link.report, Some((true, "Created symbolic link '/srv/l' -> '/srv/t'".to_string())));
    let hard = remote_plan("/srv/h", FileState::Hard, "hard", &probe(None, None, None), None, None, None, Some("/srv/t"), false, false)
        .unwrap();
    assert_eq!(hard.commands[0].command, "ln -f /srv/t /srv/h");
    let check = remote_plan("/srv/h", FileState::Touch, "touch", &probe(None, None, None), None, None, None, None, false, true)
        .unwrap();
    assert!(check.commands.is_empty());
    assert_eq!(check.report, Some((true, "Would create '/srv/h'".to_string())));
    assert_eq!(
        remote_plan("/srv/f", FileState::File, "file", &probe(None, None, None), None, None, None, None, false, false)
            .unwrap_err(),
        ModuleError::ExecutionFailed("Path '/srv/f' does not exist on the target; use state=touch to create it".to_string())
    );
    assert_eq!(
        remote_plan("/srv/f", FileState::Link, "link", &probe(Some(FileState::File), None, None), None, None, None, Some("/t"), false, false)
            .unwrap_err(),
        ModuleError::ExecutionFailed("Path '/srv/f' exists and is not a link; use force=true to replace it".to_string())
    );
    assert_eq!(
        remote_plan("/srv/f", FileState::Hard, "hard", &probe(None, None, None), None, None, None, None, false, false)
            .unwrap_err(),
        ModuleError::MissingParameter("src is required when state is hard".to_string())
    );
    let cmds = attribute_commands("/srv/f", Some(0o640), Some("web"), None, &probe(Some(FileState::File), Some("644"), None));
    assert_eq!(cmds.len(), 2);
    assert_eq!(cmds[0].command, "chmod 640 /srv/f");
    assert_eq!(cmds[1].command, "chown web /srv/f");
    assert_eq!(
        command_failure("Failed to set mode", "  denied \n"),
        ModuleError::ExecutionFailed("Failed to set mode: denied".to_string())
    );
    assert_eq!(remote_done_report(RemoteDone::Link, "/srv/l", false, false), (false, "Link '/srv/l' already correct".to_string()));
    let params: rustible::modules::params::ModuleParams =
        vec![("selevel".to_string(), rustible::inventory::data::Data::Str("s0".to_string()))];
    assert_eq!(
        remote_refusal(&params, false).unwrap_err(),
        ModuleError::Unsupported("file: 'selevel' is not implemented for remote targets".to_string())
    );
}
