use rustible::inventory::group::GroupHierarchy;
use rustible::inventory::host::{ConnectionType, Host, HostParseError, VarValue};
use rustible::inventory::pattern::{glob_to_regex, range_candidates, split_host_pattern};
use rustible::inventory::InventoryError;

#[test]
fn test_group_hierarchy() {
    let mut hierarchy = GroupHierarchy::new();
    hierarchy.push("all");
    hierarchy.push("production");
    hierarchy.push("webservers");

    let parent_to_child: Vec<_> = hierarchy.parent_to_child().collect();
    assert_eq!(parent_to_child, vec!["webservers", "production", "all"]);

    let child_to_parent: Vec<_> = hierarchy.child_to_parent().collect();
    assert_eq!(child_to_parent, vec!["all", "production", "webservers"]);
}

#[test]
fn test_host_new() {
    let host = Host::new("webserver1");
    assert_eq!(host.name, "webserver1");
    assert_eq!(host.address(), "webserver1");
    assert!(host.enabled);
}

#[test]
fn test_host_with_address() {
    let host = Host::with_address("webserver1", "192.168.1.10");
    assert_eq!(host.name, "webserver1");
    assert_eq!(host.address(), "192.168.1.10");
}

#[test]
fn test_host_parse() {
    let host = Host::parse("web1 ansible_host=10.0.0.1 ansible_port=2222 ansible_user=admin").unwrap();
    assert_eq!(host.name, "web1");
    assert_eq!(host.address(), "10.0.0.1");
    assert_eq!(host.connection.ssh.port, 2222);
    assert_eq!(host.connection.ssh.user, Some("admin".to_string()));
}

#[test]
fn test_host_groups() {
    let mut host = Host::new("test");
    host.add_to_group("webservers");
    host.add_to_group("production");
    assert!(host.in_group("webservers"));
    assert!(host.in_group("production"));
    assert!(!host.in_group("databases"));
    host.remove_from_group("webservers");
    assert!(!host.in_group("webservers"));
}

#[test]
fn test_host_vars() {
    let mut host = Host::new("test");
    host.set_var("http_port", VarValue::Int(80));
    assert!(host.has_var("http_port"));
    assert_eq!(host.get_var("http_port"), Some(&VarValue::Int(80)));
}

#[test]
fn host_parse_rejects_empty_input() {
    assert_eq!(Host::parse("   ").unwrap_err(), HostParseError::EmptyInput);
    assert_eq!(HostParseError::EmptyInput.message(), "empty input");
}

#[test]
fn host_parse_rejects_bad_port_and_connection() {
    assert_eq!(
        Host::parse("web1 ansible_port=99999").unwrap_err(),
        HostParseError::InvalidPort("99999".to_string())
    );
    assert_eq!(
        Host::parse("web1 ansible_connection=telnet").unwrap_err(),
        HostParseError::InvalidConnectionType("telnet".to_string())
    );
    assert_eq!(
        HostParseError::InvalidPort("x".to_string()).message(),
        "invalid port: x"
    );
}

#[test]
fn host_parse_reads_connection_settings_and_variables() {
    let host = Host::parse(
        "db1 ansible_connection=Docker ansible_become=TRUE ansible_become_user=postgres role=db ignored role=primary",
    )
    .unwrap();
    assert_eq!(host.connection.connection, ConnectionType::Docker);
    assert!(host.connection.become_);
    assert_eq!(host.connection.become_user, "postgres");
    assert_eq!(host.connection.become_method, "sudo");
    assert_eq!(host.vars.len(), 1);
    assert_eq!(host.get_var("role"), Some(&VarValue::Str("primary".to_string())));
    assert_eq!(host.address(), "db1");
}

#[test]
fn host_last_setting_wins() {
    let host = Host::parse("h ansible_port=22 ansible_port=+2200").unwrap();
    assert_eq!(host.connection.ssh.port, 2200);
}

#[test]
fn host_add_to_group_is_idempotent() {
    let mut host = Host::new("h");
    host.add_to_group("web");
    host.add_to_group("web");
    assert_eq!(host.groups.len(), 1);
}

#[test]
fn host_merge_vars_prefers_new_values() {
    let mut host = Host::new("h");
    host.set_var("a", VarValue::Int(1));
    host.set_var("b", VarValue::Bool(true));
    host.merge_vars(&vec![
        ("b".to_string(), VarValue::Bool(false)),
        ("c".to_string(), VarValue::Null),
    ]);
    assert_eq!(host.get_var("a"), Some(&VarValue::Int(1)));
    assert_eq!(host.get_var("b"), Some(&VarValue::Bool(false)));
    assert_eq!(host.get_var("c"), Some(&VarValue::Null));
    assert_eq!(host.vars[1].0, "b");
}

#[test]
fn host_setters_change_one_setting_each() {
    let mut host = Host::new("h");
    host.set_port(2022);
    host.set_user("deploy");
    host.set_private_key("/k");
    host.enable_become();
    host.set_become_method("doas");
    host.set_become_user("admin");
    host.set_connection(ConnectionType::Local);
    assert_eq!(host.connection.ssh.port, 2022);
    assert_eq!(host.connection.ssh.user.as_deref(), Some("deploy"));
    assert_eq!(host.connection.ssh.private_key_file.as_deref(), Some("/k"));
    assert!(host.connection.become_);
    assert_eq!(host.connection.become_method, "doas");
    assert_eq!(host.connection.become_user, "admin");
    assert_eq!(host.connection.connection, ConnectionType::Local);
    assert_eq!(ConnectionType::Local.as_str(), "local");
}

#[test]
fn split_host_pattern_keeps_ranges_whole() {
    assert_eq!(split_host_pattern("web[01:03]:db"), vec!["web[01:03]", "db"]);
    assert_eq!(split_host_pattern("a:&b:!c"), vec!["a", "&b", "!c"]);
    assert_eq!(split_host_pattern("]x:y"), vec!["]x", "y"]);
    assert_eq!(split_host_pattern(""), vec![""]);
}

#[test]
fn glob_to_regex_escapes_operators() {
    assert_eq!(glob_to_regex("web*.example.com"), "^web.*\\.example\\.com$");
    assert_eq!(glob_to_regex("db?"), "^db.$");
}

#[test]
fn range_candidates_expands_numbers_with_padding() {
    let names = range_candidates("web[01:03].example", &[]).unwrap().unwrap();
    assert_eq!(names, vec!["web01.example", "web02.example", "web03.example"]);
    let stepped = range_candidates("rack[1:9:4]", &[]).unwrap().unwrap();
    assert_eq!(stepped, vec!["rack1", "rack5", "rack9"]);
}

#[test]
fn range_candidates_expands_letters() {
    let names = range_candidates("node[a:c]", &[]).unwrap().unwrap();
    assert_eq!(names, vec!["nodea", "nodeb", "nodec"]);
}

#[test]
fn range_candidates_without_range_is_none() {
    assert!(range_candidates("plain", &[]).unwrap().is_none());
    assert!(range_candidates("web[1-3]", &[]).unwrap().is_none());
}

#[test]
fn range_candidates_rejects_bad_ranges() {
    assert_eq!(
        range_candidates("web[3:1]", &[]).unwrap_err(),
        InventoryError::InvalidPattern("Invalid range: web[3:1]".to_string())
    );
    assert!(range_candidates("web[1:3:0]", &[]).is_err());
    assert!(range_candidates("web[a:C]", &[]).is_err());
    assert!(range_candidates("web[0:10000]", &[]).is_err());
    assert_eq!(
        range_candidates("web[1:2]", &["web".to_string()]).unwrap_err(),
        InventoryError::InvalidPattern("Group subscripts are not supported: web[1:2]".to_string())
    );
}

#[test]
fn inventory_error_messages() {
    assert_eq!(
        InventoryError::InvalidPattern("x".to_string()).message(),
        "invalid host pattern: x"
    );
    assert_eq!(
        InventoryError::HostParse(HostParseError::EmptyInput).message(),
        "host parse error: empty input"
    );
}

#[test]
fn port_zero_is_refused() {
    assert_eq!(Host::parse("h ansible_port=0").unwrap_err(), HostParseError::InvalidPort("0".to_string()));
    assert_eq!(Host::parse("h ansible_port=70000").unwrap_err(), HostParseError::InvalidPort("70000".to_string()));
    assert_eq!(Host::parse("h ansible_port=abc").unwrap_err(), HostParseError::InvalidPort("abc".to_string()));
}

#[test]
fn inventory_records_its_source() {
    let mut inv = rustible::inventory::Inventory::new();
    assert_eq!(inv.source(), &None);
    inv.set_source("/etc/ansible/hosts".to_string());
    assert_eq!(inv.source(), &Some("/etc/ansible/hosts".to_string()));
    assert_eq!(inv.host_count(), 0);
}

#[test]
fn group_and_inventory_getters() {
    let mut g = rustible::inventory::group::Group::new("web");
    g.add_host("h1");
    g.add_child("db");
    assert_eq!(g.direct_hosts(), &["h1".to_string()]);
    assert_eq!(g.child_groups(), &["db".to_string()]);
    assert!(g.parent_groups().is_empty());
    let inv = rustible::inventory::Inventory::new();
    assert!(inv.get_all_hosts().is_empty());
}
