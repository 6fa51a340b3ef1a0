use rustible::inventory::data::{to_var, Data};
use rustible::inventory::group::{Group, GroupBuilder};
use rustible::inventory::host::{ConnectionType, Host, HostParseError, VarValue};
use rustible::inventory::sources::{detect_format, InventoryFormat};
use rustible::inventory::{Inventory, InventoryError};

fn s(x: &str) -> Data {
    Data::Str(x.to_string())
}

fn map(entries: Vec<(&str, Data)>) -> Data {
    Data::Mapping(entries.into_iter().map(|(k, v)| (s(k), v)).collect(), String::new())
}

fn list(items: Vec<Data>) -> Data {
    Data::List(items, String::new())
}

#[test]
fn test_group_new() {
    let group = Group::new("webservers");
    assert_eq!(group.name, "webservers");
    assert!(group.hosts.is_empty());
    assert!(group.children.is_empty());
    assert!(group.vars.is_empty());
}

#[test]
fn test_group_hosts() {
    let mut group = Group::new("webservers");
    group.add_host("web1");
    group.add_host("web2");
    assert!(group.has_host("web1"));
    assert!(group.has_host("web2"));
    assert!(!group.has_host("db1"));
    assert_eq!(group.host_count(), 2);

    group.remove_host("web1");
    assert!(!group.has_host("web1"));
    assert_eq!(group.host_count(), 1);
}

#[test]
fn test_group_children() {
    let mut group = Group::new("production");
    group.add_child("webservers");
    group.add_child("databases");
    assert!(group.has_child("webservers"));
    assert!(group.has_child("databases"));
    assert_eq!(group.child_count(), 2);
}

#[test]
fn test_group_vars() {
    let mut group = Group::new("webservers");
    group.set_var("http_port", VarValue::Int(80));
    assert!(group.has_var("http_port"));
    assert_eq!(group.get_var("http_port"), Some(&VarValue::Int(80)));
}

#[test]
fn test_group_builder() {
    let group = GroupBuilder::new("webservers")
        .hosts(&["web1", "web2"])
        .child("nginx")
        .var("http_port", VarValue::Int(80))
        .priority(10)
        .build();

    assert_eq!(group.name, "webservers");
    assert!(group.has_host("web1"));
    assert!(group.has_host("web2"));
    assert!(group.has_child("nginx"));
    assert!(group.has_var("http_port"));
    assert_eq!(group.priority, 10);
}

#[test]
fn group_and_host_descriptions() {
    let mut group = Group::new("web");
    group.add_host("a");
    assert_eq!(group.describe(), "web (1 hosts)");
    group.add_child("edge");
    assert_eq!(group.describe(), "web (1 hosts, 1 children)");
    assert_eq!(Host::new("h").describe(), "h");
    assert_eq!(Host::with_address("h", "10.0.0.1").describe(), "h (10.0.0.1)");
    let mut inv = Inventory::new();
    inv.add_host(Host::new("h")).unwrap();
    assert_eq!(inv.describe(), "Inventory (1 hosts, 2 groups)\n  [all]\n    h\n  [ungrouped]\n    h\n");
}

#[test]
fn yaml_inventory_is_read() {
    let doc = map(vec![(
        "all",
        map(vec![
            (
                "hosts",
                map(vec![(
                    "web1",
                    map(vec![
                        ("ansible_host", s("10.0.0.1")),
                        ("ansible_port", Data::Int(2222)),
                        ("ansible_connection", s("local")),
                        ("role", s("front")),
                    ]),
                )]),
            ),
            (
                "children",
                map(vec![("webs", map(vec![("hosts", map(vec![("web1", Data::Null), ("web2", Data::Null)]))]))]),
            ),
            ("vars", map(vec![("ntp", s("pool"))])),
        ]),
    )]);
    let mut inv = Inventory::new();
    inv.parse_yaml(&doc).unwrap();
    assert_eq!(inv.host_count(), 2);
    let web1 = inv.get_host("web1").unwrap();
    assert_eq!(web1.address(), "10.0.0.1");
    assert_eq!(web1.connection.ssh.port, 2222);
    assert_eq!(web1.connection.connection, ConnectionType::Local);
    assert_eq!(web1.get_var("ansible_connection"), Some(&VarValue::Str("local".to_string())));
    assert_eq!(web1.get_var("role"), Some(&VarValue::Str("front".to_string())));
    assert!(web1.in_group("all") && web1.in_group("webs"));
    let web2 = inv.get_host("web2").unwrap();
    assert!(web2.in_group("webs") && web2.in_group("all"));
    let all = inv.get_group("all").unwrap();
    assert!(all.has_child("webs"));
    assert_eq!(all.get_var("ntp"), Some(&VarValue::Str("pool".to_string())));
    assert!(inv.get_group("webs").unwrap().has_host("web2"));
}

#[test]
fn yaml_inventory_errors() {
    let mut inv = Inventory::new();
    assert_eq!(
        inv.parse_yaml(&list(vec![])),
        Err(InventoryError::Yaml("inventory must be a mapping of groups".to_string()))
    );
    let bad_section = map(vec![("web", map(vec![("hostz", Data::Null)]))]);
    assert_eq!(
        inv.parse_yaml(&bad_section),
        Err(InventoryError::Yaml("group sections must be hosts, children, or vars".to_string()))
    );
    let bad_port = map(vec![("web", map(vec![("vars", map(vec![("ansible_port", s("x"))]))]))]);
    assert!(matches!(
        inv.parse_yaml(&bad_port),
        Err(InventoryError::HostParse(HostParseError::InvalidPort(_)))
    ));
    let bad_host_port = map(vec![(
        "web",
        map(vec![("hosts", map(vec![("h", map(vec![("ansible_port", Data::Int(0))]))]))]),
    )]);
    assert!(inv.parse_yaml(&bad_host_port).is_err());
    assert!(inv.get_host("h").is_none());
}

#[test]
fn json_inventory_is_read() {
    let doc = map(vec![
        ("db", list(vec![s("h3")])),
        (
            "web",
            map(vec![
                ("hosts", list(vec![s("h1"), s("h2"), Data::Int(7)])),
                ("children", list(vec![s("edge")])),
                ("vars", map(vec![("http_port", Data::Int(80)), ("ratio", Data::Float("0.5".to_string()))])),
            ]),
        ),
        (
            "_meta",
            map(vec![("hostvars", map(vec![("h1", map(vec![("ansible_user", s("admin")), ("tier", s("gold"))]))]))]),
        ),
    ]);
    let mut inv = Inventory::new();
    inv.parse_json(&doc).unwrap();
    assert_eq!(inv.host_count(), 3);
    assert!(inv.get_group("_meta").is_none());
    let web = inv.get_group("web").unwrap();
    assert!(web.has_host("h1") && web.has_host("h2"));
    assert!(web.has_child("edge"));
    assert_eq!(web.get_var("http_port"), Some(&VarValue::Int(80)));
    assert_eq!(web.get_var("ratio"), Some(&VarValue::Float("0.5".to_string())));
    let h1 = inv.get_host("h1").unwrap();
    assert_eq!(h1.connection.ssh.user, Some("admin".to_string()));
    assert_eq!(h1.get_var("tier"), Some(&VarValue::Str("gold".to_string())));
    assert!(h1.in_group("web") && h1.in_group("all"));
    assert!(inv.get_group("all").unwrap().has_host("h3"));
    assert!(inv.get_host("h3").unwrap().in_group("db"));
}

#[test]
fn json_inventory_checks_ports() {
    let doc = map(vec![("web", map(vec![("vars", map(vec![("ansible_port", Data::Int(70000))]))]))]);
    let mut inv = Inventory::new();
    assert!(inv.parse_json(&doc).is_err());
    assert_eq!(inv.parse_json(&s("not an object")), Ok(()));
}

#[test]
fn hierarchy_and_variable_precedence() {
    let mut inv = Inventory::new();
    inv.parse_ini("[web]\nw1 role=host\n[web:vars]\nrole=web\ncolor=blue\n[prod:children]\nweb\n[prod:vars]\ncolor=red\nsize=large\n")
        .unwrap();
    inv.finish_loading().unwrap();
    let host = inv.get_host("w1").unwrap().clone();
    let hierarchy = inv.get_host_group_hierarchy(&host);
    assert_eq!(hierarchy.groups, vec!["web", "prod", "all"]);
    let vars = inv.get_host_vars(&host);
    let get = |k: &str| vars.iter().find(|(n, _)| n == k).map(|(_, v)| v.clone());
    assert_eq!(get("role"), Some(VarValue::Str("host".to_string())));
    assert_eq!(get("color"), Some(VarValue::Str("blue".to_string())));
    assert_eq!(get("size"), Some(VarValue::Str("large".to_string())));
}

#[test]
fn group_and_host_vars_files_merge() {
    let mut inv = Inventory::new();
    inv.add_host(Host::new("h")).unwrap();
    inv.merge_group_vars("new", &vec![("a".to_string(), VarValue::Int(1))], true);
    assert_eq!(inv.get_group("new").unwrap().get_var("a"), Some(&VarValue::Int(1)));
    inv.merge_group_vars("other", &vec![("a".to_string(), VarValue::Int(1))], false);
    assert!(inv.get_group("other").is_none());
    inv.merge_host_vars("h", &vec![("b".to_string(), VarValue::Bool(true))]);
    assert_eq!(inv.get_host("h").unwrap().get_var("b"), Some(&VarValue::Bool(true)));
}

#[test]
fn inventory_formats_are_detected() {
    assert_eq!(detect_format("YML", ""), InventoryFormat::Yaml);
    assert_eq!(detect_format("json", ""), InventoryFormat::Json);
    assert_eq!(detect_format("", "  {\"a\": 1}"), InventoryFormat::Json);
    assert_eq!(detect_format("", "# c\n[web]\nh1\n"), InventoryFormat::Ini);
    assert_eq!(detect_format("", "[1, 2]"), InventoryFormat::Ini);
    assert_eq!(detect_format("", "[{\"a\": 1}]"), InventoryFormat::Json);
    assert_eq!(detect_format("", "all:\n  hosts:\n"), InventoryFormat::Yaml);
    assert_eq!(detect_format("", "h1 ansible_host=x\n"), InventoryFormat::Ini);
    assert_eq!(detect_format("txt", "h1\n"), InventoryFormat::Ini);
}

#[test]
fn document_values_become_variables() {
    assert_eq!(to_var(&Data::UInt(5)), VarValue::UInt(5));
    assert_eq!(to_var(&Data::List(vec![], "[]".to_string())), VarValue::Nested("[]".to_string()));
    assert_eq!(to_var(&Data::Tagged("!x 1".to_string())), VarValue::Nested("!x 1".to_string()));
}
