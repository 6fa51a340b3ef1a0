use rustible::inventory::group::Group;
use rustible::inventory::host::{Host, HostParseError, VarValue};
use rustible::inventory::ini::{parse_ini_value, parse_inventory_port, quoted_ini_value};
use rustible::inventory::{Inventory, InventoryError};

fn no_files() -> Vec<(String, Result<String, String>)> {
    Vec::new()
}

fn count(inv: &Inventory, pattern: &str) -> usize {
    inv.get_hosts_for_pattern(pattern, &no_files()).unwrap().len()
}

fn fails(inv: &Inventory, pattern: &str) -> bool {
    inv.get_hosts_for_pattern(pattern, &no_files()).is_err()
}

#[test]
fn test_empty_inventory() {
    let inv = Inventory::new();
    assert_eq!(inv.host_count(), 0);
    assert!(inv.get_group("all").is_some());
    assert!(inv.get_group("ungrouped").is_some());
}

#[test]
fn test_add_host() {
    let mut inv = Inventory::new();
    let host = Host::new("webserver1");
    inv.add_host(host).unwrap();

    assert_eq!(inv.host_count(), 1);
    assert!(inv.get_host("webserver1").is_some());
}

#[test]
fn test_parse_ini() {
    let mut inv = Inventory::new();
    inv.parse_ini(
        r#"
[webservers]
web1 ansible_host=10.0.0.1
web2 ansible_host=10.0.0.2

[databases]
db1 ansible_host=10.0.0.10

[webservers:vars]
http_port=80

[production:children]
webservers
databases
        "#,
    )
    .unwrap();

    assert_eq!(inv.host_count(), 3);
    assert!(inv.get_group("webservers").is_some());
    assert!(inv.get_group("databases").is_some());
    assert!(inv.get_group("production").is_some());

    let webservers = inv.get_group("webservers").unwrap();
    assert!(webservers.has_host("web1"));
    assert!(webservers.has_host("web2"));
    assert!(webservers.has_var("http_port"));
}

#[test]
fn test_pattern_matching() {
    let mut inv = Inventory::new();
    inv.parse_ini(
        r#"
[webservers]
web1
web2

[databases]
db1
        "#,
    )
    .unwrap();

    assert_eq!(count(&inv, "all"), 3);
    assert_eq!(count(&inv, "webservers"), 2);
    assert_eq!(count(&inv, "web1"), 1);
}

#[test]
fn test_glob_pattern() {
    let mut inv = Inventory::new();
    inv.add_host(Host::new("web1")).unwrap();
    inv.add_host(Host::new("web2")).unwrap();
    inv.add_host(Host::new("db1")).unwrap();

    assert_eq!(count(&inv, "web*"), 2);
}

fn range_inventory() -> Inventory {
    let mut inv = Inventory::new();
    inv.parse_ini(
        r#"
[webservers]
web01
web02
web03

[databases]
db01

[nodes]
nodea
nodeb
nodec
        "#,
    )
    .unwrap();
    inv
}

#[test]
fn test_range_pattern_expands_inventory_style_ranges() {
    let inv = range_inventory();
    assert_eq!(count(&inv, "web[01:03]"), 3);
    assert_eq!(count(&inv, "web[01:02]"), 2);
    assert_eq!(count(&inv, "web[01:05]"), 3);
    assert!(fails(&inv, "web[05:09]"));
    assert!(fails(&inv, "web[1:3]"));
    assert_eq!(count(&inv, "web[01:03:2]"), 2);
    assert_eq!(count(&inv, "node[a:c]"), 3);
    assert_eq!(count(&inv, "web[01:03]:db01"), 4);
    assert_eq!(count(&inv, "web[01:03]:!web02"), 2);
    assert_eq!(count(&inv, "web0*"), 3);
    assert!(inv.get_hosts_for_pattern("web0[12]", &no_files()).unwrap().is_empty());
    assert!(fails(&inv, "webservers[0:1]"));
    assert!(fails(&inv, "web[03:01]"));
    assert!(fails(&inv, "web[01:03:0]"));
    assert_eq!(count(&inv, "~^web0[1:3]$"), 2);
    assert_eq!(count(&inv, "web[01:02]*"), 2);
    assert_eq!(count(&inv, "w[a:z]b0*"), 3);
    assert!(fails(&inv, "x[a:c]*"));
}

#[test]
fn test_nested_range_patterns_skip_empty_branches() {
    let mut inv = Inventory::new();
    inv.parse_ini("[rack1node]\nrack1node1\nrack1node2\n").unwrap();
    assert_eq!(count(&inv, "rack[1:2]node[1:2]"), 2);
    assert_eq!(count(&inv, "rack[1:2]node[2:3]"), 1);
    assert!(fails(&inv, "rack[3:4]node[1:2]"));
    let error = inv
        .get_hosts_for_pattern("rack[1:200]node[1:200]", &no_files())
        .unwrap_err()
        .message();
    assert!(error.contains("more than"), "{error}");
    assert!(fails(&inv, "rack[1:2]node[1:2:18446744073709551616]"));
}

#[test]
fn test_limit_file_patterns() {
    let inv = range_inventory();
    let files = vec![
        (
            "/tmp/limit".to_string(),
            Ok("# comment\n\nweb01\nweb[02:03]\n  db01  \n\n".to_string()),
        ),
        ("/tmp/empty".to_string(), Ok(String::new())),
        (
            "/nonexistent/limit-file".to_string(),
            Err("No such file or directory (os error 2)".to_string()),
        ),
    ];
    assert_eq!(inv.get_hosts_for_pattern("@/tmp/limit", &files).unwrap().len(), 4);
    assert_eq!(inv.get_hosts_for_pattern("@/tmp/limit:!db01", &files).unwrap().len(), 3);
    let error = inv.get_hosts_for_pattern("@/tmp/empty", &files).unwrap_err().message();
    assert!(error.contains("no host patterns"), "{error}");
    assert!(inv.get_hosts_for_pattern("@/nonexistent/limit-file", &files).is_err());
}

#[test]
fn test_regex_pattern() {
    let mut inv = Inventory::new();
    inv.add_host(Host::new("web1")).unwrap();
    inv.add_host(Host::new("web2")).unwrap();
    inv.add_host(Host::new("db1")).unwrap();

    assert_eq!(count(&inv, "~web\\d+"), 2);
}

#[test]
fn pattern_operators_combine_as_sets() {
    let inv = range_inventory();
    let mut both = inv.get_hosts_for_pattern("webservers:&web0*", &no_files()).unwrap();
    both.sort();
    assert_eq!(both, vec!["web01", "web02", "web03"]);
    let mut rest = inv.get_hosts_for_pattern("all:!webservers", &no_files()).unwrap();
    rest.sort();
    assert_eq!(rest, vec!["db01", "nodea", "nodeb", "nodec"]);
    let mut union = inv.get_hosts_for_pattern("databases:nodea", &no_files()).unwrap();
    union.sort();
    assert_eq!(union, vec!["db01", "nodea"]);
}

#[test]
fn pattern_errors_carry_messages() {
    let inv = range_inventory();
    assert_eq!(
        inv.get_hosts_for_pattern("nothing", &no_files()),
        Err(InventoryError::InvalidPattern("No hosts matched pattern: nothing".to_string()))
    );
    assert_eq!(
        inv.get_hosts_for_pattern("webservers[0:1]", &no_files()),
        Err(InventoryError::InvalidPattern("Group subscripts are not supported: webservers[0:1]".to_string()))
    );
    assert_eq!(
        inv.get_hosts_for_pattern("~web(", &no_files()),
        Err(InventoryError::InvalidPattern("~web(".to_string()))
    );
    assert_eq!(
        inv.get_hosts_for_pattern("@missing", &no_files()),
        Err(InventoryError::Io("missing".to_string()))
    );
    assert_eq!(inv.get_hosts_for_pattern("   ", &no_files()), Ok(Vec::new()));
}

#[test]
fn pattern_refuses_group_cycles() {
    let mut inv = Inventory::new();
    let mut a = Group::new("a");
    a.add_child("b");
    inv.add_group(a).unwrap();
    let mut b = Group::new("b");
    b.add_child("a");
    assert!(inv.add_group(b).is_err());
    assert_eq!(count(&inv, "all"), 0);
}

#[test]
fn ini_children_and_vars() {
    let mut inv = Inventory::new();
    inv.parse_ini(
        "; comment\n[web]\nweb1 role=front\n[web:vars]\nport_name = \"http\"\ncount=3\nratio=0.5\nflag=yes\nbig=18446744073709551615\n[prod:children]\nweb\nextra\n",
    )
    .unwrap();
    let web = inv.get_group("web").unwrap();
    assert_eq!(web.get_var("port_name"), Some(&VarValue::Str("http".to_string())));
    assert_eq!(web.get_var("count"), Some(&VarValue::Int(3)));
    assert_eq!(web.get_var("ratio"), Some(&VarValue::Float("0.5".to_string())));
    assert_eq!(web.get_var("flag"), Some(&VarValue::Bool(true)));
    assert_eq!(web.get_var("big"), Some(&VarValue::UInt(18446744073709551615)));
    let prod = inv.get_group("prod").unwrap();
    assert!(prod.has_child("web"));
    assert!(prod.has_child("extra"));
    assert!(inv.get_group("extra").is_some());
    let host = inv.get_host("web1").unwrap();
    assert!(host.in_group("web"));
    assert!(host.in_group("all"));
    assert_eq!(host.get_var("role"), Some(&VarValue::Str("front".to_string())));
    assert!(inv.get_group("all").unwrap().has_host("web1"));
}

#[test]
fn ini_host_in_two_groups_is_merged() {
    let mut inv = Inventory::new();
    inv.parse_ini("[a]\nh1 x=1\n[b]\nh1 y=2 ansible_port=2200\n").unwrap();
    assert_eq!(inv.host_count(), 1);
    let h = inv.get_host("h1").unwrap();
    assert!(h.in_group("a") && h.in_group("b"));
    assert_eq!(h.get_var("x"), Some(&VarValue::Str("1".to_string())));
    assert_eq!(h.get_var("y"), Some(&VarValue::Str("2".to_string())));
    assert_eq!(h.connection.ssh.port, 22);
}

#[test]
fn ini_errors_stop_reading() {
    let mut inv = Inventory::new();
    let r = inv.parse_ini("[a]\nh1\nh2 ansible_port=nope\nh3\n");
    assert!(matches!(r, Err(InventoryError::HostParse(HostParseError::InvalidPort(_)))));
    assert!(inv.get_host("h1").is_some());
    assert!(inv.get_host("h3").is_none());

    let mut inv = Inventory::new();
    let r = inv.parse_ini("[a:vars]\nansible_port=0\n");
    assert_eq!(
        r,
        Err(InventoryError::HostParse(HostParseError::InvalidPort(
            "expected an integer in 1..=65535".to_string()
        )))
    );

    let mut inv = Inventory::new();
    let r = inv.parse_ini("[a:vars]\nname='unterminated\n");
    assert_eq!(
        r,
        Err(InventoryError::InvalidIniFormat("unmatched quote in group variable".to_string()))
    );
}

#[test]
fn ini_values_are_typed() {
    assert_eq!(parse_ini_value(" \"hello world\" "), Ok(VarValue::Str("hello world".to_string())));
    assert_eq!(parse_ini_value("'a' 'b'"), Err(InventoryError::InvalidIniFormat(
        "quoted group variable must contain one value".to_string()
    )));
    assert_eq!(parse_ini_value("OFF"), Ok(VarValue::Bool(false)));
    assert_eq!(parse_ini_value("-12"), Ok(VarValue::Int(-12)));
    assert_eq!(parse_ini_value("1e3"), Ok(VarValue::Float("1e3".to_string())));
    assert_eq!(parse_ini_value(".5"), Ok(VarValue::Float(".5".to_string())));
    assert_eq!(parse_ini_value("1.2.3"), Ok(VarValue::Str("1.2.3".to_string())));
    assert_eq!(parse_ini_value("inf"), Ok(VarValue::Str("inf".to_string())));
    assert_eq!(quoted_ini_value(None), Err(InventoryError::InvalidIniFormat(
        "unmatched quote in group variable".to_string()
    )));
}

#[test]
fn inventory_ports_are_checked() {
    assert_eq!(parse_inventory_port(&VarValue::Int(2222)), Ok(2222));
    assert_eq!(parse_inventory_port(&VarValue::Str("+80".to_string())), Ok(80));
    assert!(parse_inventory_port(&VarValue::Int(0)).is_err());
    assert!(parse_inventory_port(&VarValue::UInt(70000)).is_err());
    assert!(parse_inventory_port(&VarValue::Bool(true)).is_err());
}
