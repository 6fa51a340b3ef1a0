use rustible::inventory::data::Data;
use rustible::modules::cloud::kubernetes::service::service_config_from_params;
use rustible::modules::cloud::kubernetes::ServiceType;
use rustible::modules::cloud::kubernetes::configmap::{
    absent_report, check_has_entries, configmap_config_from_params, present_action, present_report,
    validate_configmap_key, K8sConfigMapModule, PresentAction,
};
use rustible::modules::cloud::kubernetes::service::{needs_update, K8sServiceModule};
use rustible::modules::{ModuleClassification, ModuleError, ParallelizationHint};

#[test]
fn test_configmap_module_metadata() {
    let module = K8sConfigMapModule;
    assert_eq!(module.name(), "k8s_configmap");
    assert_eq!(module.classification(), ModuleClassification::LocalLogic);
    assert_eq!(module.required_params(), &["name"]);
}

#[test]
fn test_validate_configmap_key_valid() {
    assert!(validate_configmap_key("config.yaml").is_ok());
    assert!(validate_configmap_key("DATABASE_URL").is_ok());
    assert!(validate_configmap_key("app-config").is_ok());
    assert!(validate_configmap_key("config_file.json").is_ok());
}

#[test]
fn test_validate_configmap_key_invalid() {
    assert!(validate_configmap_key("").is_err());
    assert!(validate_configmap_key("key/with/slashes").is_err());
    assert!(validate_configmap_key("key with spaces").is_err());
}

#[test]
fn test_service_module_metadata() {
    let module = K8sServiceModule;
    assert_eq!(module.name(), "k8s_service");
    assert_eq!(module.classification(), ModuleClassification::LocalLogic);
    assert_eq!(module.required_params(), &["name"]);
}

#[test]
fn configmap_key_errors_name_the_problem() {
    assert_eq!(
        validate_configmap_key("a/b").unwrap_err(),
        ModuleError::InvalidParameter(
            "ConfigMap key 'a/b' contains invalid character '/'. Only alphanumeric, '-', '_', and '.' are allowed"
                .to_string()
        )
    );
    let long = "k".repeat(254);
    assert_eq!(
        validate_configmap_key(&long).unwrap_err(),
        ModuleError::InvalidParameter(format!("ConfigMap key '{}' exceeds 253 character limit", long))
    );
    assert!(validate_configmap_key(&"k".repeat(253)).is_ok());
}

#[test]
fn configmap_decisions() {
    assert_eq!(present_action("c", None, true).unwrap(), PresentAction::Create);
    assert_eq!(present_action("c", Some(false), true).unwrap(), PresentAction::Update);
    assert_eq!(present_action("c", Some(false), false).unwrap(), PresentAction::UpToDate);
    assert_eq!(present_action("c", Some(true), false).unwrap(), PresentAction::ImmutableUpToDate);
    assert_eq!(
        present_action("c", Some(true), true).unwrap_err(),
        ModuleError::ExecutionFailed(
            "ConfigMap 'c' is immutable and cannot be updated. Delete and recreate to change.".to_string()
        )
    );
    assert_eq!(present_report("c", PresentAction::Update, true), (true, "Would update ConfigMap 'c'".to_string()));
    assert_eq!(present_report("c", PresentAction::Create, false), (true, "Created ConfigMap 'c'".to_string()));
    assert_eq!(present_report("c", PresentAction::UpToDate, false), (false, "ConfigMap 'c' is up to date".to_string()));
    assert_eq!(absent_report("c", false, false), (false, "ConfigMap 'c' does not exist".to_string()));
    assert_eq!(absent_report("c", true, true), (true, "Would delete ConfigMap 'c'".to_string()));
    assert!(check_has_entries(0, 0).is_err());
    assert!(check_has_entries(0, 1).is_ok());
}

#[test]
fn kubernetes_rate_limits() {
    assert_eq!(
        K8sConfigMapModule.parallelization_hint(),
        ParallelizationHint::RateLimited { requests_per_second: 20 }
    );
    assert_eq!(
        K8sServiceModule.parallelization_hint(),
        ParallelizationHint::RateLimited { requests_per_second: 20 }
    );
}

#[test]
fn service_update_rules() {
    assert!(!needs_update("ClusterIP", "ClusterIP", 1, 1, true));
    assert!(needs_update("ClusterIP", "NodePort", 1, 1, true));
    assert!(needs_update("ClusterIP", "ClusterIP", 1, 2, true));
    assert!(needs_update("ClusterIP", "ClusterIP", 1, 1, false));
}

fn svc_str(x: &str) -> rustible::inventory::data::Data {
    rustible::inventory::data::Data::Str(x.to_string())
}

fn svc_map(entries: Vec<(&str, rustible::inventory::data::Data)>) -> rustible::inventory::data::Data {
    rustible::inventory::data::Data::Mapping(entries.into_iter().map(|(k, v)| (svc_str(k), v)).collect(), String::new())
}

fn svc_params(pairs: Vec<(&str, rustible::inventory::data::Data)>) -> rustible::modules::params::ModuleParams {
    pairs.into_iter().map(|(k, v)| (k.to_string(), v)).collect()
}

fn svc_ports(items: Vec<rustible::inventory::data::Data>) -> rustible::inventory::data::Data {
    rustible::inventory::data::Data::List(items, String::new())
}

#[test]
fn test_service_config_basic() {
    let params = svc_params(vec![
        ("name", svc_str("nginx-svc")),
        ("selector", svc_map(vec![("app", svc_str("nginx"))])),
        ("ports", svc_ports(vec![svc_map(vec![("port", Data::Int(80)), ("target_port", Data::Int(80))])])),
    ]);
    let config = service_config_from_params(&params).unwrap();
    assert_eq!(config.name, "nginx-svc");
    assert_eq!(config.namespace, "default");
    assert_eq!(config.service_type, ServiceType::ClusterIP);
    assert_eq!(config.ports.len(), 1);
    assert_eq!(config.ports[0].port, 80);
    assert_eq!(config.ports[0].protocol, "TCP");
    assert_eq!(config.selector, vec![("app".to_string(), "nginx".to_string())]);
}

#[test]
fn test_service_config_nodeport() {
    let params = svc_params(vec![
        ("name", svc_str("nginx-nodeport")),
        ("type", svc_str("NodePort")),
        ("ports", svc_ports(vec![svc_map(vec![("port", Data::Int(80)), ("target_port", Data::Int(80)), ("node_port", Data::Int(30080))])])),
    ]);
    let config = service_config_from_params(&params).unwrap();
    assert_eq!(config.service_type, ServiceType::NodePort);
    assert_eq!(config.ports[0].node_port, Some(30080));
}

#[test]
fn test_service_config_loadbalancer() {
    let params = svc_params(vec![
        ("name", svc_str("nginx-lb")),
        ("type", svc_str("LoadBalancer")),
        ("load_balancer_ip", svc_str("192.168.1.100")),
        ("ports", svc_ports(vec![svc_map(vec![("port", Data::Int(80)), ("target_port", Data::Int(80))])])),
    ]);
    let config = service_config_from_params(&params).unwrap();
    assert_eq!(config.service_type, ServiceType::LoadBalancer);
    assert_eq!(config.load_balancer_ip, Some("192.168.1.100".to_string()));
}

#[test]
fn test_service_config_headless() {
    let params = svc_params(vec![
        ("name", svc_str("headless-svc")),
        ("type", svc_str("Headless")),
        ("ports", svc_ports(vec![svc_map(vec![("port", Data::Int(80)), ("target_port", Data::Int(80))])])),
    ]);
    assert_eq!(service_config_from_params(&params).unwrap().service_type, ServiceType::Headless);
}

#[test]
fn test_service_config_with_annotations() {
    let params = svc_params(vec![
        ("name", svc_str("nginx-svc")),
        ("annotations", svc_map(vec![("service.beta.kubernetes.io/aws-load-balancer-type", svc_str("nlb"))])),
        ("ports", svc_ports(vec![svc_map(vec![("port", Data::Int(80))])])),
    ]);
    let config = service_config_from_params(&params).unwrap();
    assert!(config.annotations.iter().any(|(k, _)| k == "service.beta.kubernetes.io/aws-load-balancer-type"));
}

#[test]
fn service_config_refusals() {
    assert_eq!(
        service_config_from_params(&svc_params(vec![])).unwrap_err(),
        ModuleError::MissingParameter("name".to_string())
    );
    assert!(matches!(
        service_config_from_params(&svc_params(vec![("name", svc_str("Invalid_Name"))])),
        Err(ModuleError::InvalidParameter(_))
    ));
    assert!(service_config_from_params(&svc_params(vec![("name", svc_str("a")), ("state", svc_str("gone"))])).is_err());
    assert!(service_config_from_params(&svc_params(vec![("name", svc_str("a")), ("type", svc_str("Nope"))])).is_err());
    assert_eq!(
        service_config_from_params(&svc_params(vec![("name", svc_str("a")), ("external_ips", Data::Bool(true))])).unwrap_err(),
        ModuleError::InvalidParameter("external_ips must be an array".to_string())
    );
    let skipped = service_config_from_params(&svc_params(vec![
        ("name", svc_str("a")),
        ("ports", svc_ports(vec![svc_str("80"), svc_map(vec![("port", Data::Int(8080)), ("protocol", svc_str("UDP"))])])),
    ]))
    .unwrap();
    assert_eq!(skipped.ports.len(), 1);
    assert_eq!((skipped.ports[0].port, skipped.ports[0].protocol.as_str()), (8080, "UDP"));
    assert!(skipped.external_ips.is_empty());
}

fn entry<'a>(list: &'a [(String, String)], key: &str) -> Option<&'a String> {
    list.iter().find(|(k, _)| k == key).map(|(_, v)| v)
}

#[test]
fn test_configmap_config_basic() {
    let params = svc_params(vec![
        ("name", svc_str("app-config")),
        (
            "data",
            svc_map(vec![
                ("DATABASE_URL", svc_str("postgres://localhost:5432/mydb")),
                ("LOG_LEVEL", svc_str("info")),
            ]),
        ),
    ]);
    let config = configmap_config_from_params(&params).unwrap();
    assert_eq!(config.name, "app-config");
    assert_eq!(config.namespace, "default");
    assert_eq!(config.data.len(), 2);
    assert_eq!(entry(&config.data, "DATABASE_URL"), Some(&"postgres://localhost:5432/mydb".to_string()));
}

#[test]
fn test_configmap_config_with_multiline() {
    let params = svc_params(vec![
        ("name", svc_str("nginx-config")),
        ("data", svc_map(vec![("nginx.conf", svc_str("server {\n  listen 80;\n  server_name localhost;\n}"))])),
    ]);
    let config = configmap_config_from_params(&params).unwrap();
    assert!(entry(&config.data, "nginx.conf").unwrap().contains("listen 80"));
}

#[test]
fn test_configmap_config_immutable() {
    let params = svc_params(vec![
        ("name", svc_str("immutable-config")),
        ("data", svc_map(vec![("VERSION", svc_str("1.0.0"))])),
        ("immutable", Data::Bool(true)),
    ]);
    let config = configmap_config_from_params(&params).unwrap();
    assert!(config.immutable);
}

#[test]
fn test_configmap_config_with_labels() {
    let params = svc_params(vec![
        ("name", svc_str("app-config")),
        ("data", svc_map(vec![("key", svc_str("value"))])),
        ("labels", svc_map(vec![("app", svc_str("myapp")), ("environment", svc_str("production"))])),
    ]);
    let config = configmap_config_from_params(&params).unwrap();
    assert_eq!(entry(&config.labels, "app"), Some(&"myapp".to_string()));
    assert_eq!(entry(&config.labels, "environment"), Some(&"production".to_string()));
}

#[test]
fn configmap_literals_extend_data() {
    let params = svc_params(vec![
        ("name", svc_str("app-config")),
        ("namespace", svc_str("prod")),
        ("state", svc_str("ABSENT")),
        ("data", svc_map(vec![("a", svc_str("1")), ("b", svc_str("2"))])),
        ("from_literal", svc_map(vec![("b", svc_str("3")), ("c", Data::Int(4))])),
    ]);
    let config = configmap_config_from_params(&params).unwrap();
    assert_eq!(config.namespace, "prod");
    assert_eq!(
        config.data,
        vec![
            ("a".to_string(), "1".to_string()),
            ("b".to_string(), "3".to_string()),
            ("c".to_string(), "4".to_string()),
        ]
    );
    assert!(!config.immutable);
    let missing = svc_params(vec![("data", svc_map(vec![]))]);
    assert!(matches!(
        configmap_config_from_params(&missing),
        Err(ModuleError::MissingParameter(m)) if m == "name"
    ));
    let bad = svc_params(vec![("name", svc_str("Bad_Name"))]);
    assert!(matches!(configmap_config_from_params(&bad), Err(ModuleError::InvalidParameter(_))));
}
