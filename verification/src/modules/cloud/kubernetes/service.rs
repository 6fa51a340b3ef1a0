//! Kubernetes Services: what the module reports and when a Service needs an update.
use vstd::prelude::*;
use std::collections::BTreeMap;
use crate::inventory::data::Data;
use crate::inventory::host::opt_view;
use crate::modules::params::{
    i64_value, list_items, param_value, text_param, bool_param_or, value_text, ModuleParams, ParamExt,
};
use crate::modules::{ModuleClassification, ModuleError, ModuleResult, ParallelizationHint};
use crate::text::{copy_str, lowercase, views};
use super::{
    dns_label, invalid_name_message, invalid_state_message, invalid_type_message, labels_param, pair_views,
    parse_labels, parse_service_ports, port_view, ports_param, resource_state_named, service_type_named,
    validate_k8s_name, validate_k8s_namespace, K8sResourceState, ServicePort, ServiceType,
};

verus! {

/// A Service as the cluster reports it.
#[derive(Debug, Clone)]
pub struct ServiceInfo {
    /// Name.
    pub name: String,
    /// Namespace.
    pub namespace: String,
    /// Service type, as Kubernetes names it.
    pub service_type: String,
    /// Cluster IP address.
    pub cluster_ip: Option<String>,
    /// External IP addresses.
    pub external_ips: Vec<String>,
    /// Load balancer IP address.
    pub load_balancer_ip: Option<String>,
    /// Ports.
    pub ports: Vec<PortInfo>,
    /// Pod selector.
    pub selector: BTreeMap<String, String>,
    /// When the Service was created.
    pub creation_timestamp: String,
}

/// A port of a Service.
#[derive(Debug, Clone)]
pub struct PortInfo {
    /// Port the Service exposes.
    pub port: i32,
    /// Port of the pods traffic goes to.
    pub target_port: Option<i32>,
    /// Port opened on every node.
    pub node_port: Option<i32>,
    /// Protocol.
    pub protocol: String,
    /// Port name.
    pub name: Option<String>,
}

/// Whether an existing Service differs from the wanted one in what the module
/// compares: the type, the number of ports, or the selector.
pub fn needs_update(existing_type: &str, wanted_type: &str, existing_ports: usize, wanted_ports: usize, selector_equal: bool) -> (r: bool)
    ensures
        r == (existing_type@ != wanted_type@ || existing_ports != wanted_ports || !selector_equal),
{
    !crate::text::str_equal(existing_type, wanted_type) || existing_ports != wanted_ports || !selector_equal
}

/// Module for Kubernetes Services.
pub struct K8sServiceModule;

impl K8sServiceModule {
    /// The module's name.
    pub fn name(&self) -> (r: &'static str)
        ensures
            r@ == "k8s_service"@,
    {
        "k8s_service"
    }

    /// What the module does.
    pub fn description(&self) -> (r: &'static str)
        ensures
            r@ == "Manage Kubernetes Services"@,
    {
        "Manage Kubernetes Services"
    }

    /// The module talks to the API from the control node.
    pub fn classification(&self) -> (r: ModuleClassification)
        ensures
            r == ModuleClassification::LocalLogic,
    {
        ModuleClassification::LocalLogic
    }

    /// Calls to the API are limited to twenty a second.
    pub fn parallelization_hint(&self) -> (r: ParallelizationHint)
        ensures
            r == (ParallelizationHint::RateLimited { requests_per_second: 20 }),
    {
        ParallelizationHint::RateLimited { requests_per_second: 20 }
    }

    /// The parameters the module cannot run without.
    pub fn required_params(&self) -> (r: &'static [&'static str])
        ensures
            r@.len() == 1,
            r@[0]@ == "name"@,
    {
        &["name"]
    }
}

/// A Service as the module's parameters describe it.
#[derive(Debug, Clone)]
pub struct ServiceConfig {
    /// Name.
    pub name: String,
    /// Namespace.
    pub namespace: String,
    /// Whether the Service should exist.
    pub state: K8sResourceState,
    /// Service type.
    pub service_type: ServiceType,
    /// Pod selector.
    pub selector: Vec<(String, String)>,
    /// Ports.
    pub ports: Vec<ServicePort>,
    /// Cluster IP address.
    pub cluster_ip: Option<String>,
    /// External IP addresses.
    pub external_ips: Vec<String>,
    /// Requested load balancer IP address.
    pub load_balancer_ip: Option<String>,
    /// Source ranges the load balancer accepts.
    pub load_balancer_source_ranges: Vec<String>,
    /// External DNS name.
    pub external_name: Option<String>,
    /// Session affinity.
    pub session_affinity: Option<String>,
    /// Session affinity timeout, in seconds.
    pub session_affinity_timeout: Option<i32>,
    /// External traffic policy.
    pub external_traffic_policy: Option<String>,
    /// Internal traffic policy.
    pub internal_traffic_policy: Option<String>,
    /// Node port of the health check.
    pub health_check_node_port: Option<i32>,
    /// Whether addresses that are not ready are published.
    pub publish_not_ready_addresses: bool,
    /// Labels of the Service.
    pub labels: Vec<(String, String)>,
    /// Annotations of the Service.
    pub annotations: Vec<(String, String)>,
    /// Path of the kubeconfig file.
    pub kubeconfig: Option<String>,
    /// Kubeconfig context.
    pub context: Option<String>,
}

/// The namespace the parameters name, `default` when they name none.
pub open spec fn namespace_of(p: Seq<(String, Data)>) -> Seq<char> {
    match text_param(p, "namespace"@) {
        Some(n) => n,
        None => "default"@,
    }
}

/// What is wrong with the parameters of a Service, first come first: a
/// missing name (`(true, "name")`), else an invalid name, namespace, state or
/// type, or a list or integer parameter that is not one (`(false, message)`).
pub open spec fn service_params_problem(p: Seq<(String, Data)>) -> Option<(bool, Seq<char>)> {
    match text_param(p, "name"@) {
        None => Some((true, "name"@)),
        Some(name) => {
            let ns = namespace_of(p);
            if !dns_label(name) {
                Some((false, invalid_name_message("name"@, name)))
            } else if !dns_label(ns) {
                Some((false, invalid_name_message("namespace"@, ns)))
            } else if text_param(p, "state"@) is Some && resource_state_named(
                lowercase(text_param(p, "state"@).unwrap()),
            ) is None {
                Some((false, invalid_state_message(text_param(p, "state"@).unwrap())))
            } else if text_param(p, "type"@) is Some && service_type_named(
                lowercase(text_param(p, "type"@).unwrap()),
            ) is None {
                Some((false, invalid_type_message(text_param(p, "type"@).unwrap())))
            } else if param_value(p, "external_ips"@) is Some && list_items(param_value(p, "external_ips"@).unwrap()) is None {
                Some((false, "external_ips must be an array"@))
            } else if param_value(p, "load_balancer_source_ranges"@) is Some && list_items(
                param_value(p, "load_balancer_source_ranges"@).unwrap(),
            ) is None {
                Some((false, "load_balancer_source_ranges must be an array"@))
            } else if param_value(p, "session_affinity_timeout"@) is Some && i64_value(
                param_value(p, "session_affinity_timeout"@).unwrap(),
            ) is None {
                Some((false, "session_affinity_timeout must be an integer"@))
            } else if param_value(p, "health_check_node_port"@) is Some && i64_value(
                param_value(p, "health_check_node_port"@).unwrap(),
            ) is None {
                Some((false, "health_check_node_port must be an integer"@))
            } else {
                None
            }
        },
    }
}

/// The items of a list parameter, none when it is missing.
pub open spec fn list_param(p: Seq<(String, Data)>, key: Seq<char>) -> Seq<Seq<char>> {
    match param_value(p, key) {
        Some(d) => match list_items(d) {
            Some(items) => items,
            None => Seq::empty(),
        },
        None => Seq::empty(),
    }
}

/// An integer parameter cut to `i32`, if it is given.
pub open spec fn i32_param(p: Seq<(String, Data)>, key: Seq<char>) -> Option<i32> {
    match param_value(p, key) {
        Some(d) => match i64_value(d) {
            Some(v) => Some(v as i32),
            None => None,
        },
        None => None,
    }
}

/// The Service the parameters describe, when nothing is wrong with them:
/// state and type default to `present` and `ClusterIP`, lists to empty, the
/// selector, labels and annotations to none.
pub open spec fn service_config_of(p: Seq<(String, Data)>, c: ServiceConfig) -> bool {
    &&& Some(c.name@) == text_param(p, "name"@)
    &&& c.namespace@ == namespace_of(p)
    &&& c.state == match text_param(p, "state"@) {
        Some(t) => resource_state_named(lowercase(t)).unwrap(),
        None => K8sResourceState::Present,
    }
    &&& c.service_type == match text_param(p, "type"@) {
        Some(t) => service_type_named(lowercase(t)).unwrap(),
        None => ServiceType::ClusterIP,
    }
    &&& pair_views(c.selector@) == labels_param(param_value(p, "selector"@))
    &&& c.ports@.map_values(|x: ServicePort| port_view(x)) == ports_param(param_value(p, "ports"@))
    &&& opt_view(c.cluster_ip) == text_param(p, "cluster_ip"@)
    &&& views(c.external_ips@) == list_param(p, "external_ips"@)
    &&& opt_view(c.load_balancer_ip) == text_param(p, "load_balancer_ip"@)
    &&& views(c.load_balancer_source_ranges@) == list_param(p, "load_balancer_source_ranges"@)
    &&& opt_view(c.external_name) == text_param(p, "external_name"@)
    &&& opt_view(c.session_affinity) == text_param(p, "session_affinity"@)
    &&& c.session_affinity_timeout == i32_param(p, "session_affinity_timeout"@)
    &&& opt_view(c.external_traffic_policy) == text_param(p, "external_traffic_policy"@)
    &&& opt_view(c.internal_traffic_policy) == text_param(p, "internal_traffic_policy"@)
    &&& c.health_check_node_port == i32_param(p, "health_check_node_port"@)
    &&& c.publish_not_ready_addresses == bool_param_or(p, "publish_not_ready_addresses"@, false)
    &&& pair_views(c.labels@) == labels_param(param_value(p, "labels"@))
    &&& pair_views(c.annotations@) == labels_param(param_value(p, "annotations"@))
    &&& opt_view(c.kubeconfig) == text_param(p, "kubeconfig"@)
    &&& opt_view(c.context) == text_param(p, "context"@)
}

/// The value of a parameter, if it is given.
pub(crate) fn param_ref<'a>(params: &'a ModuleParams, key: &str) -> (r: Option<&'a Data>)
    ensures
        match r {
            Some(d) => param_value(params@, key@) == Some(*d),
            None => param_value(params@, key@) is None,
        },
{
    match crate::modules::params::find_param(params, key) {
        Some(i) => Some(&params[i].1),
        None => None,
    }
}

/// An integer parameter cut to `i32`.
fn i32_of(params: &ModuleParams, key: &str) -> (r: ModuleResult<Option<i32>>)
    ensures
        match param_value(params@, key@) {
            None => r matches Ok(None),
            Some(d) => match i64_value(d) {
                Some(v) => r matches Ok(Some(x)) && x == v as i32,
                None => r matches Err(ModuleError::InvalidParameter(m)) && m@ == key@ + " must be an integer"@,
            },
        },
{
    match params.get_i64(key) {
        Ok(Some(v)) => Ok(Some(#[verifier::truncate] (v as i32))),
        Ok(None) => Ok(None),
        Err(e) => Err(e),
    }
}

/// A list parameter, empty when it is missing.
fn list_of(params: &ModuleParams, key: &str) -> (r: ModuleResult<Vec<String>>)
    ensures
        match param_value(params@, key@) {
            Some(d) => match list_items(d) {
                Some(items) => r matches Ok(v) && views(v@) == items,
                None => r matches Err(ModuleError::InvalidParameter(m)) && m@ == key@ + " must be an array"@,
            },
            None => r matches Ok(v) && v@.len() == 0,
        },
{
    match params.get_vec_string(key) {
        Ok(Some(v)) => Ok(v),
        Ok(None) => Ok(Vec::new()),
        Err(e) => Err(e),
    }
}

/// Reads a Service from the module's parameters.
pub fn service_config_from_params(params: &ModuleParams) -> (r: ModuleResult<ServiceConfig>)
    ensures
        match service_params_problem(params@) {
            Some((true, m)) => r matches Err(ModuleError::MissingParameter(x)) && x@ == m,
            Some((false, m)) => r matches Err(ModuleError::InvalidParameter(x)) && x@ == m,
            None => r matches Ok(c) && service_config_of(params@, c),
        },
{
    let name = match params.get_string_required("name") {
        Ok(n) => n,
        Err(e) => return Err(e),
    };
    match validate_k8s_name(name.as_str()) {
        Ok(()) => {},
        Err(e) => return Err(e),
    }
    let namespace = match params.get_string("namespace") {
        Ok(Some(n)) => n,
        _ => copy_str("default"),
    };
    match validate_k8s_namespace(namespace.as_str()) {
        Ok(()) => {},
        Err(e) => return Err(e),
    }
    let state = match params.get_string("state") {
        Ok(Some(t)) => match K8sResourceState::from_str(t.as_str()) {
            Ok(st) => st,
            Err(e) => return Err(e),
        },
        _ => K8sResourceState::Present,
    };
    let service_type = match params.get_string("type") {
        Ok(Some(t)) => match ServiceType::from_str(t.as_str()) {
            Ok(st) => st,
            Err(e) => return Err(e),
        },
        _ => ServiceType::ClusterIP,
    };
    let selector = parse_labels(param_ref(params, "selector"));
    let ports = parse_service_ports(param_ref(params, "ports"));
    proof {
        let p = params@;
        assert(text_param(p, "name"@) == Some(name@));
        assert(dns_label(name@));
        assert(namespace_of(p) == namespace@);
        assert(dns_label(namespace@));
        assert(text_param(p, "state"@) is Some ==> resource_state_named(lowercase(text_param(p, "state"@).unwrap())) is Some);
        assert(text_param(p, "type"@) is Some ==> service_type_named(lowercase(text_param(p, "type"@).unwrap())) is Some);
    }
    proof {
        reveal_strlit("external_ips");
        reveal_strlit("load_balancer_source_ranges");
        reveal_strlit("session_affinity_timeout");
        reveal_strlit("health_check_node_port");
        reveal_strlit(" must be an array");
        reveal_strlit(" must be an integer");
        reveal_strlit("external_ips must be an array");
        reveal_strlit("load_balancer_source_ranges must be an array");
        reveal_strlit("session_affinity_timeout must be an integer");
        reveal_strlit("health_check_node_port must be an integer");
        assert("external_ips"@ + " must be an array"@ =~= "external_ips must be an array"@);
        assert("load_balancer_source_ranges"@ + " must be an array"@ =~= "load_balancer_source_ranges must be an array"@);
        assert("session_affinity_timeout"@ + " must be an integer"@ =~= "session_affinity_timeout must be an integer"@);
        assert("health_check_node_port"@ + " must be an integer"@ =~= "health_check_node_port must be an integer"@);
    }
    let external_ips = match list_of(params, "external_ips") {
        Ok(v) => v,
        Err(e) => return Err(e),
    };
    let load_balancer_source_ranges = match list_of(params, "load_balancer_source_ranges") {
        Ok(v) => v,
        Err(e) => return Err(e),
    };
    let labels = parse_labels(param_ref(params, "labels"));
    let annotations = parse_labels(param_ref(params, "annotations"));
    let text = |k: &str| -> (r: Option<String>)
        ensures
            opt_view(r) == text_param(params@, k@),
    {
        match params.get_string(k) {
            Ok(v) => v,
            Err(_) => None,
        }
    };
    let cluster_ip = text("cluster_ip");
    let load_balancer_ip = text("load_balancer_ip");
    let external_name = text("external_name");
    let session_affinity = text("session_affinity");
    let session_affinity_timeout = match i32_of(params, "session_affinity_timeout") {
        Ok(v) => v,
        Err(e) => return Err(e),
    };
    let external_traffic_policy = text("external_traffic_policy");
    let internal_traffic_policy = text("internal_traffic_policy");
    let health_check_node_port = match i32_of(params, "health_check_node_port") {
        Ok(v) => v,
        Err(e) => return Err(e),
    };
    let publish_not_ready_addresses = params.get_bool_or("publish_not_ready_addresses", false);
    let kubeconfig = text("kubeconfig");
    let context = text("context");
    let c = ServiceConfig {
        name,
        namespace,
        state,
        service_type,
        selector,
        ports,
        cluster_ip,
        external_ips,
        load_balancer_ip,
        load_balancer_source_ranges,
        external_name,
        session_affinity,
        session_affinity_timeout,
        external_traffic_policy,
        internal_traffic_policy,
        health_check_node_port,
        publish_not_ready_addresses,
        labels,
        annotations,
        kubeconfig,
        context,
    };
    proof {
        let p = params@;
        assert(Some(c.name@) == text_param(p, "name"@));
        assert(c.namespace@ == namespace_of(p));
        assert(pair_views(c.selector@) == labels_param(param_value(p, "selector"@)));
        assert(c.ports@.map_values(|x: ServicePort| port_view(x)) == ports_param(param_value(p, "ports"@)));
        assert(opt_view(c.cluster_ip) == text_param(p, "cluster_ip"@));
        assert(views(c.external_ips@) == list_param(p, "external_ips"@));
        assert(c.session_affinity_timeout == i32_param(p, "session_affinity_timeout"@));
        assert(c.publish_not_ready_addresses == bool_param_or(p, "publish_not_ready_addresses"@, false));
        assert(c.state == match text_param(p, "state"@) {
            Some(t) => resource_state_named(lowercase(t)).unwrap(),
            None => K8sResourceState::Present,
        });
        assert(c.service_type == match text_param(p, "type"@) {
            Some(t) => service_type_named(lowercase(t)).unwrap(),
            None => ServiceType::ClusterIP,
        });
        assert(service_params_problem(p) is None);
        assert(opt_view(c.load_balancer_ip) == text_param(p, "load_balancer_ip"@));
        assert(views(c.load_balancer_source_ranges@) == list_param(p, "load_balancer_source_ranges"@));
        assert(opt_view(c.external_name) == text_param(p, "external_name"@));
        assert(opt_view(c.session_affinity) == text_param(p, "session_affinity"@));
        assert(opt_view(c.external_traffic_policy) == text_param(p, "external_traffic_policy"@));
        assert(opt_view(c.internal_traffic_policy) == text_param(p, "internal_traffic_policy"@));
        assert(c.health_check_node_port == i32_param(p, "health_check_node_port"@));
        assert(pair_views(c.labels@) == labels_param(param_value(p, "labels"@)));
        assert(pair_views(c.annotations@) == labels_param(param_value(p, "annotations"@)));
        assert(opt_view(c.kubeconfig) == text_param(p, "kubeconfig"@));
        assert(opt_view(c.context) == text_param(p, "context"@));
        assert(service_config_of(p, c));
    }
    Ok(c)
}

} // verus!
