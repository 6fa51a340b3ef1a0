//! Kubernetes resource modules, and what they share: resource names, the
//! desired state, Service types and ports, and label maps read from
//! parameters.
pub mod configmap;
pub mod service;

use vstd::prelude::*;
use crate::inventory::data::{find_entry, map_get, str_of, Data};
use crate::inventory::host::opt_view;
use crate::modules::params::{value_text, value_text_of};
use crate::modules::{ModuleError, ModuleResult};
use crate::text::{concat3, copy_str, is_ascii_digit, is_ascii_lower, str_equal, str_to_lowercase, lowercase};

verus! {

/// A character a DNS label may hold: a lowercase ASCII letter, a digit or `-`.
pub open spec fn label_char(c: char) -> bool {
    is_ascii_lower(c) || is_ascii_digit(c) || c == '-'
}

/// A Kubernetes resource or namespace name: an RFC 1123 DNS label, that is
/// one to 63 lowercase letters, digits and `-`, beginning and ending with a
/// letter or a digit.
pub open spec fn dns_label(s: Seq<char>) -> bool {
    &&& 1 <= s.len() <= 63
    &&& forall|i: int| 0 <= i < s.len() ==> label_char(#[trigger] s[i])
    &&& s[0] != '-'
    &&& s.last() != '-'
}

/// Whether a text is a DNS label.
fn is_dns_label(s: &str) -> (r: bool)
    ensures
        r == dns_label(s@),
{
    let cs = crate::text::chars_of(s);
    let n = cs.len();
    if n < 1 || n > 63 || cs[0] == '-' || cs[n - 1] == '-' {
        return false;
    }
    let mut i: usize = 0;
    while i < n
        invariant
            i <= n == cs@.len(),
            cs@ == s@,
            forall|k: int| 0 <= k < i ==> label_char(#[trigger] cs@[k]),
        decreases n - i,
    {
        let c = cs[i];
        if !(('a' <= c && c <= 'z') || ('0' <= c && c <= '9') || c == '-') {
            proof {
                assert(!label_char(cs@[i as int]));
            }
            return false;
        }
        i = i + 1;
    }
    true
}

/// The message for a name that is not a DNS label.
pub open spec fn invalid_name_message(what: Seq<char>, s: Seq<char>) -> Seq<char> {
    "Invalid "@ + what + " '"@ + s + "': must be 1-63 lowercase letters, digits or '-', beginning and ending with a letter or digit"@
}

/// Checks a resource name.
pub fn validate_k8s_name(name: &str) -> (r: ModuleResult<()>)
    ensures
        dns_label(name@) ==> r is Ok,
        !dns_label(name@) ==> (r matches Err(ModuleError::InvalidParameter(m)) && m@ == invalid_name_message("name"@, name@)),
{
    if is_dns_label(name) {
        Ok(())
    } else {
        let head = concat3("Invalid ", "name", " '");
        let m = concat3(
            head.as_str(),
            name,
            "': must be 1-63 lowercase letters, digits or '-', beginning and ending with a letter or digit",
        );
        proof {
            assert(m@ =~= invalid_name_message("name"@, name@));
        }
        Err(ModuleError::InvalidParameter(m))
    }
}

/// Checks a namespace name.
pub fn validate_k8s_namespace(namespace: &str) -> (r: ModuleResult<()>)
    ensures
        dns_label(namespace@) ==> r is Ok,
        !dns_label(namespace@) ==> (r matches Err(ModuleError::InvalidParameter(m))
            && m@ == invalid_name_message("namespace"@, namespace@)),
{
    if is_dns_label(namespace) {
        Ok(())
    } else {
        let head = concat3("Invalid ", "namespace", " '");
        let m = concat3(
            head.as_str(),
            namespace,
            "': must be 1-63 lowercase letters, digits or '-', beginning and ending with a letter or digit",
        );
        proof {
            assert(m@ =~= invalid_name_message("namespace"@, namespace@));
        }
        Err(ModuleError::InvalidParameter(m))
    }
}

/// Whether a resource should exist.
#[derive(Debug, Clone, Copy, PartialEq, Eq, Structural)]
pub enum K8sResourceState {
    /// The resource exists (the default).
    Present,
    /// The resource does not exist.
    Absent,
}

/// The state an already lowercased word names, if any.
pub open spec fn resource_state_named(lower: Seq<char>) -> Option<K8sResourceState> {
    if lower == "present"@ {
        Some(K8sResourceState::Present)
    } else if lower == "absent"@ {
        Some(K8sResourceState::Absent)
    } else {
        None
    }
}

/// The message for a state that is not one.
pub open spec fn invalid_state_message(s: Seq<char>) -> Seq<char> {
    "Invalid state '"@ + s + "'. Valid states: present, absent"@
}

impl K8sResourceState {
    /// Parses a state, ignoring case.
    pub fn from_str(s: &str) -> (r: ModuleResult<K8sResourceState>)
        ensures
            match resource_state_named(lowercase(s@)) {
                Some(st) => r == Ok::<K8sResourceState, ModuleError>(st),
                None => r matches Err(ModuleError::InvalidParameter(m)) && m@ == invalid_state_message(s@),
            },
    {
        let l = str_to_lowercase(s);
        if str_equal(l.as_str(), "present") {
            Ok(K8sResourceState::Present)
        } else if str_equal(l.as_str(), "absent") {
            Ok(K8sResourceState::Absent)
        } else {
            Err(ModuleError::InvalidParameter(concat3("Invalid state '", s, "'. Valid states: present, absent")))
        }
    }
}

/// The kind of a Service.
#[derive(Debug, Clone, Copy, PartialEq, Eq, Structural)]
pub enum ServiceType {
    /// Reachable inside the cluster (the default).
    ClusterIP,
    /// Also reachable on a port of every node.
    NodePort,
    /// Also reachable through a cloud load balancer.
    LoadBalancer,
    /// An alias for an outside DNS name.
    ExternalName,
    /// Without a cluster IP, for StatefulSets.
    Headless,
}

/// The Service type an already lowercased word names, if any.
pub open spec fn service_type_named(lower: Seq<char>) -> Option<ServiceType> {
    if lower == "clusterip"@ {
        Some(ServiceType::ClusterIP)
    } else if lower == "nodeport"@ {
        Some(ServiceType::NodePort)
    } else if lower == "loadbalancer"@ {
        Some(ServiceType::LoadBalancer)
    } else if lower == "externalname"@ {
        Some(ServiceType::ExternalName)
    } else if lower == "headless"@ {
        Some(ServiceType::Headless)
    } else {
        None
    }
}

/// The message for a Service type that is not one.
pub open spec fn invalid_type_message(s: Seq<char>) -> Seq<char> {
    "Invalid service type '"@ + s + "'. Valid types: ClusterIP, NodePort, LoadBalancer, ExternalName, Headless"@
}

impl ServiceType {
    /// Parses a Service type, ignoring case.
    pub fn from_str(s: &str) -> (r: ModuleResult<ServiceType>)
        ensures
            match service_type_named(lowercase(s@)) {
                Some(t) => r == Ok::<ServiceType, ModuleError>(t),
                None => r matches Err(ModuleError::InvalidParameter(m)) && m@ == invalid_type_message(s@),
            },
    {
        let l = str_to_lowercase(s);
        let w = l.as_str();
        if str_equal(w, "clusterip") {
            Ok(ServiceType::ClusterIP)
        } else if str_equal(w, "nodeport") {
            Ok(ServiceType::NodePort)
        } else if str_equal(w, "loadbalancer") {
            Ok(ServiceType::LoadBalancer)
        } else if str_equal(w, "externalname") {
            Ok(ServiceType::ExternalName)
        } else if str_equal(w, "headless") {
            Ok(ServiceType::Headless)
        } else {
            Err(ModuleError::InvalidParameter(concat3(
                "Invalid service type '",
                s,
                "'. Valid types: ClusterIP, NodePort, LoadBalancer, ExternalName, Headless",
            )))
        }
    }
}

/// A port of a Service.
#[derive(Debug, Clone, PartialEq, Eq)]
pub struct ServicePort {
    /// Port the Service exposes.
    pub port: i32,
    /// Port of the pods traffic goes to.
    pub target_port: Option<i32>,
    /// Port opened on every node.
    pub node_port: Option<i32>,
    /// Protocol.
    pub protocol: String,
    /// Port name.
    pub name: Option<String>,
}

/// A port as `(port, target_port, node_port, protocol, name)`.
pub type PortView = (i32, Option<i32>, Option<i32>, Seq<char>, Option<Seq<char>>);

/// The view of a port.
pub open spec fn port_view(p: ServicePort) -> PortView {
    (p.port, p.target_port, p.node_port, p.protocol@, opt_view(p.name))
}

/// The integer of a JSON value, when it is one that fits `i64`.
pub open spec fn as_i64(d: Option<Data>) -> Option<i64> {
    match d {
        Some(Data::Int(i)) => Some(i),
        _ => None,
    }
}

/// The text of a JSON value, when it is a string.
pub open spec fn as_str(d: Option<Data>) -> Option<Seq<char>> {
    match d {
        Some(Data::Str(s)) => Some(s@),
        _ => None,
    }
}

/// The port an item of a `ports` list gives: a mapping with an integer
/// `port`, its other numbers cut to `i32`, the protocol `TCP` unless given.
pub open spec fn port_of(item: Data) -> Option<PortView> {
    match item {
        Data::Mapping(m, _) => match as_i64(map_get(m@, "port"@)) {
            Some(p) => Some((
                p as i32,
                match as_i64(map_get(m@, "target_port"@)) {
                    Some(t) => Some(t as i32),
                    None => None,
                },
                match as_i64(map_get(m@, "node_port"@)) {
                    Some(t) => Some(t as i32),
                    None => None,
                },
                match as_str(map_get(m@, "protocol"@)) {
                    Some(s) => s,
                    None => "TCP"@,
                },
                as_str(map_get(m@, "name"@)),
            )),
            None => None,
        },
        _ => None,
    }
}

/// An integer held under a key, cut to `i32`; `None` when the key is missing
/// or holds something else.
pub open spec fn int_entry_i32(m: Seq<(Data, Data)>, key: Seq<char>) -> Option<i32> {
    match map_get(m, key) {
        Some(Data::Int(t)) => Some(t as i32),
        _ => None,
    }
}

/// A ports item gives a port exactly when it is a mapping whose `port` holds
/// an integer. The port is that integer; the target port is the integer under
/// `target_port` and the node port the one under `node_port`, each cut to
/// `i32` and absent unless the key holds an integer; the protocol is the text
/// under `protocol`, `TCP` when there is none; the name is the text under
/// `name`, if any.
pub proof fn law_service_port_fields(item: Data)
    ensures
        match item {
            Data::Mapping(m, _) => match map_get(m@, "port"@) {
                Some(Data::Int(p)) => port_of(item) matches Some(v) && v.0 == p as i32
                    && v.1 == int_entry_i32(m@, "target_port"@)
                    && v.2 == int_entry_i32(m@, "node_port"@)
                    && v.3 == (match map_get(m@, "protocol"@) {
                        Some(Data::Str(s)) => s@,
                        _ => "TCP"@,
                    })
                    && v.4 == (match map_get(m@, "name"@) {
                        Some(Data::Str(s)) => Some(s@),
                        _ => None,
                    }),
                _ => port_of(item) is None,
            },
            _ => port_of(item) is None,
        },
{
}

/// Replacing the value of an entry whose key is `key` leaves the value found
/// under any other key as it was.
proof fn lemma_map_get_other_key(m: Seq<(Data, Data)>, j: int, v: Data, key: Seq<char>, other: Seq<char>)
    requires
        0 <= j < m.len(),
        str_of(m[j].0) == Some(key),
        other != key,
    ensures
        map_get(m.update(j, (m[j].0, v)), other) == map_get(m, other),
    decreases m.len(),
{
    let m2 = m.update(j, (m[j].0, v));
    if j > 0 {
        assert(m2[0] == m[0]);
        assert(m2.drop_first() =~= m.drop_first().update(j - 1, (m[j].0, v)));
        lemma_map_get_other_key(m.drop_first(), j - 1, v, key, other);
    } else {
        assert(str_of(m2[0].0) != Some(other));
        assert(m2.drop_first() =~= m.drop_first());
    }
}

/// Only the `port` entry decides the port itself: two items that differ in
/// the value of a `port` entry alone, and both give a port, give the same
/// target port, node port, protocol and name.
pub proof fn law_service_port_rest_ignores_port(item1: Data, item2: Data, j: int, v: Data)
    requires
        item1 is Mapping,
        item2 is Mapping,
        0 <= j < item1->Mapping_0@.len(),
        str_of(item1->Mapping_0@[j].0) == Some("port"@),
        item2->Mapping_0@ == item1->Mapping_0@.update(j, (item1->Mapping_0@[j].0, v)),
        port_of(item1) is Some,
        port_of(item2) is Some,
    ensures
        port_of(item1)->Some_0.1 == port_of(item2)->Some_0.1,
        port_of(item1)->Some_0.2 == port_of(item2)->Some_0.2,
        port_of(item1)->Some_0.3 == port_of(item2)->Some_0.3,
        port_of(item1)->Some_0.4 == port_of(item2)->Some_0.4,
{
    reveal_strlit("port");
    reveal_strlit("target_port");
    reveal_strlit("node_port");
    reveal_strlit("protocol");
    reveal_strlit("name");
    assert("name"@[0] != "port"@[0]);
    assert("protocol"@.len() != "port"@.len());
    let m = item1->Mapping_0@;
    lemma_map_get_other_key(m, j, v, "port"@, "target_port"@);
    lemma_map_get_other_key(m, j, v, "port"@, "node_port"@);
    lemma_map_get_other_key(m, j, v, "port"@, "protocol"@);
    lemma_map_get_other_key(m, j, v, "port"@, "name"@);
}

/// The ports of a `ports` list: the items that give one, in order.
pub open spec fn ports_of(items: Seq<Data>) -> Seq<PortView>
    decreases items.len(),
{
    if items.len() == 0 {
        Seq::empty()
    } else {
        let rest = ports_of(items.drop_last());
        match port_of(items.last()) {
            Some(p) => rest.push(p),
            None => rest,
        }
    }
}

/// The ports a `ports` parameter gives: none unless it is a list.
pub open spec fn ports_param(d: Option<Data>) -> Seq<PortView> {
    match d {
        Some(Data::List(items, _)) => ports_of(items@),
        _ => Seq::empty(),
    }
}

/// The pairs of a label map: the entries with a string key, each value as its text.
pub open spec fn label_pairs(m: Seq<(Data, Data)>) -> Seq<(Seq<char>, Seq<char>)>
    decreases m.len(),
{
    if m.len() == 0 {
        Seq::empty()
    } else {
        let rest = label_pairs(m.drop_last());
        match m.last().0 {
            Data::Str(k) => rest.push((k@, value_text(m.last().1))),
            _ => rest,
        }
    }
}

/// The labels a parameter gives: none unless it is a mapping.
pub open spec fn labels_param(d: Option<Data>) -> Seq<(Seq<char>, Seq<char>)> {
    match d {
        Some(Data::Mapping(m, _)) => label_pairs(m@),
        _ => Seq::empty(),
    }
}

/// The views of label pairs.
pub open spec fn pair_views(v: Seq<(String, String)>) -> Seq<(Seq<char>, Seq<char>)> {
    v.map_values(|p: (String, String)| (p.0@, p.1@))
}

/// The integer of a JSON value.
fn as_i64_of(d: Option<&Data>) -> (r: Option<i64>)
    ensures
        r == as_i64(match d {
            Some(x) => Some(*x),
            None => None,
        }),
{
    match d {
        Some(Data::Int(i)) => Some(*i),
        _ => None,
    }
}

/// The text of a JSON value that is a string.
fn as_str_of(d: Option<&Data>) -> (r: Option<String>)
    ensures
        opt_view(r) == as_str(match d {
            Some(x) => Some(*x),
            None => None,
        }),
{
    match d {
        Some(Data::Str(s)) => Some(copy_str(s.as_str())),
        _ => None,
    }
}

/// The port an item of a `ports` list gives.
pub fn parse_service_port(item: &Data) -> (r: Option<ServicePort>)
    ensures
        match port_of(*item) {
            Some(v) => r matches Some(p) && port_view(p) == v,
            None => r is None,
        },
{
    match item {
        Data::Mapping(m, _) => match as_i64_of(find_entry(m, "port")) {
            Some(p) => {
                let target_port = match as_i64_of(find_entry(m, "target_port")) {
                    Some(t) => Some(#[verifier::truncate] (t as i32)),
                    None => None,
                };
                let node_port = match as_i64_of(find_entry(m, "node_port")) {
                    Some(t) => Some(#[verifier::truncate] (t as i32)),
                    None => None,
                };
                let protocol = match as_str_of(find_entry(m, "protocol")) {
                    Some(s) => s,
                    None => copy_str("TCP"),
                };
                let name = as_str_of(find_entry(m, "name"));
                Some(ServicePort { port: #[verifier::truncate] (p as i32), target_port, node_port, protocol, name })
            },
            None => None,
        },
        _ => None,
    }
}

/// The ports a `ports` parameter gives.
pub fn parse_service_ports(d: Option<&Data>) -> (r: Vec<ServicePort>)
    ensures
        r@.map_values(|p: ServicePort| port_view(p)) == ports_param(match d {
            Some(x) => Some(*x),
            None => None,
        }),
{
    let mut out: Vec<ServicePort> = Vec::new();
    match d {
        Some(Data::List(items, _)) => {
            let mut i: usize = 0;
            while i < items.len()
                invariant
                    i <= items@.len(),
                    out@.map_values(|p: ServicePort| port_view(p)) == ports_of(items@.take(i as int)),
                decreases items@.len() - i,
            {
                proof {
                    assert(items@.take(i + 1).drop_last() =~= items@.take(i as int));
                    assert(items@.take(i + 1).last() == items@[i as int]);
                }
                let ghost before = out@;
                match parse_service_port(&items[i]) {
                    Some(p) => {
                        out.push(p);
                        proof {
                            assert(out@.map_values(|p: ServicePort| port_view(p)) =~= before.map_values(
                                |p: ServicePort| port_view(p),
                            ).push(port_view(out@.last())));
                        }
                    },
                    None => {},
                }
                i = i + 1;
            }
            proof {
                assert(items@.take(items@.len() as int) =~= items@);
            }
        },
        _ => {},
    }
    out
}

/// The labels a parameter gives: the entries of a mapping with a string key,
/// each value as its text.
pub fn parse_labels(d: Option<&Data>) -> (r: Vec<(String, String)>)
    ensures
        pair_views(r@) == labels_param(match d {
            Some(x) => Some(*x),
            None => None,
        }),
{
    let mut out: Vec<(String, String)> = Vec::new();
    match d {
        Some(Data::Mapping(m, _)) => {
            let mut i: usize = 0;
            while i < m.len()
                invariant
                    i <= m@.len(),
                    pair_views(out@) == label_pairs(m@.take(i as int)),
                decreases m@.len() - i,
            {
                proof {
                    assert(m@.take(i + 1).drop_last() =~= m@.take(i as int));
                    assert(m@.take(i + 1).last() == m@[i as int]);
                }
                let ghost before = out@;
                match &m[i].0 {
                    Data::Str(k) => {
                        let v = value_text_of(&m[i].1);
                        out.push((copy_str(k.as_str()), v));
                        proof {
                            assert(pair_views(out@) =~= pair_views(before).push((k@, value_text(m@[i as int].1))));
                        }
                    },
                    _ => {},
                }
                i = i + 1;
            }
            proof {
                assert(m@.take(m@.len() as int) =~= m@);
            }
        },
        _ => {},
    }
    out
}

} // verus!
