//! Kubernetes ConfigMaps: the keys a ConfigMap accepts, what the module
//! reports, and what it does for a ConfigMap that exists or not.
use vstd::prelude::*;
use std::collections::BTreeMap;
use vstd::string::StringSliceAdditionalSpecFns;
use crate::modules::{ModuleClassification, ModuleError, ModuleResult, ParallelizationHint};
use crate::text::{concat2, concat3, copy_str, is_ascii_alnum, lowercase};
use crate::assoc::{entries, insert_entry, merged};
use crate::inventory::data::Data;
use crate::inventory::host::opt_view;
use crate::modules::params::{bool_param_or, param_value, text_param, ModuleParams, ParamExt};
use super::{
    dns_label, invalid_name_message, invalid_state_message, labels_param, pair_views, parse_labels,
    resource_state_named, validate_k8s_name, validate_k8s_namespace, K8sResourceState,
};
use super::service::param_ref;

verus! {

/// A ConfigMap as the cluster reports it.
#[derive(Debug, Clone)]
pub struct ConfigMapInfo {
    /// Name.
    pub name: String,
    /// Namespace.
    pub namespace: String,
    /// Data entries.
    pub data: BTreeMap<String, String>,
    /// Keys of the binary data entries.
    pub binary_data_keys: Vec<String>,
    /// Whether the ConfigMap can no longer change.
    pub immutable: bool,
    /// Labels.
    pub labels: BTreeMap<String, String>,
    /// When the ConfigMap was created.
    pub creation_timestamp: String,
}

/// A character a ConfigMap key may hold: ASCII letters and digits, `-`, `_` and `.`.
pub open spec fn configmap_key_char(c: char) -> bool {
    is_ascii_alnum(c) || c == '-' || c == '_' || c == '.'
}

/// The position of the first character a ConfigMap key may not hold.
pub open spec fn first_bad_key_char(key: Seq<char>) -> Option<int>
    decreases key.len(),
{
    if key.len() == 0 {
        None
    } else {
        match first_bad_key_char(key.drop_last()) {
            Some(i) => Some(i),
            None => if !configmap_key_char(key.last()) { Some(key.len() - 1) } else { None },
        }
    }
}

proof fn lemma_first_bad_key_char(key: Seq<char>, i: int)
    requires
        0 <= i <= key.len(),
        forall|k: int| 0 <= k < i ==> configmap_key_char(key[k]),
        i < key.len() ==> !configmap_key_char(key[i]),
    ensures
        first_bad_key_char(key) == (if i < key.len() { Some(i) } else { None::<int> }),
    decreases key.len(),
{
    if key.len() > 0 {
        if i < key.len() - 1 {
            lemma_first_bad_key_char(key.drop_last(), i);
        } else {
            lemma_first_bad_key_char(key.drop_last(), key.len() - 1);
        }
    }
}

/// Checks a ConfigMap data key: not empty, at most 253 bytes, and made of
/// ASCII letters, digits, `-`, `_` and `.`.
pub fn validate_configmap_key(key: &str) -> (r: ModuleResult<()>)
    ensures
        key@.len() == 0 ==> (r matches Err(ModuleError::InvalidParameter(m)) && m@ == "ConfigMap key cannot be empty"@),
        key@.len() > 0 && (key.spec_bytes().len() as usize) > 253 ==> (r matches Err(ModuleError::InvalidParameter(m))
            && m@ == "ConfigMap key '"@ + key@ + "' exceeds 253 character limit"@),
        key@.len() > 0 && (key.spec_bytes().len() as usize) <= 253 ==> match first_bad_key_char(key@) {
            Some(i) => r matches Err(ModuleError::InvalidParameter(m)) && m@ == "ConfigMap key '"@ + key@
                + "' contains invalid character '"@ + seq![key@[i]]
                + "'. Only alphanumeric, '-', '_', and '.' are allowed"@,
            None => r is Ok,
        },
{
    let cs = crate::text::chars_of(key);
    if cs.len() == 0 {
        return Err(ModuleError::InvalidParameter(crate::text::copy_str("ConfigMap key cannot be empty")));
    }
    if key.len() > 253 {
        return Err(ModuleError::InvalidParameter(concat3("ConfigMap key '", key, "' exceeds 253 character limit")));
    }
    let mut i: usize = 0;
    while i < cs.len()
        invariant
            i <= cs@.len(),
            cs@ == key@,
            (key.spec_bytes().len() as usize) <= 253,
            forall|k: int| 0 <= k < i ==> configmap_key_char(cs@[k]),
        decreases cs@.len() - i,
    {
        let c = cs[i];
        let ok = ('a' <= c && c <= 'z') || ('A' <= c && c <= 'Z') || ('0' <= c && c <= '9') || c == '-' || c
            == '_' || c == '.';
        if !ok {
            proof {
                lemma_first_bad_key_char(key@, i as int);
            }
            let mut m = concat3("ConfigMap key '", key, "' contains invalid character '");
            crate::text::push_char(&mut m, c);
            let m = concat2(m.as_str(), "'. Only alphanumeric, '-', '_', and '.' are allowed");
            return Err(ModuleError::InvalidParameter(m));
        }
        i = i + 1;
    }
    proof {
        lemma_first_bad_key_char(key@, key@.len() as int);
    }
    Ok(())
}

/// What the module does about a ConfigMap that should exist.
#[derive(Debug, Clone, Copy, PartialEq, Eq, Structural)]
pub enum PresentAction {
    /// It exists with the wanted data: nothing to do.
    UpToDate,
    /// It exists, is immutable, and has the wanted data: nothing to do.
    ImmutableUpToDate,
    /// It exists with other data: apply the new data.
    Update,
    /// It does not exist: create it.
    Create,
}

/// Decides what to do about a ConfigMap that should exist, given whether it
/// exists (and then whether it is immutable) and whether its data differ. An
/// immutable ConfigMap with other data cannot be updated.
pub fn present_action(name: &str, existing_immutable: Option<bool>, data_differs: bool) -> (r: ModuleResult<PresentAction>)
    ensures
        match existing_immutable {
            None => r == Ok::<PresentAction, ModuleError>(PresentAction::Create),
            Some(true) => if data_differs {
                r matches Err(ModuleError::ExecutionFailed(m)) && m@ == "ConfigMap '"@ + name@
                    + "' is immutable and cannot be updated. Delete and recreate to change."@
            } else {
                r == Ok::<PresentAction, ModuleError>(PresentAction::ImmutableUpToDate)
            },
            Some(false) => r == Ok::<PresentAction, ModuleError>(
                if data_differs { PresentAction::Update } else { PresentAction::UpToDate },
            ),
        },
{
    match existing_immutable {
        None => Ok(PresentAction::Create),
        Some(true) => if data_differs {
            Err(ModuleError::ExecutionFailed(
                concat3("ConfigMap '", name, "' is immutable and cannot be updated. Delete and recreate to change."),
            ))
        } else {
            Ok(PresentAction::ImmutableUpToDate)
        },
        Some(false) => if data_differs {
            Ok(PresentAction::Update)
        } else {
            Ok(PresentAction::UpToDate)
        },
    }
}

/// The message the module reports for an action on a ConfigMap that should
/// exist, and whether it changed anything.
pub fn present_report(name: &str, action: PresentAction, check_mode: bool) -> (r: (bool, String))
    ensures
        r.0 == (action == PresentAction::Update || action == PresentAction::Create),
        r.1@ == match action {
            PresentAction::UpToDate => "ConfigMap '"@ + name@ + "' is up to date"@,
            PresentAction::ImmutableUpToDate => "Immutable ConfigMap '"@ + name@ + "' is up to date"@,
            PresentAction::Update => if check_mode {
                "Would update ConfigMap '"@ + name@ + "'"@
            } else {
                "Updated ConfigMap '"@ + name@ + "'"@
            },
            PresentAction::Create => if check_mode {
                "Would create ConfigMap '"@ + name@ + "'"@
            } else {
                "Created ConfigMap '"@ + name@ + "'"@
            },
        },
{
    match action {
        PresentAction::UpToDate => (false, concat3("ConfigMap '", name, "' is up to date")),
        PresentAction::ImmutableUpToDate => (false, concat3("Immutable ConfigMap '", name, "' is up to date")),
        PresentAction::Update => if check_mode {
            (true, concat3("Would update ConfigMap '", name, "'"))
        } else {
            (true, concat3("Updated ConfigMap '", name, "'"))
        },
        PresentAction::Create => if check_mode {
            (true, concat3("Would create ConfigMap '", name, "'"))
        } else {
            (true, concat3("Created ConfigMap '", name, "'"))
        },
    }
}

/// The message for a ConfigMap that should not exist, and whether it changed
/// anything: nothing happens to one that does not exist.
pub fn absent_report(name: &str, exists: bool, check_mode: bool) -> (r: (bool, String))
    ensures
        r.0 == exists,
        r.1@ == (if !exists {
            "ConfigMap '"@ + name@ + "' does not exist"@
        } else if check_mode {
            "Would delete ConfigMap '"@ + name@ + "'"@
        } else {
            "Deleted ConfigMap '"@ + name@ + "'"@
        }),
{
    if !exists {
        (false, concat3("ConfigMap '", name, "' does not exist"))
    } else if check_mode {
        (true, concat3("Would delete ConfigMap '", name, "'"))
    } else {
        (true, concat3("Deleted ConfigMap '", name, "'"))
    }
}

/// A ConfigMap needs at least one data or binary data entry before it is applied.
pub fn check_has_entries(data_entries: usize, binary_entries: usize) -> (r: ModuleResult<()>)
    ensures
        (data_entries == 0 && binary_entries == 0) ==> (r matches Err(ModuleError::InvalidParameter(m))
            && m@ == "ConfigMap must have at least one data or binary_data entry"@),
        !(data_entries == 0 && binary_entries == 0) ==> r is Ok,
{
    if data_entries == 0 && binary_entries == 0 {
        Err(ModuleError::InvalidParameter(
            crate::text::copy_str("ConfigMap must have at least one data or binary_data entry"),
        ))
    } else {
        Ok(())
    }
}

/// Module for Kubernetes ConfigMaps.
pub struct K8sConfigMapModule;

impl K8sConfigMapModule {
    /// The module's name.
    pub fn name(&self) -> (r: &'static str)
        ensures
            r@ == "k8s_configmap"@,
    {
        "k8s_configmap"
    }

    /// What the module does.
    pub fn description(&self) -> (r: &'static str)
        ensures
            r@ == "Manage Kubernetes ConfigMaps"@,
    {
        "Manage Kubernetes ConfigMaps"
    }

    /// The module talks to the API from the control node.
    pub fn classification(&self) -> (r: ModuleClassification)
        ensures
            r == ModuleClassification::LocalLogic,
    {
        ModuleClassification::LocalLogic
    }

    /// Calls to the API are limited to twenty a second.
    pub fn parallelization_hint(&self) -> (r: ParallelizationHint)
        ensures
            r == (ParallelizationHint::RateLimited { requests_per_second: 20 }),
    {
        ParallelizationHint::RateLimited { requests_per_second: 20 }
    }

    /// The parameters the module cannot run without.
    pub fn required_params(&self) -> (r: &'static [&'static str])
        ensures
            r@.len() == 1,
            r@[0]@ == "name"@,
    {
        &["name"]
    }
}


/// A ConfigMap as the module's parameters describe it.
#[derive(Debug, Clone)]
pub struct ConfigMapConfig {
    /// Name.
    pub name: String,
    /// Namespace.
    pub namespace: String,
    /// Whether the ConfigMap should exist.
    pub state: K8sResourceState,
    /// Data entries: those of `data`, then those of `from_literal`, a later
    /// entry replacing an earlier one with the same key.
    pub data: Vec<(String, String)>,
    /// Binary data entries, base64-encoded.
    pub binary_data: Vec<(String, String)>,
    /// Whether the ConfigMap can no longer change.
    pub immutable: bool,
    /// Labels.
    pub labels: Vec<(String, String)>,
    /// Annotations.
    pub annotations: Vec<(String, String)>,
    /// Path of the kubeconfig file.
    pub kubeconfig: Option<String>,
    /// Kubeconfig context.
    pub context: Option<String>,
}

/// The namespace the parameters name, `default` when they name none.
pub open spec fn configmap_namespace(p: Seq<(String, Data)>) -> Seq<char> {
    match text_param(p, "namespace"@) {
        Some(n) => n,
        None => "default"@,
    }
}

/// What is wrong with the parameters of a ConfigMap, first come first: a
/// missing name (`(true, "name")`), else an invalid name, namespace or state
/// (`(false, message)`).
pub open spec fn configmap_params_problem(p: Seq<(String, Data)>) -> Option<(bool, Seq<char>)> {
    match text_param(p, "name"@) {
        None => Some((true, "name"@)),
        Some(name) => {
            let ns = configmap_namespace(p);
            if !dns_label(name) {
                Some((false, invalid_name_message("name"@, name)))
            } else if !dns_label(ns) {
                Some((false, invalid_name_message("namespace"@, ns)))
            } else if text_param(p, "state"@) is Some && resource_state_named(
                lowercase(text_param(p, "state"@).unwrap()),
            ) is None {
                Some((false, invalid_state_message(text_param(p, "state"@).unwrap())))
            } else {
                None
            }
        },
    }
}

/// The ConfigMap the parameters describe, when nothing is wrong with them:
/// state defaults to `present`, `immutable` to false, the entry lists to none.
pub open spec fn configmap_config_of(p: Seq<(String, Data)>, c: ConfigMapConfig) -> bool {
    &&& Some(c.name@) == text_param(p, "name"@)
    &&& c.namespace@ == configmap_namespace(p)
    &&& c.state == match text_param(p, "state"@) {
        Some(t) => resource_state_named(lowercase(t)).unwrap(),
        None => K8sResourceState::Present,
    }
    &&& pair_views(c.data@) == merged(
        labels_param(param_value(p, "data"@)),
        labels_param(param_value(p, "from_literal"@)),
    )
    &&& pair_views(c.binary_data@) == labels_param(param_value(p, "binary_data"@))
    &&& c.immutable == bool_param_or(p, "immutable"@, false)
    &&& pair_views(c.labels@) == labels_param(param_value(p, "labels"@))
    &&& pair_views(c.annotations@) == labels_param(param_value(p, "annotations"@))
    &&& opt_view(c.kubeconfig) == text_param(p, "kubeconfig"@)
    &&& opt_view(c.context) == text_param(p, "context"@)
}

proof fn lemma_pair_views_entries(v: Seq<(String, String)>, f: spec_fn(String) -> Seq<char>)
    requires
        forall|s: String| #[trigger] f(s) == s@,
    ensures
        pair_views(v) == entries(v).map_values(|p: (Seq<char>, String)| (p.0, f(p.1))),
{
    let a = pair_views(v);
    let b = entries(v).map_values(|p: (Seq<char>, String)| (p.0, f(p.1)));
    assert forall|j: int| 0 <= j < v.len() implies a[j] == b[j] by {
        assert(f(v[j].1) == v[j].1@);
    }
    assert(a =~= b);
}

/// Adds entries to a list, a later entry replacing an earlier one with the same key.
fn merge_pairs(base: Vec<(String, String)>, extra: &Vec<(String, String)>) -> (r: Vec<(String, String)>)
    ensures
        pair_views(r@) == merged(pair_views(base@), pair_views(extra@)),
{
    let mut out = base;
    let mut i: usize = 0;
    while i < extra.len()
        invariant
            i <= extra@.len(),
            pair_views(out@) == merged(pair_views(base@), pair_views(extra@.take(i as int))),
        decreases extra@.len() - i,
    {
        let ghost before = out@;
        let k = extra[i].0.clone();
        let v = extra[i].1.clone();
        crate::assoc::insert(&mut out, k, v);
        proof {
            let f = |s: String| s@;
            lemma_pair_views_entries(before, f);
            lemma_pair_views_entries(out@, f);
            crate::assoc::insert_map_values(entries(before), f, k@, v);
            let t = pair_views(extra@.take(i + 1));
            assert(t.drop_last() =~= pair_views(extra@.take(i as int)));
            assert(t.last() == (k@, v@));
        }
        i = i + 1;
    }
    proof {
        assert(extra@.take(extra@.len() as int) =~= extra@);
    }
    out
}

/// Reads a ConfigMap from the module's parameters.
pub fn configmap_config_from_params(params: &ModuleParams) -> (r: ModuleResult<ConfigMapConfig>)
    ensures
        match configmap_params_problem(params@) {
            Some((true, m)) => r matches Err(ModuleError::MissingParameter(x)) && x@ == m,
            Some((false, m)) => r matches Err(ModuleError::InvalidParameter(x)) && x@ == m,
            None => r matches Ok(c) && configmap_config_of(params@, c),
        },
{
    let name = match params.get_string_required("name") {
        Ok(n) => n,
        Err(e) => return Err(e),
    };
    match validate_k8s_name(name.as_str()) {
        Ok(()) => {},
        Err(e) => return Err(e),
    }
    let namespace = match params.get_string("namespace") {
        Ok(Some(n)) => n,
        _ => copy_str("default"),
    };
    match validate_k8s_namespace(namespace.as_str()) {
        Ok(()) => {},
        Err(e) => return Err(e),
    }
    let state = match params.get_string("state") {
        Ok(Some(t)) => match K8sResourceState::from_str(t.as_str()) {
            Ok(st) => st,
            Err(e) => return Err(e),
        },
        _ => K8sResourceState::Present,
    };
    let data = parse_labels(param_ref(params, "data"));
    let literals = parse_labels(param_ref(params, "from_literal"));
    let data = merge_pairs(data, &literals);
    let binary_data = parse_labels(param_ref(params, "binary_data"));
    let labels = parse_labels(param_ref(params, "labels"));
    let annotations = parse_labels(param_ref(params, "annotations"));
    let immutable = params.get_bool_or("immutable", false);
    let kubeconfig = match params.get_string("kubeconfig") {
        Ok(v) => v,
        Err(_) => None,
    };
    let context = match params.get_string("context") {
        Ok(v) => v,
        Err(_) => None,
    };
    proof {
        let p = params@;
        assert(text_param(p, "name"@) == Some(name@));
        assert(dns_label(name@));
        assert(configmap_namespace(p) == namespace@);
        assert(dns_label(namespace@));
        assert(text_param(p, "state"@) is Some ==> resource_state_named(lowercase(text_param(p, "state"@).unwrap())) is Some);
    }
    Ok(ConfigMapConfig {
        name,
        namespace,
        state,
        data,
        binary_data,
        immutable,
        labels,
        annotations,
        kubeconfig,
        context,
    })
}

} // verus!
