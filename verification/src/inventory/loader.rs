//! Reading YAML and JSON inventories into an inventory, stated as the
//! steps each document asks for.
use vstd::prelude::*;
use super::data::{Data, str_of, map_get, var_of, to_var, find_entry, host_var_step, apply_host_var};
use super::host::{HostParseError, VarValue};
use super::ini::inventory_port;
use super::InventoryError;

verus! {

broadcast use vstd::seq_lib::group_seq_properties;

/// A size of a document value, larger than that of every value inside it.
pub open spec fn data_size(d: Data) -> nat
    decreases d,
{
    match d {
        Data::List(v, _) => 1 + items_size(v@),
        Data::Mapping(m, _) => 1 + entries_size(m@),
        _ => 1,
    }
}

/// The sizes of the items of a sequence, added up.
pub open spec fn items_size(v: Seq<Data>) -> nat
    decreases v,
{
    if v.len() == 0 {
        0
    } else {
        items_size(v.drop_last()) + data_size(v.last())
    }
}

/// The sizes of the keys and values of a mapping, added up.
pub open spec fn entries_size(m: Seq<(Data, Data)>) -> nat
    decreases m,
{
    if m.len() == 0 {
        0
    } else {
        entries_size(m.drop_last()) + data_size(m.last().0) + data_size(m.last().1)
    }
}

/// The port a document value gives: an integer or a decimal text in 1..=65535.
pub open spec fn data_port(d: Data) -> Option<u16> {
    let p: Option<int> = match d {
        Data::Int(i) => if 0 <= i <= 65535 { Some(i as int) } else { None },
        Data::UInt(u) => if u <= 65535 { Some(u as int) } else { None },
        Data::Str(s) => match crate::numbers::parse_unsigned_spec(s@, 65535) {
            Some(n) => Some(n as int),
            None => None,
        },
        _ => None,
    };
    match p {
        Some(x) => if x != 0 { Some(x as u16) } else { None },
        None => None,
    }
}

/// A value's port is that of the variable value it gives.
pub proof fn lemma_data_port(d: Data, v: VarValue)
    requires
        var_of(d, v),
    ensures
        inventory_port(v) == data_port(d),
{
}

/// What is wrong with a YAML group definition: a message, or a port that is none.
pub enum ShapeFault {
    Message(Seq<char>),
    Port,
}

/// The first fault of the entries of section `name`.
pub open spec fn entries_fault(name: Seq<char>, es: Seq<(Data, Data)>) -> Option<ShapeFault>
    decreases es.len(),
{
    if es.len() == 0 {
        None
    } else {
        match entry_fault(name, es[0].0, es[0].1) {
            Some(f) => Some(f),
            None => entries_fault(name, es.drop_first()),
        }
    }
}

/// Every key is a string.
pub open spec fn keys_are_strings(m: Seq<(Data, Data)>) -> bool {
    forall|i: int| 0 <= i < m.len() ==> (#[trigger] str_of(m[i].0)) is Some
}

/// The fault of one entry of section `name`: its name must be a string, a
/// host's variables a mapping with string keys, and an `ansible_port`
/// group variable a port.
pub open spec fn entry_fault(name: Seq<char>, ek: Data, ev: Data) -> Option<ShapeFault> {
    match str_of(ek) {
        None => Some(ShapeFault::Message("inventory names must be strings"@)),
        Some(en) => {
            let host_fault = if name == "hosts"@ && !(ev is Null) {
                match ev {
                    Data::Mapping(hv, _) => if keys_are_strings(hv@) {
                        None
                    } else {
                        Some(ShapeFault::Message("variable names must be strings"@))
                    },
                    _ => Some(ShapeFault::Message("host variables must be mappings or null"@)),
                }
            } else {
                None
            };
            match host_fault {
                Some(f) => Some(f),
                None => if name == "vars"@ && en == "ansible_port"@ && data_port(ev) is None {
                    Some(ShapeFault::Port)
                } else {
                    None
                },
            }
        },
    }
}

/// The fault of one section of a group definition.
pub open spec fn section_fault(key: Data, section: Data) -> Option<ShapeFault> {
    match str_of(key) {
        None => Some(ShapeFault::Message("group section names must be strings"@)),
        Some(name) => if !(name == "hosts"@ || name == "children"@ || name == "vars"@) {
            Some(ShapeFault::Message("group sections must be hosts, children, or vars"@))
        } else {
            match section {
                Data::Null => None,
                Data::Mapping(es, _) => entries_fault(name, es@),
                _ => Some(ShapeFault::Message("group sections must be mappings or null"@)),
            }
        },
    }
}

/// The first fault of the sections of a group definition.
pub open spec fn sections_fault(m: Seq<(Data, Data)>) -> Option<ShapeFault>
    decreases m.len(),
{
    if m.len() == 0 {
        None
    } else {
        match section_fault(m[0].0, m[0].1) {
            Some(f) => Some(f),
            None => sections_fault(m.drop_first()),
        }
    }
}

/// The fault of a YAML group definition, which must be null or a mapping of
/// sections.
pub open spec fn shape_fault(value: Data) -> Option<ShapeFault> {
    match value {
        Data::Null => None,
        Data::Mapping(m, _) => sections_fault(m@),
        _ => Some(ShapeFault::Message("group definitions must be mappings or null"@)),
    }
}

/// The error a shape fault is reported as.
pub open spec fn fault_error(f: ShapeFault, e: InventoryError) -> bool {
    match f {
        ShapeFault::Message(m) => (e matches InventoryError::Yaml(x) && x@ == m),
        ShapeFault::Port => (e matches InventoryError::HostParse(HostParseError::InvalidPort(x)) && x@
            == "expected an integer in 1..=65535"@),
    }
}

fn yaml_error(m: &str) -> (e: InventoryError)
    ensures
        e matches InventoryError::Yaml(x) && x@ == m@,
{
    InventoryError::Yaml(crate::text::copy_str(m))
}

/// Reads a port from a document value.
fn data_port_check(d: &Data) -> (r: Result<(), InventoryError>)
    ensures
        match data_port(*d) {
            Some(_) => r is Ok,
            None => (r matches Err(e) && fault_error(ShapeFault::Port, e)),
        },
{
    let v = to_var(d);
    proof {
        lemma_data_port(*d, v);
    }
    match super::ini::parse_inventory_port(&v) {
        Ok(_) => Ok(()),
        Err(e) => Err(e),
    }
}

/// Checks the entries of a section.
#[verifier::loop_isolation(false)]
fn check_entries(name: &str, es: &Vec<(Data, Data)>) -> (r: Result<(), InventoryError>)
    ensures
        match entries_fault(name@, es@) {
            None => r is Ok,
            Some(f) => (r matches Err(e) && fault_error(f, e)),
        },
{
    proof {
        reveal_strlit("hosts");
        reveal_strlit("vars");
        reveal_strlit("ansible_port");
    }
    let is_hosts = crate::text::str_equal(name, "hosts");
    let is_vars = crate::text::str_equal(name, "vars");
    let mut i: usize = 0;
    proof {
        assert(es@.skip(0) =~= es@);
    }
    while i < es.len()
        invariant
            i <= es@.len(),
            is_hosts == (name@ == "hosts"@),
            is_vars == (name@ == "vars"@),
            entries_fault(name@, es@) == entries_fault(name@, es@.skip(i as int)),
        decreases es@.len() - i,
    {
        proof {
            assert(es@.skip(i as int).drop_first() =~= es@.skip(i + 1));
            assert(es@.skip(i as int)[0] == es@[i as int]);
        }
        let ek = &es[i].0;
        let ev = &es[i].1;
        let en = match ek {
            Data::Str(s) => s,
            _ => {
                return Err(yaml_error("inventory names must be strings"));
            },
        };
        if is_hosts {
            match ev {
                Data::Null => {},
                Data::Mapping(hv, _) => {
                    let mut j: usize = 0;
                    while j < hv.len()
                        invariant
                            j <= hv@.len(),
                            forall|x: int| 0 <= x < j ==> (#[trigger] str_of(hv@[x].0)) is Some,
                        decreases hv@.len() - j,
                    {
                        match &hv[j].0 {
                            Data::Str(_) => {},
                            _ => {
                                proof {
                                    assert(str_of(hv@[j as int].0) is None);
                                }
                                return Err(yaml_error("variable names must be strings"));
                            },
                        }
                        j = j + 1;
                    }
                },
                _ => {
                    return Err(yaml_error("host variables must be mappings or null"));
                },
            }
        }
        if is_vars && crate::text::str_equal(en.as_str(), "ansible_port") {
            data_port_check(ev)?;
        }
        i = i + 1;
    }
    Ok(())
}

/// Checks the shape of a YAML group definition, as `shape_fault` states it.
#[verifier::loop_isolation(false)]
pub fn validate_yaml_group_shape(value: &Data) -> (r: Result<(), InventoryError>)
    ensures
        match shape_fault(*value) {
            None => r is Ok,
            Some(f) => (r matches Err(e) && fault_error(f, e)),
        },
{
    proof {
        reveal_strlit("hosts");
        reveal_strlit("children");
        reveal_strlit("vars");
    }
    let m = match value {
        Data::Null => {
            return Ok(());
        },
        Data::Mapping(m, _) => m,
        _ => {
            return Err(yaml_error("group definitions must be mappings or null"));
        },
    };
    let mut i: usize = 0;
    proof {
        assert(m@.skip(0) =~= m@);
    }
    while i < m.len()
        invariant
            i <= m@.len(),
            sections_fault(m@) == sections_fault(m@.skip(i as int)),
        decreases m@.len() - i,
    {
        proof {
            assert(m@.skip(i as int).drop_first() =~= m@.skip(i + 1));
            assert(m@.skip(i as int)[0] == m@[i as int]);
        }
        let name = match &m[i].0 {
            Data::Str(s) => s,
            _ => {
                return Err(yaml_error("group section names must be strings"));
            },
        };
        if !(crate::text::str_equal(name.as_str(), "hosts") || crate::text::str_equal(name.as_str(), "children")
            || crate::text::str_equal(name.as_str(), "vars")) {
            return Err(yaml_error("group sections must be hosts, children, or vars"));
        }
        match &m[i].1 {
            Data::Null => {},
            Data::Mapping(es, _) => {
                check_entries(name.as_str(), es)?;
            },
            _ => {
                return Err(yaml_error("group sections must be mappings or null"));
            },
        }
        i = i + 1;
    }
    Ok(())
}

} // verus!

verus! {

use super::host::{Host, fresh_host, group_names, same_settings};
use super::group::Group;
use super::ini::{with_name, group_ensured, group_child_added, group_var_set};
use super::{host_index, host_added_to_group};

/// One step of reading a YAML or JSON inventory.
pub enum LoadOp {
    /// Fails with a YAML error of this message.
    Refuse(Seq<char>),
    /// Checks the shape of a YAML group definition.
    Shape(Data),
    /// Adds an empty group of this name unless there is one.
    EnsureGroup(Seq<char>),
    /// Adds host `1` to the group named `0`.
    GroupHost(Seq<char>, Seq<char>),
    /// Adds child `1` to the group named `0`.
    GroupChild(Seq<char>, Seq<char>),
    /// Sets variable `1` of the group named `0` to what value `2` gives.
    GroupVar(Seq<char>, Seq<char>, Data),
    /// Checks that a value is a port.
    Port(Data),
    /// Host `0`, when known, joins group `1`.
    HostJoin(Seq<char>, Seq<char>),
    /// Host `0`, when known, takes variable `1` with what value `2` gives.
    HostVar(Seq<char>, Seq<char>, Data),
    /// Unless known, host `0` is added with variables `1` applied, when they all apply.
    NewHost(Seq<char>, Seq<(Seq<char>, Data)>),
    /// A host entry of a YAML group `0`: host `1` with variables `2`.
    YamlHost(Seq<char>, Seq<char>, Seq<(Seq<char>, Data)>),
    /// A host of a JSON group `0`: host `1`.
    JsonHost(Seq<char>, Seq<char>),
}

/// The host after its variables `vars` apply in order; the first that fails stops.
pub open spec fn host_vars_run(h: Host, vars: Seq<(Seq<char>, Data)>, h2: Host, r: Result<(), InventoryError>) -> bool
    decreases vars.len(),
{
    if vars.len() == 0 {
        h2 == h && r is Ok
    } else {
        exists|v: VarValue, h1: Host, r1: Result<(), InventoryError>|
            var_of(vars[0].1, v) && #[trigger] host_var_step(h, vars[0].0, v, h1, r1) && match r1 {
                Err(e) => h2 == h1 && r == Err::<(), InventoryError>(e),
                Ok(()) => host_vars_run(h1, vars.drop_first(), h2, r),
            }
    }
}

/// The host `h` after it joins group `g`.
pub open spec fn host_joined(h: Host, g: Seq<char>, h2: Host) -> bool {
    &&& group_names(h2.groups@) == with_name(group_names(h.groups@), g)
    &&& same_settings(h2, h)
    &&& h2.vars == h.vars
}

/// The variable `k` of group `g` set to what `d` gives.
pub open spec fn group_var_applied(pg: Seq<Group>, g: Seq<char>, k: Seq<char>, d: Data, qg: Seq<Group>) -> bool {
    exists|v: VarValue| var_of(d, v) && #[trigger] group_var_set(pg, g, k, v, qg)
}

/// Host `h`, when known, joined group `g`.
pub open spec fn host_join_applied(ph: Seq<Host>, h: Seq<char>, g: Seq<char>, qh: Seq<Host>) -> bool {
    match host_index(ph, h) {
        Some(i) => exists|h2: Host| #[trigger] host_joined(ph[i], g, h2) && qh == ph.update(i, h2),
        None => qh == ph,
    }
}

/// Host `h`, when known, took variable `k` with what `d` gives.
pub open spec fn host_var_applied(ph: Seq<Host>, h: Seq<char>, k: Seq<char>, d: Data, qh: Seq<Host>, r: Result<(), InventoryError>) -> bool {
    match host_index(ph, h) {
        Some(i) => exists|v: VarValue, h2: Host|
            var_of(d, v) && #[trigger] host_var_step(ph[i], k, v, h2, r) && qh == ph.update(i, h2),
        None => qh == ph && r is Ok,
    }
}

/// Unless known, host `h` was added with variables `vars` applied, when they all applied.
pub open spec fn new_host_applied(ph: Seq<Host>, h: Seq<char>, vars: Seq<(Seq<char>, Data)>, qh: Seq<Host>, r: Result<(), InventoryError>) -> bool {
    match host_index(ph, h) {
        Some(_) => qh == ph && r is Ok,
        None => exists|h0: Host, h1: Host|
            fresh_host(h0, h) && #[trigger] host_vars_run(h0, vars, h1, r) && if r is Ok {
                qh == ph.push(h1)
            } else {
                qh == ph
            },
    }
}

/// One step that is not compound, from hosts `ph` and groups `pg` to `qh`
/// and `qg`, with outcome `r`.
pub open spec fn simple_step(ph: Seq<Host>, pg: Seq<Group>, op: LoadOp, qh: Seq<Host>, qg: Seq<Group>, r: Result<(), InventoryError>) -> bool {
    match op {
        LoadOp::Refuse(m) => qh == ph && qg == pg && (r matches Err(InventoryError::Yaml(x)) && x@ == m),
        LoadOp::Shape(d) => qh == ph && qg == pg && match shape_fault(d) {
            None => r is Ok,
            Some(f) => (r matches Err(e) && fault_error(f, e)),
        },
        LoadOp::EnsureGroup(n) => r is Ok && qh == ph && group_ensured(pg, n, qg),
        LoadOp::GroupHost(g, h) => r is Ok && qh == ph && host_added_to_group(pg, g, h, qg),
        LoadOp::GroupChild(g, c) => r is Ok && qh == ph && group_child_added(pg, g, c, qg),
        LoadOp::GroupVar(g, k, d) => r is Ok && qh == ph && group_var_applied(pg, g, k, d, qg),
        LoadOp::Port(d) => qh == ph && qg == pg && match data_port(d) {
            Some(_) => r is Ok,
            None => (r matches Err(e) && fault_error(ShapeFault::Port, e)),
        },
        LoadOp::HostJoin(h, g) => r is Ok && qg == pg && host_join_applied(ph, h, g, qh),
        LoadOp::HostVar(h, k, d) => qg == pg && host_var_applied(ph, h, k, d, qh, r),
        LoadOp::NewHost(h, vars) => qg == pg && new_host_applied(ph, h, vars, qh, r),
        _ => false,
    }
}

/// Steps that are not compound, in order; the first that fails stops.
pub open spec fn simple_run(ph: Seq<Host>, pg: Seq<Group>, ops: Seq<LoadOp>, qh: Seq<Host>, qg: Seq<Group>, r: Result<(), InventoryError>) -> bool
    decreases ops.len(),
{
    if ops.len() == 0 {
        qh == ph && qg == pg && r is Ok
    } else {
        exists|mh: Seq<Host>, mg: Seq<Group>, r1: Result<(), InventoryError>|
            #[trigger] simple_step(ph, pg, ops[0], mh, mg, r1) && match r1 {
                Err(e) => qh == mh && qg == mg && r == Err::<(), InventoryError>(e),
                Ok(()) => simple_run(mh, mg, ops.drop_first(), qh, qg, r),
            }
    }
}

/// The steps of a YAML host entry: a known host joins the group and takes
/// the variables; a new one is added with them, and joins the group and
/// `all`; then the group takes the host.
pub open spec fn yaml_host_steps(ph: Seq<Host>, g: Seq<char>, h: Seq<char>, vars: Seq<(Seq<char>, Data)>) -> Seq<LoadOp> {
    if host_index(ph, h) is Some {
        seq![LoadOp::HostJoin(h, g)] + vars.map_values(|kv: (Seq<char>, Data)| LoadOp::HostVar(h, kv.0, kv.1)) + seq![
            LoadOp::GroupHost(g, h),
        ]
    } else {
        seq![LoadOp::NewHost(h, vars), LoadOp::HostJoin(h, g), LoadOp::GroupHost(g, h)] + if g != "all"@ {
            seq![LoadOp::HostJoin(h, "all"@), LoadOp::GroupHost("all"@, h)]
        } else {
            Seq::empty()
        }
    }
}

/// The steps of a JSON group's host: a known host joins the group; a new
/// one is added, in the group and in `all`.
pub open spec fn json_host_steps(ph: Seq<Host>, g: Seq<char>, h: Seq<char>) -> Seq<LoadOp> {
    if host_index(ph, h) is Some {
        seq![LoadOp::HostJoin(h, g)]
    } else {
        seq![LoadOp::NewHost(h, Seq::empty()), LoadOp::HostJoin(h, g), LoadOp::HostJoin(h, "all"@)]
    }
}

/// One step.
pub open spec fn step(ph: Seq<Host>, pg: Seq<Group>, op: LoadOp, qh: Seq<Host>, qg: Seq<Group>, r: Result<(), InventoryError>) -> bool {
    match op {
        LoadOp::YamlHost(g, h, vars) => simple_run(ph, pg, yaml_host_steps(ph, g, h, vars), qh, qg, r),
        LoadOp::JsonHost(g, h) => simple_run(ph, pg, json_host_steps(ph, g, h), qh, qg, r),
        _ => simple_step(ph, pg, op, qh, qg, r),
    }
}

/// Steps in order; the first that fails stops.
pub open spec fn run(ph: Seq<Host>, pg: Seq<Group>, ops: Seq<LoadOp>, qh: Seq<Host>, qg: Seq<Group>, r: Result<(), InventoryError>) -> bool
    decreases ops.len(),
{
    if ops.len() == 0 {
        qh == ph && qg == pg && r is Ok
    } else {
        exists|mh: Seq<Host>, mg: Seq<Group>, r1: Result<(), InventoryError>|
            #[trigger] step(ph, pg, ops[0], mh, mg, r1) && match r1 {
                Err(e) => qh == mh && qg == mg && r == Err::<(), InventoryError>(e),
                Ok(()) => run(mh, mg, ops.drop_first(), qh, qg, r),
            }
    }
}

/// Runs compose: after `a` ran through, `b` runs from where it ended.
pub proof fn lemma_run_concat(
    ph: Seq<Host>, pg: Seq<Group>, a: Seq<LoadOp>, b: Seq<LoadOp>, mh: Seq<Host>, mg: Seq<Group>, qh: Seq<Host>, qg: Seq<Group>,
    r: Result<(), InventoryError>,
)
    requires
        run(ph, pg, a, mh, mg, Ok(())),
        run(mh, mg, b, qh, qg, r),
    ensures
        run(ph, pg, a + b, qh, qg, r),
    decreases a.len(),
{
    if a.len() == 0 {
        assert(a + b =~= b);
    } else {
        let (h1, g1, r1) = choose|h1: Seq<Host>, g1: Seq<Group>, r1: Result<(), InventoryError>|
            #[trigger] step(ph, pg, a[0], h1, g1, r1) && match r1 {
                Err(e) => mh == h1 && mg == g1 && Ok::<(), InventoryError>(()) == Err::<(), InventoryError>(e),
                Ok(()) => run(h1, g1, a.drop_first(), mh, mg, Ok(())),
            };
        lemma_run_concat(h1, g1, a.drop_first(), b, mh, mg, qh, qg, r);
        assert((a + b).drop_first() =~= a.drop_first() + b);
        assert((a + b)[0] == a[0]);
    }
}

/// A run that failed stays failed whatever steps follow.
pub proof fn lemma_run_fail_extend(ph: Seq<Host>, pg: Seq<Group>, a: Seq<LoadOp>, b: Seq<LoadOp>, qh: Seq<Host>, qg: Seq<Group>, e: InventoryError)
    requires
        run(ph, pg, a, qh, qg, Err(e)),
    ensures
        run(ph, pg, a + b, qh, qg, Err(e)),
    decreases a.len(),
{
    if a.len() > 0 {
        let (h1, g1, r1) = choose|h1: Seq<Host>, g1: Seq<Group>, r1: Result<(), InventoryError>|
            #[trigger] step(ph, pg, a[0], h1, g1, r1) && match r1 {
                Err(e2) => qh == h1 && qg == g1 && Err::<(), InventoryError>(e) == Err::<(), InventoryError>(e2),
                Ok(()) => run(h1, g1, a.drop_first(), qh, qg, Err(e)),
            };
        assert((a + b).drop_first() =~= a.drop_first() + b);
        assert((a + b)[0] == a[0]);
        if r1 is Ok {
            lemma_run_fail_extend(h1, g1, a.drop_first(), b, qh, qg, e);
        }
    }
}

/// A single step is a run.
pub proof fn lemma_run_one(ph: Seq<Host>, pg: Seq<Group>, op: LoadOp, qh: Seq<Host>, qg: Seq<Group>, r: Result<(), InventoryError>)
    requires
        step(ph, pg, op, qh, qg, r),
    ensures
        run(ph, pg, seq![op], qh, qg, r),
{
    let s = seq![op];
    assert(s[0] == op);
    assert(s.drop_first() =~= Seq::<LoadOp>::empty());
    if r is Ok {
        assert(run(qh, qg, s.drop_first(), qh, qg, r));
    }
    assert(step(ph, pg, s[0], qh, qg, r));
}

/// Simple runs compose.
pub proof fn lemma_simple_concat(
    ph: Seq<Host>, pg: Seq<Group>, a: Seq<LoadOp>, b: Seq<LoadOp>, mh: Seq<Host>, mg: Seq<Group>, qh: Seq<Host>, qg: Seq<Group>,
    r: Result<(), InventoryError>,
)
    requires
        simple_run(ph, pg, a, mh, mg, Ok(())),
        simple_run(mh, mg, b, qh, qg, r),
    ensures
        simple_run(ph, pg, a + b, qh, qg, r),
    decreases a.len(),
{
    if a.len() == 0 {
        assert(a + b =~= b);
    } else {
        let (h1, g1, r1) = choose|h1: Seq<Host>, g1: Seq<Group>, r1: Result<(), InventoryError>|
            #[trigger] simple_step(ph, pg, a[0], h1, g1, r1) && match r1 {
                Err(e) => mh == h1 && mg == g1 && Ok::<(), InventoryError>(()) == Err::<(), InventoryError>(e),
                Ok(()) => simple_run(h1, g1, a.drop_first(), mh, mg, Ok(())),
            };
        lemma_simple_concat(h1, g1, a.drop_first(), b, mh, mg, qh, qg, r);
        assert((a + b).drop_first() =~= a.drop_first() + b);
        assert((a + b)[0] == a[0]);
    }
}

/// A failed simple run stays failed whatever steps follow.
pub proof fn lemma_simple_fail_extend(ph: Seq<Host>, pg: Seq<Group>, a: Seq<LoadOp>, b: Seq<LoadOp>, qh: Seq<Host>, qg: Seq<Group>, e: InventoryError)
    requires
        simple_run(ph, pg, a, qh, qg, Err(e)),
    ensures
        simple_run(ph, pg, a + b, qh, qg, Err(e)),
    decreases a.len(),
{
    if a.len() > 0 {
        let (h1, g1, r1) = choose|h1: Seq<Host>, g1: Seq<Group>, r1: Result<(), InventoryError>|
            #[trigger] simple_step(ph, pg, a[0], h1, g1, r1) && match r1 {
                Err(e2) => qh == h1 && qg == g1 && Err::<(), InventoryError>(e) == Err::<(), InventoryError>(e2),
                Ok(()) => simple_run(h1, g1, a.drop_first(), qh, qg, Err(e)),
            };
        assert((a + b).drop_first() =~= a.drop_first() + b);
        assert((a + b)[0] == a[0]);
        if r1 is Ok {
            lemma_simple_fail_extend(h1, g1, a.drop_first(), b, qh, qg, e);
        }
    }
}

/// A single simple step is a simple run.
pub proof fn lemma_simple_one(ph: Seq<Host>, pg: Seq<Group>, op: LoadOp, qh: Seq<Host>, qg: Seq<Group>, r: Result<(), InventoryError>)
    requires
        simple_step(ph, pg, op, qh, qg, r),
    ensures
        simple_run(ph, pg, seq![op], qh, qg, r),
{
    let s = seq![op];
    assert(s[0] == op);
    assert(s.drop_first() =~= Seq::<LoadOp>::empty());
    if r is Ok {
        assert(simple_run(qh, qg, s.drop_first(), qh, qg, r));
    }
    assert(simple_step(ph, pg, s[0], qh, qg, r));
}

/// Host variables compose.
pub proof fn lemma_host_vars_concat(h: Host, a: Seq<(Seq<char>, Data)>, b: Seq<(Seq<char>, Data)>, mid: Host, post: Host, r: Result<(), InventoryError>)
    requires
        host_vars_run(h, a, mid, Ok(())),
        host_vars_run(mid, b, post, r),
    ensures
        host_vars_run(h, a + b, post, r),
    decreases a.len(),
{
    if a.len() == 0 {
        assert(a + b =~= b);
    } else {
        let (v, h1, r1) = choose|v: VarValue, h1: Host, r1: Result<(), InventoryError>|
            var_of(a[0].1, v) && #[trigger] host_var_step(h, a[0].0, v, h1, r1) && match r1 {
                Err(e) => mid == h1 && Ok::<(), InventoryError>(()) == Err::<(), InventoryError>(e),
                Ok(()) => host_vars_run(h1, a.drop_first(), mid, Ok(())),
            };
        lemma_host_vars_concat(h1, a.drop_first(), b, mid, post, r);
        assert((a + b).drop_first() =~= a.drop_first() + b);
        assert((a + b)[0] == a[0]);
    }
}

/// A variable that fails stops the host's variables.
pub proof fn lemma_host_vars_fail_extend(h: Host, a: Seq<(Seq<char>, Data)>, b: Seq<(Seq<char>, Data)>, post: Host, e: InventoryError)
    requires
        host_vars_run(h, a, post, Err(e)),
    ensures
        host_vars_run(h, a + b, post, Err(e)),
    decreases a.len(),
{
    if a.len() > 0 {
        let (v, h1, r1) = choose|v: VarValue, h1: Host, r1: Result<(), InventoryError>|
            var_of(a[0].1, v) && #[trigger] host_var_step(h, a[0].0, v, h1, r1) && match r1 {
                Err(e2) => post == h1 && Err::<(), InventoryError>(e) == Err::<(), InventoryError>(e2),
                Ok(()) => host_vars_run(h1, a.drop_first(), post, Err(e)),
            };
        assert((a + b).drop_first() =~= a.drop_first() + b);
        assert((a + b)[0] == a[0]);
        if r1 is Ok {
            lemma_host_vars_fail_extend(h1, a.drop_first(), b, post, e);
        }
    }
}

/// One variable is a run of host variables.
pub proof fn lemma_host_vars_one(h: Host, kv: (Seq<char>, Data), v: VarValue, h2: Host, r: Result<(), InventoryError>)
    requires
        var_of(kv.1, v),
        host_var_step(h, kv.0, v, h2, r),
    ensures
        host_vars_run(h, seq![kv], h2, r),
{
    let s = seq![kv];
    assert(s[0] == kv);
    assert(s.drop_first() =~= Seq::<(Seq<char>, Data)>::empty());
    if r is Ok {
        assert(host_vars_run(h2, s.drop_first(), h2, r));
    }
    assert(var_of(s[0].1, v) && host_var_step(h, s[0].0, v, h2, r));
}

} // verus!

verus! {

use super::{find_host, add_host_to_group, Inventory};
use super::graph::find_group;
use crate::text::{views, copy_str};

/// The entries of a mapping with string keys, by their keys' text.
pub open spec fn string_keyed(m: Seq<(Data, Data)>) -> Seq<(Seq<char>, Data)>
    decreases m.len(),
{
    if m.len() == 0 {
        Seq::empty()
    } else {
        string_keyed(m.drop_last()) + match str_of(m.last().0) {
            Some(k) => seq![(k, m.last().1)],
            None => Seq::empty(),
        }
    }
}

/// The variables of a host entry: those of a mapping with string keys.
pub open spec fn entry_vars(v: Data) -> Seq<(Seq<char>, Data)> {
    match v {
        Data::Mapping(m, _) => string_keyed(m@),
        _ => Seq::empty(),
    }
}

impl Inventory {
    fn do_ensure_group(&mut self, n: &str)
        ensures
            step(old(self).hosts@, old(self).groups@, LoadOp::EnsureGroup(n@), final(self).hosts@, final(self).groups@, Ok(())),
    {
        self.ensure_group(n);
    }

    fn do_group_host(&mut self, g: &str, h: &str)
        ensures
            step(old(self).hosts@, old(self).groups@, LoadOp::GroupHost(g@, h@), final(self).hosts@, final(self).groups@, Ok(())),
    {
        add_host_to_group(&mut self.groups, g, h);
    }

    fn do_group_child(&mut self, g: &str, c: &str)
        ensures
            step(old(self).hosts@, old(self).groups@, LoadOp::GroupChild(g@, c@), final(self).hosts@, final(self).groups@, Ok(())),
    {
        match find_group(&self.groups, g) {
            Some(gi) => {
                let ghost before = self.groups@;
                self.groups[gi].add_child(c);
                proof {
                    assert(forall|x: int| 0 <= x < before.len() && x != gi ==> #[trigger] self.groups@[x] == before[x]);
                }
            },
            None => {},
        }
    }

    fn do_group_var(&mut self, g: &str, k: &str, d: &Data)
        ensures
            step(old(self).hosts@, old(self).groups@, LoadOp::GroupVar(g@, k@, *d), final(self).hosts@, final(self).groups@, Ok(())),
    {
        let v = to_var(d);
        let ghost vv = v;
        match find_group(&self.groups, g) {
            Some(gi) => {
                let ghost before = self.groups@;
                self.groups[gi].set_var(k, v);
                proof {
                    assert(forall|x: int| 0 <= x < before.len() && x != gi ==> #[trigger] self.groups@[x] == before[x]);
                }
            },
            None => {},
        }
        proof {
            assert(var_of(*d, vv) && group_var_set(old(self).groups@, g@, k@, vv, self.groups@));
        }
    }

    fn do_host_join(&mut self, h: &str, g: &str)
        ensures
            step(old(self).hosts@, old(self).groups@, LoadOp::HostJoin(h@, g@), final(self).hosts@, final(self).groups@, Ok(())),
    {
        match find_host(&self.hosts, h) {
            Some(i) => {
                let ghost before = self.hosts@;
                self.hosts[i].add_to_group(g);
                proof {
                    assert(self.hosts@ =~= before.update(i as int, self.hosts@[i as int]));
                    assert(host_joined(before[i as int], g@, self.hosts@[i as int]));
                }
            },
            None => {},
        }
    }

    fn do_host_var(&mut self, h: &str, k: &str, d: &Data) -> (r: Result<(), InventoryError>)
        ensures
            step(old(self).hosts@, old(self).groups@, LoadOp::HostVar(h@, k@, *d), final(self).hosts@, final(self).groups@, r),
    {
        match find_host(&self.hosts, h) {
            Some(i) => {
                let ghost before = self.hosts@;
                let v = to_var(d);
                let ghost vv = v;
                let r = apply_host_var(&mut self.hosts[i], k, v);
                proof {
                    assert(self.hosts@ =~= before.update(i as int, self.hosts@[i as int]));
                    assert(var_of(*d, vv) && host_var_step(before[i as int], k@, vv, self.hosts@[i as int], r));
                }
                r
            },
            None => Ok(()),
        }
    }

    fn do_port(&self, d: &Data) -> (r: Result<(), InventoryError>)
        ensures
            step(self.hosts@, self.groups@, LoadOp::Port(*d), self.hosts@, self.groups@, r),
    {
        data_port_check(d)
    }

    /// Adds a new host with the string-keyed variables of `vars`, unless the
    /// host is known.
    fn do_new_host(&mut self, h: &str, vars: &Data) -> (r: Result<(), InventoryError>)
        ensures
            step(old(self).hosts@, old(self).groups@, LoadOp::NewHost(h@, entry_vars(*vars)), final(self).hosts@, final(self).groups@, r),
    {
        if find_host(&self.hosts, h).is_some() {
            return Ok(());
        }
        let mut fresh = Host::new(h);
        let ghost h0 = fresh;
        match vars {
            Data::Mapping(m, _) => {
                let mut i: usize = 0;
                proof {
                    assert(m@.take(0) =~= Seq::<(Data, Data)>::empty());
                    assert(host_vars_run(h0, string_keyed(m@.take(0)), fresh, Ok(())));
                    assert(entry_vars(*vars) == string_keyed(m@));
                }
                while i < m.len()
                    invariant
                        i <= m@.len(),
                        fresh_host(h0, h@),
                        entry_vars(*vars) == string_keyed(m@),
                        host_index(old(self).hosts@, h@) is None,
                        self.hosts@ == old(self).hosts@,
                        self.groups@ == old(self).groups@,
                        host_vars_run(h0, string_keyed(m@.take(i as int)), fresh, Ok(())),
                    decreases m@.len() - i,
                {
                    proof {
                        assert(m@.take(i + 1).drop_last() =~= m@.take(i as int));
                        assert(m@.take(i + 1).last() == m@[i as int]);
                    }
                    let ghost h_before = fresh;
                    match &m[i].0 {
                        Data::Str(key) => {
                            let v = to_var(&m[i].1);
                            let ghost vv = v;
                            let r = apply_host_var(&mut fresh, key.as_str(), v);
                            proof {
                                let kv = (key@, m@[i as int].1);
                                lemma_host_vars_one(h_before, kv, vv, fresh, r);
                                assert(string_keyed(m@.take(i + 1)) == string_keyed(m@.take(i as int)) + seq![kv]);
                            }
                            match r {
                                Err(e) => {
                                    proof {
                                        let pre = string_keyed(m@.take(i as int));
                                        let kv = (key@, m@[i as int].1);
                                        lemma_host_vars_concat(h0, pre, seq![kv], h_before, fresh, r);
                                        lemma_string_keyed_prefix(m@, i + 1);
                                        let all = string_keyed(m@);
                                        let done = string_keyed(m@.take(i + 1));
                                        lemma_host_vars_fail_extend(h0, done, all.subrange(done.len() as int, all.len() as int), fresh, e);
                                        assert(host_vars_run(h0, all, fresh, Err(e)));
                                        assert(entry_vars(*vars) == all);
                                        assert(host_index(old(self).hosts@, h@) is None);
                                        assert(fresh_host(h0, h@) && host_vars_run(h0, entry_vars(*vars), fresh, r));
                                        assert(new_host_applied(old(self).hosts@, h@, entry_vars(*vars), self.hosts@, r));
                                    }
                                    return Err(e);
                                },
                                Ok(()) => {
                                    proof {
                                        let pre = string_keyed(m@.take(i as int));
                                        let kv = (key@, m@[i as int].1);
                                        assert(r is Ok);
                                        assert(r->Ok_0 == ());
                                        assert(r == Ok::<(), InventoryError>(()));
                                        lemma_host_vars_concat(h0, pre, seq![kv], h_before, fresh, r);
                                        assert(string_keyed(m@.take(i + 1)) == pre + seq![kv]);
                                        assert(host_vars_run(h0, string_keyed(m@.take(i + 1)), fresh, Ok(())));
                                    }
                                },
                            }
                        },
                        _ => {
                            proof {
                                assert(string_keyed(m@.take(i + 1)) =~= string_keyed(m@.take(i as int)));
                            }
                        },
                    }
                    i = i + 1;
                }
                proof {
                    assert(m@.take(m@.len() as int) =~= m@);
                    assert(entry_vars(*vars) == string_keyed(m@));
                }
            },
            _ => {
                proof {
                    assert(host_vars_run(h0, Seq::empty(), fresh, Ok(())));
                    assert(entry_vars(*vars) == Seq::<(Seq<char>, Data)>::empty());
                }
            },
        }
        let ghost before = self.hosts@;
        let ghost h1 = fresh;
        self.hosts.push(fresh);
        proof {
            assert(self.hosts@ == before.push(h1));
            assert(fresh_host(h0, h@) && host_vars_run(h0, entry_vars(*vars), h1, Ok(())));
            assert(new_host_applied(old(self).hosts@, h@, entry_vars(*vars), self.hosts@, Ok(())));
        }
        Ok(())
    }
}

/// The variables of a prefix of the entries start those of all entries.
proof fn lemma_string_keyed_prefix(m: Seq<(Data, Data)>, n: int)
    requires
        0 <= n <= m.len(),
    ensures
        string_keyed(m.take(n)).len() <= string_keyed(m).len(),
        string_keyed(m) == string_keyed(m.take(n)) + string_keyed(m).subrange(string_keyed(m.take(n)).len() as int, string_keyed(m).len() as int),
    decreases m.len() - n,
{
    if n == m.len() {
        assert(m.take(n) =~= m);
        assert(string_keyed(m).subrange(string_keyed(m).len() as int, string_keyed(m).len() as int) =~= Seq::<(Seq<char>, Data)>::empty());
        assert(string_keyed(m) =~= string_keyed(m) + Seq::<(Seq<char>, Data)>::empty());
    } else {
        lemma_string_keyed_prefix(m, n + 1);
        assert(m.take(n + 1).drop_last() =~= m.take(n));
        let a = string_keyed(m.take(n));
        let b = string_keyed(m.take(n + 1));
        let all = string_keyed(m);
        assert(b.len() >= a.len());
        assert(b.take(a.len() as int) =~= a);
        assert(all =~= a + all.subrange(a.len() as int, all.len() as int));
    }
}

} // verus!

verus! {

/// The variable steps of a known host.
pub open spec fn host_var_ops(h: Seq<char>, vars: Seq<(Seq<char>, Data)>) -> Seq<LoadOp> {
    vars.map_values(|kv: (Seq<char>, Data)| LoadOp::HostVar(h, kv.0, kv.1))
}

impl Inventory {
    /// A host entry of a YAML group, as `yaml_host_steps` states it.
    fn do_yaml_host(&mut self, g: &str, h: &str, hv: &Data) -> (r: Result<(), InventoryError>)
        ensures
            step(old(self).hosts@, old(self).groups@, LoadOp::YamlHost(g@, h@, entry_vars(*hv)), final(self).hosts@, final(self).groups@, r),
    {
        let ghost ph = self.hosts@;
        let ghost pg = self.groups@;
        let ghost steps = yaml_host_steps(ph, g@, h@, entry_vars(*hv));
        if find_host(&self.hosts, h).is_some() {
            proof {
                assert(steps == seq![LoadOp::HostJoin(h@, g@)] + host_var_ops(h@, entry_vars(*hv)) + seq![LoadOp::GroupHost(g@, h@)]);
            }
            let ghost h0 = self.hosts@;
            let ghost g0 = self.groups@;
            self.do_host_join(h, g);
            proof {
                lemma_simple_one(h0, g0, LoadOp::HostJoin(h@, g@), self.hosts@, self.groups@, Ok(()));
            }
            let ghost head = seq![LoadOp::HostJoin(h@, g@)];
            match hv {
                Data::Mapping(m, _) => {
                    let mut i: usize = 0;
                    proof {
                        assert(m@.take(0) =~= Seq::<(Data, Data)>::empty());
                        assert(head + host_var_ops(h@, string_keyed(m@.take(0))) =~= head);
                    }
                    while i < m.len()
                        invariant
                            i <= m@.len(),
                            entry_vars(*hv) == string_keyed(m@),
                            ph == old(self).hosts@,
                            pg == old(self).groups@,
                            steps == yaml_host_steps(ph, g@, h@, entry_vars(*hv)),
                            steps == head + host_var_ops(h@, string_keyed(m@)) + seq![LoadOp::GroupHost(g@, h@)],
                            head == seq![LoadOp::HostJoin(h@, g@)],
                            simple_run(ph, pg, head + host_var_ops(h@, string_keyed(m@.take(i as int))), self.hosts@, self.groups@, Ok(())),
                        decreases m@.len() - i,
                    {
                        proof {
                            assert(m@.take(i + 1).drop_last() =~= m@.take(i as int));
                            assert(m@.take(i + 1).last() == m@[i as int]);
                        }
                        let ghost hs1 = self.hosts@;
                        let ghost gs1 = self.groups@;
                        match &m[i].0 {
                            Data::Str(key) => {
                                let r = self.do_host_var(h, key.as_str(), &m[i].1);
                                let ghost op = LoadOp::HostVar(h@, key@, m@[i as int].1);
                                proof {
                                    lemma_simple_one(hs1, gs1, op, self.hosts@, self.groups@, r);
                                    let pre = head + host_var_ops(h@, string_keyed(m@.take(i as int)));
                                    assert(string_keyed(m@.take(i + 1)) == string_keyed(m@.take(i as int)) + seq![(key@, m@[i as int].1)]);
                                    assert(head + host_var_ops(h@, string_keyed(m@.take(i + 1))) =~= pre + seq![op]);
                                }
                                match r {
                                    Err(e) => {
                                        proof {
                                            let pre = head + host_var_ops(h@, string_keyed(m@.take(i as int)));
                                            lemma_simple_concat(ph, pg, pre, seq![op], hs1, gs1, self.hosts@, self.groups@, r);
                                            let done = head + host_var_ops(h@, string_keyed(m@.take(i + 1)));
                                            lemma_string_keyed_prefix(m@, i + 1);
                                            let all = string_keyed(m@);
                                            let k = string_keyed(m@.take(i + 1)).len() as int;
                                            let rest = host_var_ops(h@, all.subrange(k, all.len() as int)) + seq![LoadOp::GroupHost(g@, h@)];
                                            lemma_simple_fail_extend(ph, pg, done, rest, self.hosts@, self.groups@, e);
                                            assert(host_var_ops(h@, all) =~= host_var_ops(h@, string_keyed(m@.take(i + 1))) + host_var_ops(h@, all.subrange(k, all.len() as int)));
                                            assert(done + rest =~= steps);
                                        }
                                        return Err(e);
                                    },
                                    Ok(()) => {
                                        proof {
                                            assert(r->Ok_0 == ());
                                            let pre = head + host_var_ops(h@, string_keyed(m@.take(i as int)));
                                            lemma_simple_concat(ph, pg, pre, seq![op], hs1, gs1, self.hosts@, self.groups@, r);
                                        }
                                    },
                                }
                            },
                            _ => {
                                proof {
                                    assert(string_keyed(m@.take(i + 1)) =~= string_keyed(m@.take(i as int)));
                                }
                            },
                        }
                        i = i + 1;
                    }
                    proof {
                        assert(m@.take(m@.len() as int) =~= m@);
                    }
                },
                _ => {
                    proof {
                        assert(entry_vars(*hv) =~= Seq::<(Seq<char>, Data)>::empty());
                        assert(host_var_ops(h@, entry_vars(*hv)) =~= Seq::<LoadOp>::empty());
                        assert(head + host_var_ops(h@, entry_vars(*hv)) =~= head);
                    }
                },
            }
            let ghost hs2 = self.hosts@;
            let ghost gs2 = self.groups@;
            self.do_group_host(g, h);
            proof {
                lemma_simple_one(hs2, gs2, LoadOp::GroupHost(g@, h@), self.hosts@, self.groups@, Ok(()));
                lemma_simple_concat(ph, pg, head + host_var_ops(h@, entry_vars(*hv)), seq![LoadOp::GroupHost(g@, h@)], hs2, gs2, self.hosts@, self.groups@, Ok(()));
            }
            Ok(())
        } else {
            let ghost vars = entry_vars(*hv);
            let r = self.do_new_host(h, hv);
            let ghost op0 = LoadOp::NewHost(h@, vars);
            proof {
                lemma_simple_one(ph, pg, op0, self.hosts@, self.groups@, r);
            }
            let ghost tail = seq![LoadOp::HostJoin(h@, g@), LoadOp::GroupHost(g@, h@)] + if g@ != "all"@ {
                seq![LoadOp::HostJoin(h@, "all"@), LoadOp::GroupHost("all"@, h@)]
            } else {
                Seq::<LoadOp>::empty()
            };
            proof {
                assert(steps =~= seq![op0] + tail);
            }
            match r {
                Err(e) => {
                    proof {
                        lemma_simple_fail_extend(ph, pg, seq![op0], tail, self.hosts@, self.groups@, e);
                    }
                    return Err(e);
                },
                Ok(()) => {},
            }
            proof {
                assert(r->Ok_0 == ());
            }
            let ghost h1 = self.hosts@;
            let ghost g1 = self.groups@;
            self.do_host_join(h, g);
            let ghost h2 = self.hosts@;
            let ghost g2 = self.groups@;
            self.do_group_host(g, h);
            let ghost h3 = self.hosts@;
            let ghost g3 = self.groups@;
            proof {
                lemma_simple_one(h1, g1, LoadOp::HostJoin(h@, g@), h2, g2, Ok(()));
                lemma_simple_one(h2, g2, LoadOp::GroupHost(g@, h@), h3, g3, Ok(()));
                lemma_simple_concat(ph, pg, seq![op0], seq![LoadOp::HostJoin(h@, g@)], h1, g1, h2, g2, Ok(()));
                lemma_simple_concat(ph, pg, seq![op0] + seq![LoadOp::HostJoin(h@, g@)], seq![LoadOp::GroupHost(g@, h@)], h2, g2, h3, g3, Ok(()));
                assert(seq![op0] + seq![LoadOp::HostJoin(h@, g@)] + seq![LoadOp::GroupHost(g@, h@)] =~= seq![op0] + seq![LoadOp::HostJoin(h@, g@), LoadOp::GroupHost(g@, h@)]);
            }
            if !crate::text::str_equal(g, "all") {
                self.do_host_join(h, "all");
                let ghost h4 = self.hosts@;
                let ghost g4 = self.groups@;
                self.do_group_host("all", h);
                proof {
                    let first = seq![op0] + seq![LoadOp::HostJoin(h@, g@), LoadOp::GroupHost(g@, h@)];
                    lemma_simple_one(h3, g3, LoadOp::HostJoin(h@, "all"@), h4, g4, Ok(()));
                    lemma_simple_one(h4, g4, LoadOp::GroupHost("all"@, h@), self.hosts@, self.groups@, Ok(()));
                    lemma_simple_concat(ph, pg, first, seq![LoadOp::HostJoin(h@, "all"@)], h3, g3, h4, g4, Ok(()));
                    lemma_simple_concat(ph, pg, first + seq![LoadOp::HostJoin(h@, "all"@)], seq![LoadOp::GroupHost("all"@, h@)], h4, g4, self.hosts@, self.groups@, Ok(()));
                    assert(first + seq![LoadOp::HostJoin(h@, "all"@)] + seq![LoadOp::GroupHost("all"@, h@)] =~= steps);
                }
            } else {
                proof {
                    assert(seq![op0] + seq![LoadOp::HostJoin(h@, g@), LoadOp::GroupHost(g@, h@)] =~= steps);
                }
            }
            Ok(())
        }
    }

    /// A host of a JSON group, as `json_host_steps` states it.
    fn do_json_host(&mut self, g: &str, h: &str) -> (r: Result<(), InventoryError>)
        ensures
            step(old(self).hosts@, old(self).groups@, LoadOp::JsonHost(g@, h@), final(self).hosts@, final(self).groups@, r),
    {
        let ghost ph = self.hosts@;
        let ghost pg = self.groups@;
        let ghost steps = json_host_steps(ph, g@, h@);
        if find_host(&self.hosts, h).is_some() {
            self.do_host_join(h, g);
            proof {
                lemma_simple_one(ph, pg, LoadOp::HostJoin(h@, g@), self.hosts@, self.groups@, Ok(()));
            }
            return Ok(());
        }
        let nothing = Data::Null;
        let r = self.do_new_host(h, &nothing);
        let ghost op0 = LoadOp::NewHost(h@, Seq::empty());
        proof {
            assert(entry_vars(nothing) =~= Seq::<(Seq<char>, Data)>::empty());
            lemma_simple_one(ph, pg, op0, self.hosts@, self.groups@, r);
            assert(steps =~= seq![op0] + seq![LoadOp::HostJoin(h@, g@), LoadOp::HostJoin(h@, "all"@)]);
        }
        match r {
            Err(e) => {
                proof {
                    lemma_simple_fail_extend(ph, pg, seq![op0], seq![LoadOp::HostJoin(h@, g@), LoadOp::HostJoin(h@, "all"@)], self.hosts@, self.groups@, e);
                }
                return Err(e);
            },
            Ok(()) => {},
        }
        proof {
            assert(r->Ok_0 == ());
        }
        let ghost h1 = self.hosts@;
        let ghost g1 = self.groups@;
        self.do_host_join(h, g);
        let ghost h2 = self.hosts@;
        let ghost g2 = self.groups@;
        self.do_host_join(h, "all");
        proof {
            lemma_simple_one(h1, g1, LoadOp::HostJoin(h@, g@), h2, g2, Ok(()));
            lemma_simple_one(h2, g2, LoadOp::HostJoin(h@, "all"@), self.hosts@, self.groups@, Ok(()));
            lemma_simple_concat(ph, pg, seq![op0], seq![LoadOp::HostJoin(h@, g@)], h1, g1, h2, g2, Ok(()));
            lemma_simple_concat(ph, pg, seq![op0] + seq![LoadOp::HostJoin(h@, g@)], seq![LoadOp::HostJoin(h@, "all"@)], h2, g2, self.hosts@, self.groups@, Ok(()));
            assert(seq![op0] + seq![LoadOp::HostJoin(h@, g@)] + seq![LoadOp::HostJoin(h@, "all"@)] =~= steps);
        }
        Ok(())
    }
}

} // verus!

verus! {

/// A value found in a mapping is no larger than the mapping's entries.
pub proof fn lemma_map_get_size(m: Seq<(Data, Data)>, key: Seq<char>)
    ensures
        map_get(m, key) matches Some(d) ==> data_size(d) <= entries_size(m),
    decreases m.len(),
{
    if m.len() > 0 {
        lemma_map_get_size(m.drop_first(), key);
        lemma_entries_size_first(m);
    }
}

/// The size of entries splits into that of the first entry and the rest.
pub proof fn lemma_entries_size_first(m: Seq<(Data, Data)>)
    requires
        m.len() > 0,
    ensures
        entries_size(m) == data_size(m[0].0) + data_size(m[0].1) + entries_size(m.drop_first()),
    decreases m.len(),
{
    if m.len() > 1 {
        lemma_entries_size_first(m.drop_last());
        assert(m.drop_last().drop_first() =~= m.drop_first().drop_last());
        assert(m.drop_first().last() == m.last());
        assert(m.drop_last()[0] == m[0]);
    } else {
        assert(m.drop_last() =~= Seq::<(Data, Data)>::empty());
        assert(m.drop_first() =~= Seq::<(Data, Data)>::empty());
    }
}

/// The size of a value is at least one.
pub proof fn lemma_data_size_positive(d: Data)
    ensures
        data_size(d) >= 1,
{
}

/// The steps of the hosts of a YAML group: one entry per host named by a string.
pub open spec fn yaml_hosts_ops(name: Seq<char>, hm: Seq<(Data, Data)>) -> Seq<LoadOp>
    decreases hm.len(),
{
    if hm.len() == 0 {
        Seq::empty()
    } else {
        yaml_hosts_ops(name, hm.drop_last()) + match str_of(hm.last().0) {
            Some(h) => seq![LoadOp::YamlHost(name, h, entry_vars(hm.last().1))],
            None => Seq::empty(),
        }
    }
}

/// The steps of the variables of a YAML group.
pub open spec fn yaml_vars_ops(name: Seq<char>, vm: Seq<(Data, Data)>) -> Seq<LoadOp> {
    string_keyed(vm).map_values(|kv: (Seq<char>, Data)| LoadOp::GroupVar(name, kv.0, kv.1))
}

/// The steps of the children of a YAML group: each child named by a string
/// joins the group and is read as a group in turn.
pub open spec fn yaml_children_ops(name: Seq<char>, cm: Seq<(Data, Data)>) -> Seq<LoadOp>
    decreases entries_size(cm),
{
    if cm.len() == 0 {
        Seq::empty()
    } else {
        proof {
            lemma_data_size_positive(cm.last().0);
            lemma_data_size_positive(cm.last().1);
        }
        yaml_children_ops(name, cm.drop_last()) + match str_of(cm.last().0) {
            Some(c) => seq![LoadOp::GroupChild(name, c)] + yaml_group_ops(c, cm.last().1),
            None => Seq::empty(),
        }
    }
}

/// The steps of a YAML group definition: its shape is checked and the group
/// made; then its hosts, its children and its variables are read.
pub open spec fn yaml_group_ops(name: Seq<char>, value: Data) -> Seq<LoadOp>
    decreases data_size(value),
{
    seq![LoadOp::Shape(value), LoadOp::EnsureGroup(name)] + match value {
        Data::Mapping(m, _) => {
            let hosts = match map_get(m@, "hosts"@) {
                Some(Data::Mapping(hm, _)) => yaml_hosts_ops(name, hm@),
                _ => Seq::empty(),
            };
            let children = match map_get(m@, "children"@) {
                Some(Data::Mapping(cm, _)) => {
                    proof {
                        lemma_map_get_size(m@, "children"@);
                    }
                    yaml_children_ops(name, cm@)
                },
                _ => Seq::empty(),
            };
            let vars = match map_get(m@, "vars"@) {
                Some(Data::Mapping(vm, _)) => yaml_vars_ops(name, vm@),
                _ => Seq::empty(),
            };
            hosts + children + vars
        },
        _ => Seq::empty(),
    }
}

/// The steps of the groups of a YAML inventory, each named by a string.
pub open spec fn yaml_top_ops(m: Seq<(Data, Data)>) -> Seq<LoadOp>
    decreases m.len(),
{
    if m.len() == 0 {
        Seq::empty()
    } else {
        yaml_top_ops(m.drop_last()) + match str_of(m.last().0) {
            Some(n) => yaml_group_ops(n, m.last().1),
            None => seq![LoadOp::Refuse("group names must be strings"@)],
        }
    }
}

/// The steps of a YAML inventory: a mapping of groups.
pub open spec fn yaml_doc_ops(doc: Data) -> Seq<LoadOp> {
    match doc {
        Data::Mapping(m, _) => yaml_top_ops(m@),
        _ => seq![LoadOp::Refuse("inventory must be a mapping of groups"@)],
    }
}

} // verus!

verus! {

proof fn lemma_hosts_ops_concat(name: Seq<char>, a: Seq<(Data, Data)>, b: Seq<(Data, Data)>)
    ensures
        yaml_hosts_ops(name, a + b) == yaml_hosts_ops(name, a) + yaml_hosts_ops(name, b),
    decreases b.len(),
{
    if b.len() == 0 {
        assert(a + b =~= a);
        assert(yaml_hosts_ops(name, a) + yaml_hosts_ops(name, b) =~= yaml_hosts_ops(name, a));
    } else {
        lemma_hosts_ops_concat(name, a, b.drop_last());
        assert((a + b).drop_last() =~= a + b.drop_last());
        assert((a + b).last() == b.last());
        let piece = match str_of(b.last().0) {
            Some(h) => seq![LoadOp::YamlHost(name, h, entry_vars(b.last().1))],
            None => Seq::<LoadOp>::empty(),
        };
        assert(yaml_hosts_ops(name, a) + yaml_hosts_ops(name, b.drop_last()) + piece =~= yaml_hosts_ops(name, a) + (
        yaml_hosts_ops(name, b.drop_last()) + piece));
    }
}

proof fn lemma_children_ops_concat(name: Seq<char>, a: Seq<(Data, Data)>, b: Seq<(Data, Data)>)
    ensures
        yaml_children_ops(name, a + b) == yaml_children_ops(name, a) + yaml_children_ops(name, b),
    decreases b.len(),
{
    if b.len() == 0 {
        assert(a + b =~= a);
        assert(yaml_children_ops(name, a) + yaml_children_ops(name, b) =~= yaml_children_ops(name, a));
    } else {
        lemma_children_ops_concat(name, a, b.drop_last());
        assert((a + b).drop_last() =~= a + b.drop_last());
        assert((a + b).last() == b.last());
        let piece = match str_of(b.last().0) {
            Some(c) => seq![LoadOp::GroupChild(name, c)] + yaml_group_ops(c, b.last().1),
            None => Seq::<LoadOp>::empty(),
        };
        assert(yaml_children_ops(name, a) + yaml_children_ops(name, b.drop_last()) + piece =~= yaml_children_ops(name, a) + (
        yaml_children_ops(name, b.drop_last()) + piece));
    }
}

proof fn lemma_string_keyed_concat(a: Seq<(Data, Data)>, b: Seq<(Data, Data)>)
    ensures
        string_keyed(a + b) == string_keyed(a) + string_keyed(b),
    decreases b.len(),
{
    if b.len() == 0 {
        assert(a + b =~= a);
        assert(string_keyed(a) + string_keyed(b) =~= string_keyed(a));
    } else {
        lemma_string_keyed_concat(a, b.drop_last());
        assert((a + b).drop_last() =~= a + b.drop_last());
        assert((a + b).last() == b.last());
        let piece = match str_of(b.last().0) {
            Some(k) => seq![(k, b.last().1)],
            None => Seq::<(Seq<char>, Data)>::empty(),
        };
        assert(string_keyed(a) + string_keyed(b.drop_last()) + piece =~= string_keyed(a) + (string_keyed(b.drop_last()) + piece));
    }
}

proof fn lemma_top_ops_concat(a: Seq<(Data, Data)>, b: Seq<(Data, Data)>)
    ensures
        yaml_top_ops(a + b) == yaml_top_ops(a) + yaml_top_ops(b),
    decreases b.len(),
{
    if b.len() == 0 {
        assert(a + b =~= a);
        assert(yaml_top_ops(a) + yaml_top_ops(b) =~= yaml_top_ops(a));
    } else {
        lemma_top_ops_concat(a, b.drop_last());
        assert((a + b).drop_last() =~= a + b.drop_last());
        assert((a + b).last() == b.last());
        let piece = match str_of(b.last().0) {
            Some(n) => yaml_group_ops(n, b.last().1),
            None => seq![LoadOp::Refuse("group names must be strings"@)],
        };
        assert(yaml_top_ops(a) + yaml_top_ops(b.drop_last()) + piece =~= yaml_top_ops(a) + (yaml_top_ops(b.drop_last()) + piece));
    }
}

/// The first `n` entries followed by the rest are all the entries.
proof fn lemma_take_skip(m: Seq<(Data, Data)>, n: int)
    requires
        0 <= n <= m.len(),
    ensures
        m == m.take(n) + m.skip(n),
{
    assert(m =~= m.take(n) + m.skip(n));
}

} // verus!

verus! {

/// A value of an entry is smaller than the entries.
proof fn lemma_entry_size(m: Seq<(Data, Data)>, i: int)
    requires
        0 <= i < m.len(),
    ensures
        data_size(m[i].1) < entries_size(m),
    decreases m.len(),
{
    lemma_data_size_positive(m.last().0);
    if i < m.len() - 1 {
        lemma_entry_size(m.drop_last(), i);
        assert(m.drop_last()[i] == m[i]);
    }
}

/// A run that ran through, followed by one step.
proof fn lemma_run_push(
    ph: Seq<Host>, pg: Seq<Group>, done: Seq<LoadOp>, op: LoadOp, ch: Seq<Host>, cg: Seq<Group>, qh: Seq<Host>, qg: Seq<Group>,
    r: Result<(), InventoryError>,
)
    requires
        run(ph, pg, done, ch, cg, Ok(())),
        step(ch, cg, op, qh, qg, r),
    ensures
        run(ph, pg, done + seq![op], qh, qg, r),
{
    lemma_run_one(ch, cg, op, qh, qg, r);
    lemma_run_concat(ph, pg, done, seq![op], ch, cg, qh, qg, r);
}

impl Inventory {
    /// Reads a YAML group definition, as `yaml_group_ops` states it.
    #[verifier::spinoff_prover]
    #[verifier::rlimit(60)]
    fn yaml_group(&mut self, name: &str, value: &Data) -> (r: Result<(), InventoryError>)
        ensures
            run(old(self).hosts@, old(self).groups@, yaml_group_ops(name@, *value), final(self).hosts@, final(self).groups@, r),
        decreases data_size(*value),
    {
        let ghost ph = self.hosts@;
        let ghost pg = self.groups@;
        let ghost ops = yaml_group_ops(name@, *value);
        let ghost se = seq![LoadOp::Shape(*value), LoadOp::EnsureGroup(name@)];
        let r0 = validate_yaml_group_shape(value);
        proof {
            assert(step(ph, pg, LoadOp::Shape(*value), ph, pg, r0));
            lemma_run_one(ph, pg, LoadOp::Shape(*value), ph, pg, r0);
            assert(run(ph, pg, Seq::empty() + seq![LoadOp::Shape(*value)], ph, pg, r0)) by {
                assert(Seq::<LoadOp>::empty() + seq![LoadOp::Shape(*value)] =~= seq![LoadOp::Shape(*value)]);
            }
        }
        match r0 {
            Err(e) => {
                proof {
                    lemma_run_fail_extend(ph, pg, seq![LoadOp::Shape(*value)], ops.drop_first(), ph, pg, e);
                    assert(seq![LoadOp::Shape(*value)] + ops.drop_first() =~= ops);
                }
                return Err(e);
            },
            Ok(()) => {},
        }
        proof {
            assert(r0->Ok_0 == ());
        }
        self.do_ensure_group(name);
        proof {
            lemma_run_push(ph, pg, seq![LoadOp::Shape(*value)], LoadOp::EnsureGroup(name@), ph, pg, self.hosts@, self.groups@, Ok(()));
            assert(seq![LoadOp::Shape(*value)] + seq![LoadOp::EnsureGroup(name@)] =~= se);
        }
        let m = match value {
            Data::Mapping(m, _) => m,
            _ => {
                proof {
                    assert(ops =~= se);
                }
                return Ok(());
            },
        };
        let ghost hosts_ops = match map_get(m@, "hosts"@) {
            Some(Data::Mapping(hm, _)) => yaml_hosts_ops(name@, hm@),
            _ => Seq::empty(),
        };
        let ghost children_ops = match map_get(m@, "children"@) {
            Some(Data::Mapping(cm, _)) => yaml_children_ops(name@, cm@),
            _ => Seq::empty(),
        };
        let ghost vars_ops = match map_get(m@, "vars"@) {
            Some(Data::Mapping(vm, _)) => yaml_vars_ops(name@, vm@),
            _ => Seq::empty(),
        };
        proof {
            assert(ops == se + (hosts_ops + children_ops + vars_ops));
            assert(ops =~= se + hosts_ops + children_ops + vars_ops);
        }
        // hosts
        match find_entry(m, "hosts") {
            Some(Data::Mapping(hm, _)) => {
                let mut i: usize = 0;
                proof {
                    assert(hm@.take(0) =~= Seq::<(Data, Data)>::empty());
                    assert(se + yaml_hosts_ops(name@, hm@.take(0)) =~= se);
                }
                while i < hm.len()
                    invariant
                        i <= hm@.len(),
                        ph == old(self).hosts@,
                        pg == old(self).groups@,
                        ops == yaml_group_ops(name@, *value),
                        ops == se + hosts_ops + children_ops + vars_ops,
                        hosts_ops == yaml_hosts_ops(name@, hm@),
                        run(ph, pg, se + yaml_hosts_ops(name@, hm@.take(i as int)), self.hosts@, self.groups@, Ok(())),
                    decreases hm@.len() - i,
                {
                    proof {
                        assert(hm@.take(i + 1).drop_last() =~= hm@.take(i as int));
                        assert(hm@.take(i + 1).last() == hm@[i as int]);
                    }
                    let ghost ch = self.hosts@;
                    let ghost cg = self.groups@;
                    let ghost done = se + yaml_hosts_ops(name@, hm@.take(i as int));
                    match &hm[i].0 {
                        Data::Str(h) => {
                            let ghost op = LoadOp::YamlHost(name@, h@, entry_vars(hm@[i as int].1));
                            let r = self.do_yaml_host(name, h.as_str(), &hm[i].1);
                            proof {
                                lemma_run_push(ph, pg, done, op, ch, cg, self.hosts@, self.groups@, r);
                                assert(yaml_hosts_ops(name@, hm@.take(i + 1)) == yaml_hosts_ops(name@, hm@.take(i as int)) + seq![op]);
                                assert(done + seq![op] =~= se + yaml_hosts_ops(name@, hm@.take(i + 1)));
                            }
                            match r {
                                Err(e) => {
                                    proof {
                                        let cur = se + yaml_hosts_ops(name@, hm@.take(i + 1));
                                        let rest = yaml_hosts_ops(name@, hm@.skip(i + 1)) + children_ops + vars_ops;
                                        lemma_run_fail_extend(ph, pg, cur, rest, self.hosts@, self.groups@, e);
                                        lemma_take_skip(hm@, i + 1);
                                        lemma_hosts_ops_concat(name@, hm@.take(i + 1), hm@.skip(i + 1));
                                        assert(cur + rest =~= ops);
                                    }
                                    return Err(e);
                                },
                                Ok(()) => {
                                    proof {
                                        assert(r->Ok_0 == ());
                                    }
                                },
                            }
                        },
                        _ => {
                            proof {
                                assert(yaml_hosts_ops(name@, hm@.take(i + 1)) =~= yaml_hosts_ops(name@, hm@.take(i as int)));
                            }
                        },
                    }
                    i = i + 1;
                }
                proof {
                    assert(hm@.take(hm@.len() as int) =~= hm@);
                }
            },
            _ => {
                proof {
                    assert(se + hosts_ops =~= se);
                }
            },
        }
        let ghost base1 = se + hosts_ops;
        // children
        match find_entry(m, "children") {
            Some(Data::Mapping(cm, _)) => {
                proof {
                    lemma_map_get_size(m@, "children"@);
                }
                let mut i: usize = 0;
                proof {
                    assert(cm@.take(0) =~= Seq::<(Data, Data)>::empty());
                    assert(base1 + yaml_children_ops(name@, cm@.take(0)) =~= base1);
                }
                while i < cm.len()
                    invariant
                        i <= cm@.len(),
                        ph == old(self).hosts@,
                        pg == old(self).groups@,
                        ops == yaml_group_ops(name@, *value),
                        ops == se + hosts_ops + children_ops + vars_ops,
                        base1 == se + hosts_ops,
                        children_ops == yaml_children_ops(name@, cm@),
                        entries_size(cm@) < data_size(*value),
                        run(ph, pg, base1 + yaml_children_ops(name@, cm@.take(i as int)), self.hosts@, self.groups@, Ok(())),
                    decreases cm@.len() - i,
                {
                    proof {
                        assert(cm@.take(i + 1).drop_last() =~= cm@.take(i as int));
                        assert(cm@.take(i + 1).last() == cm@[i as int]);
                    }
                    let ghost ch = self.hosts@;
                    let ghost cg = self.groups@;
                    let ghost done = base1 + yaml_children_ops(name@, cm@.take(i as int));
                    match &cm[i].0 {
                        Data::Str(c) => {
                            let ghost op = LoadOp::GroupChild(name@, c@);
                            self.do_group_child(name, c.as_str());
                            let ghost mh = self.hosts@;
                            let ghost mg = self.groups@;
                            proof {
                                lemma_run_push(ph, pg, done, op, ch, cg, mh, mg, Ok(()));
                                lemma_entry_size(cm@, i as int);
                            }
                            let r = self.yaml_group(c.as_str(), &cm[i].1);
                            proof {
                                let sub = yaml_group_ops(c@, cm@[i as int].1);
                                lemma_run_concat(ph, pg, done + seq![op], sub, mh, mg, self.hosts@, self.groups@, r);
                                assert(yaml_children_ops(name@, cm@.take(i + 1)) == yaml_children_ops(name@, cm@.take(i as int)) + (seq![op] + sub));
                                assert(done + seq![op] + sub =~= base1 + yaml_children_ops(name@, cm@.take(i + 1)));
                            }
                            match r {
                                Err(e) => {
                                    proof {
                                        let cur = base1 + yaml_children_ops(name@, cm@.take(i + 1));
                                        let rest = yaml_children_ops(name@, cm@.skip(i + 1)) + vars_ops;
                                        lemma_run_fail_extend(ph, pg, cur, rest, self.hosts@, self.groups@, e);
                                        lemma_take_skip(cm@, i + 1);
                                        lemma_children_ops_concat(name@, cm@.take(i + 1), cm@.skip(i + 1));
                                        assert(cur + rest =~= ops);
                                    }
                                    return Err(e);
                                },
                                Ok(()) => {
                                    proof {
                                        assert(r->Ok_0 == ());
                                    }
                                },
                            }
                        },
                        _ => {
                            proof {
                                assert(yaml_children_ops(name@, cm@.take(i + 1)) =~= yaml_children_ops(name@, cm@.take(i as int)));
                            }
                        },
                    }
                    i = i + 1;
                }
                proof {
                    assert(cm@.take(cm@.len() as int) =~= cm@);
                }
            },
            _ => {
                proof {
                    assert(base1 + children_ops =~= base1);
                }
            },
        }
        let ghost base2 = base1 + children_ops;
        // variables
        match find_entry(m, "vars") {
            Some(Data::Mapping(vm, _)) => {
                let mut i: usize = 0;
                proof {
                    assert(vm@.take(0) =~= Seq::<(Data, Data)>::empty());
                    assert(base2 + yaml_vars_ops(name@, vm@.take(0)) =~= base2);
                }
                while i < vm.len()
                    invariant
                        i <= vm@.len(),
                        ph == old(self).hosts@,
                        pg == old(self).groups@,
                        ops == se + hosts_ops + children_ops + vars_ops,
                        base2 == se + hosts_ops + children_ops,
                        vars_ops == yaml_vars_ops(name@, vm@),
                        run(ph, pg, base2 + yaml_vars_ops(name@, vm@.take(i as int)), self.hosts@, self.groups@, Ok(())),
                    decreases vm@.len() - i,
                {
                    proof {
                        assert(vm@.take(i + 1).drop_last() =~= vm@.take(i as int));
                        assert(vm@.take(i + 1).last() == vm@[i as int]);
                    }
                    let ghost ch = self.hosts@;
                    let ghost cg = self.groups@;
                    let ghost done = base2 + yaml_vars_ops(name@, vm@.take(i as int));
                    match &vm[i].0 {
                        Data::Str(k) => {
                            let ghost op = LoadOp::GroupVar(name@, k@, vm@[i as int].1);
                            self.do_group_var(name, k.as_str(), &vm[i].1);
                            proof {
                                lemma_run_push(ph, pg, done, op, ch, cg, self.hosts@, self.groups@, Ok(()));
                                lemma_string_keyed_concat(vm@.take(i as int), seq![vm@[i as int]]);
                                assert(vm@.take(i + 1) =~= vm@.take(i as int) + seq![vm@[i as int]]);
                                assert(string_keyed(seq![vm@[i as int]]) =~= seq![(k@, vm@[i as int].1)]) by {
                                    let one = seq![vm@[i as int]];
                                    assert(one.drop_last() =~= Seq::<(Data, Data)>::empty());
                                    assert(one.last() == vm@[i as int]);
                                    assert(str_of(vm@[i as int].0) == Some(k@));
                                    assert(string_keyed(one.drop_last()) =~= Seq::<(Seq<char>, Data)>::empty());
                                    assert(Seq::<(Seq<char>, Data)>::empty() + seq![(k@, vm@[i as int].1)] =~= seq![(k@, vm@[i as int].1)]);
                                }
                                assert(yaml_vars_ops(name@, vm@.take(i + 1)) =~= yaml_vars_ops(name@, vm@.take(i as int)) + seq![op]);
                                assert(done + seq![op] =~= base2 + yaml_vars_ops(name@, vm@.take(i + 1)));
                            }
                        },
                        _ => {
                            proof {
                                assert(string_keyed(vm@.take(i + 1)) =~= string_keyed(vm@.take(i as int)));
                                assert(yaml_vars_ops(name@, vm@.take(i + 1)) =~= yaml_vars_ops(name@, vm@.take(i as int)));
                            }
                        },
                    }
                    i = i + 1;
                }
                proof {
                    assert(vm@.take(vm@.len() as int) =~= vm@);
                    assert(base2 + vars_ops =~= ops);
                }
            },
            _ => {
                proof {
                    assert(base2 =~= ops);
                }
            },
        }
        Ok(())
    }
}

} // verus!

verus! {

impl Inventory {
    /// Reads a YAML inventory: a mapping from group names to group
    /// definitions, each with `hosts` (host names to their variables),
    /// `children` (child names to their definitions) and `vars`. Reading
    /// stops at the first error, with what came before it taken in.
    pub fn parse_yaml(&mut self, doc: &Data) -> (r: Result<(), InventoryError>)
        ensures
            run(old(self).hosts_view(), old(self).groups_view(), yaml_doc_ops(*doc), final(self).hosts_view(), final(self).groups_view(), r),
    {
        let ghost ph = self.hosts@;
        let ghost pg = self.groups@;
        proof {
            reveal_strlit("inventory must be a mapping of groups");
        }
        let m = match doc {
            Data::Mapping(m, _) => m,
            _ => {
                let e = yaml_error("inventory must be a mapping of groups");
                proof {
                    assert(step(ph, pg, LoadOp::Refuse("inventory must be a mapping of groups"@), ph, pg, Err::<(), InventoryError>(e)));
                    lemma_run_one(ph, pg, LoadOp::Refuse("inventory must be a mapping of groups"@), ph, pg, Err::<(), InventoryError>(e));
                }
                return Err(e);
            },
        };
        let ghost ops = yaml_top_ops(m@);
        let mut i: usize = 0;
        proof {
            assert(m@.take(0) =~= Seq::<(Data, Data)>::empty());
        }
        while i < m.len()
            invariant
                i <= m@.len(),
                ph == old(self).hosts@,
                pg == old(self).groups@,
                ops == yaml_top_ops(m@),
                ops == yaml_doc_ops(*doc),
                run(ph, pg, yaml_top_ops(m@.take(i as int)), self.hosts@, self.groups@, Ok(())),
            decreases m@.len() - i,
        {
            proof {
                assert(m@.take(i + 1).drop_last() =~= m@.take(i as int));
                assert(m@.take(i + 1).last() == m@[i as int]);
            }
            let ghost ch = self.hosts@;
            let ghost cg = self.groups@;
            let ghost done = yaml_top_ops(m@.take(i as int));
            let r = match &m[i].0 {
                Data::Str(n) => {
                    let r = self.yaml_group(n.as_str(), &m[i].1);
                    proof {
                        lemma_run_concat(ph, pg, done, yaml_group_ops(n@, m@[i as int].1), ch, cg, self.hosts@, self.groups@, r);
                        assert(yaml_top_ops(m@.take(i + 1)) == done + yaml_group_ops(n@, m@[i as int].1));
                    }
                    r
                },
                _ => {
                    let e = yaml_error("group names must be strings");
                    proof {
                        let op = LoadOp::Refuse("group names must be strings"@);
                        assert(step(ch, cg, op, ch, cg, Err::<(), InventoryError>(e)));
                        lemma_run_push(ph, pg, done, op, ch, cg, ch, cg, Err::<(), InventoryError>(e));
                        assert(yaml_top_ops(m@.take(i + 1)) == done + seq![op]);
                    }
                    Err(e)
                },
            };
            match r {
                Err(e) => {
                    proof {
                        let cur = yaml_top_ops(m@.take(i + 1));
                        lemma_run_fail_extend(ph, pg, cur, yaml_top_ops(m@.skip(i + 1)), self.hosts@, self.groups@, e);
                        lemma_take_skip(m@, i + 1);
                        lemma_top_ops_concat(m@.take(i + 1), m@.skip(i + 1));
                    }
                    return Err(e);
                },
                Ok(()) => {
                    proof {
                        assert(r->Ok_0 == ());
                    }
                },
            }
            i = i + 1;
        }
        proof {
            assert(m@.take(m@.len() as int) =~= m@);
        }
        Ok(())
    }
}

} // verus!

verus! {

/// The texts of the string items of a sequence.
pub open spec fn string_items(v: Seq<Data>) -> Seq<Seq<char>>
    decreases v.len(),
{
    if v.len() == 0 {
        Seq::empty()
    } else {
        string_items(v.drop_last()) + match str_of(v.last()) {
            Some(s) => seq![s],
            None => Seq::empty(),
        }
    }
}

/// The hosts a JSON group lists: the strings of its `hosts` list, or of the
/// group itself when it is a list.
pub open spec fn json_group_hosts(v: Data) -> Seq<Seq<char>> {
    match v {
        Data::Mapping(gd, _) => match map_get(gd@, "hosts"@) {
            Some(Data::List(hs, _)) => string_items(hs@),
            _ => Seq::empty(),
        },
        Data::List(hs, _) => string_items(hs@),
        _ => Seq::empty(),
    }
}

/// The children a JSON group lists.
pub open spec fn json_group_children(v: Data) -> Seq<Seq<char>> {
    match v {
        Data::Mapping(gd, _) => match map_get(gd@, "children"@) {
            Some(Data::List(cs, _)) => string_items(cs@),
            _ => Seq::empty(),
        },
        _ => Seq::empty(),
    }
}

/// The variables of a JSON group.
pub open spec fn json_group_vars(v: Data) -> Seq<(Seq<char>, Data)> {
    match v {
        Data::Mapping(gd, _) => match map_get(gd@, "vars"@) {
            Some(Data::Mapping(vs, _)) => string_keyed(vs@),
            _ => Seq::empty(),
        },
        _ => Seq::empty(),
    }
}

/// The port checks of `ansible_port` variables.
pub open spec fn port_ops(vars: Seq<(Seq<char>, Data)>) -> Seq<LoadOp>
    decreases vars.len(),
{
    if vars.len() == 0 {
        Seq::empty()
    } else {
        port_ops(vars.drop_last()) + if vars.last().0 == "ansible_port"@ {
            seq![LoadOp::Port(vars.last().1)]
        } else {
            Seq::empty()
        }
    }
}

/// The steps of one JSON group: its `ansible_port` variable is checked;
/// then the group takes its hosts, children and variables; then each host
/// joins it, new hosts being added.
pub open spec fn json_group_ops(key: Seq<char>, v: Data) -> Seq<LoadOp> {
    port_ops(json_group_vars(v)) + json_group_hosts(v).map_values(|h: Seq<char>| LoadOp::GroupHost(key, h))
        + json_group_children(v).map_values(|c: Seq<char>| LoadOp::GroupChild(key, c)) + json_group_vars(v).map_values(
        |kv: (Seq<char>, Data)| LoadOp::GroupVar(key, kv.0, kv.1),
    ) + json_group_hosts(v).map_values(|h: Seq<char>| LoadOp::JsonHost(key, h))
}

/// The groups of a JSON inventory: the entries with string keys but `_meta`.
pub open spec fn json_groups(m: Seq<(Data, Data)>) -> Seq<(Seq<char>, Data)>
    decreases m.len(),
{
    if m.len() == 0 {
        Seq::empty()
    } else {
        json_groups(m.drop_last()) + match str_of(m.last().0) {
            Some(k) => if k == "_meta"@ {
                Seq::empty()
            } else {
                seq![(k, m.last().1)]
            },
            None => Seq::empty(),
        }
    }
}

/// The steps of the groups of a JSON inventory, in order.
pub open spec fn json_groups_ops(gs: Seq<(Seq<char>, Data)>) -> Seq<LoadOp>
    decreases gs.len(),
{
    if gs.len() == 0 {
        Seq::empty()
    } else {
        json_groups_ops(gs.drop_last()) + json_group_ops(gs.last().0, gs.last().1)
    }
}

/// The hosts of the groups of a JSON inventory, in order.
pub open spec fn json_all_hosts(gs: Seq<(Seq<char>, Data)>) -> Seq<Seq<char>>
    decreases gs.len(),
{
    if gs.len() == 0 {
        Seq::empty()
    } else {
        json_all_hosts(gs.drop_last()) + json_group_hosts(gs.last().1)
    }
}

/// The steps of the host variables of `_meta.hostvars`: for each host named
/// by a string whose variables are a mapping, each variable in turn.
pub open spec fn json_hostvars_ops(hv: Seq<(Data, Data)>) -> Seq<LoadOp>
    decreases hv.len(),
{
    if hv.len() == 0 {
        Seq::empty()
    } else {
        json_hostvars_ops(hv.drop_last()) + match (str_of(hv.last().0), hv.last().1) {
            (Some(h), Data::Mapping(vm, _)) => host_var_ops(h, string_keyed(vm@)),
            _ => Seq::empty(),
        }
    }
}

/// The steps of the `_meta` entry of a JSON inventory.
pub open spec fn json_meta_ops(m: Seq<(Data, Data)>) -> Seq<LoadOp> {
    match map_get(m, "_meta"@) {
        Some(Data::Mapping(meta, _)) => match map_get(meta@, "hostvars"@) {
            Some(Data::Mapping(hv, _)) => json_hostvars_ops(hv@),
            _ => Seq::empty(),
        },
        _ => Seq::empty(),
    }
}

/// The steps of a JSON inventory, as dynamic inventories give it: first
/// every group is made; then each group is read; then every host joins
/// `all`; then the host variables of `_meta` apply.
pub open spec fn json_doc_ops(doc: Data) -> Seq<LoadOp> {
    match doc {
        Data::Mapping(m, _) => json_groups(m@).map_values(|kv: (Seq<char>, Data)| LoadOp::EnsureGroup(kv.0)) + json_groups_ops(
            json_groups(m@),
        ) + json_all_hosts(json_groups(m@)).map_values(|h: Seq<char>| LoadOp::GroupHost("all"@, h)) + json_meta_ops(m@),
        _ => Seq::empty(),
    }
}

/// The texts of the string items of a sequence.
fn string_items_of(v: &Vec<Data>) -> (r: Vec<String>)
    ensures
        views(r@) == string_items(v@),
{
    let mut out: Vec<String> = Vec::new();
    let mut i: usize = 0;
    proof {
        assert(v@.take(0) =~= Seq::<Data>::empty());
    }
    while i < v.len()
        invariant
            i <= v@.len(),
            views(out@) == string_items(v@.take(i as int)),
        decreases v@.len() - i,
    {
        proof {
            assert(v@.take(i + 1).drop_last() =~= v@.take(i as int));
            assert(v@.take(i + 1).last() == v@[i as int]);
        }
        let ghost before = views(out@);
        match &v[i] {
            Data::Str(s) => {
                out.push(s.clone());
                proof {
                    assert(views(out@) =~= before + seq![s@]);
                }
            },
            _ => {
                proof {
                    assert(views(out@) =~= before + Seq::<Seq<char>>::empty());
                }
            },
        }
        i = i + 1;
    }
    proof {
        assert(v@.take(v@.len() as int) =~= v@);
    }
    out
}

/// The hosts a JSON group lists.
fn json_hosts_of(v: &Data) -> (r: Vec<String>)
    ensures
        views(r@) == json_group_hosts(*v),
{
    match v {
        Data::Mapping(gd, _) => match find_entry(gd, "hosts") {
            Some(Data::List(hs, _)) => string_items_of(hs),
            _ => Vec::new(),
        },
        Data::List(hs, _) => string_items_of(hs),
        _ => Vec::new(),
    }
}

/// The children a JSON group lists.
fn json_children_of(v: &Data) -> (r: Vec<String>)
    ensures
        views(r@) == json_group_children(*v),
{
    match v {
        Data::Mapping(gd, _) => match find_entry(gd, "children") {
            Some(Data::List(cs, _)) => string_items_of(cs),
            _ => Vec::new(),
        },
        _ => Vec::new(),
    }
}

/// The variable entries of a JSON group, when it has any.
fn json_vars_of(v: &Data) -> (r: Option<&Vec<(Data, Data)>>)
    ensures
        json_group_vars(*v) == match r {
            Some(vs) => string_keyed(vs@),
            None => Seq::empty(),
        },
{
    match v {
        Data::Mapping(gd, _) => match find_entry(gd, "vars") {
            Some(Data::Mapping(vs, _)) => Some(vs),
            _ => None,
        },
        _ => None,
    }
}

} // verus!

verus! {

impl Inventory {
    /// Adds the hosts to the group, in order.
    fn run_group_hosts(&mut self, g: &str, names: &Vec<String>)
        ensures
            run(old(self).hosts@, old(self).groups@, views(names@).map_values(|h: Seq<char>| LoadOp::GroupHost(g@, h)),
                final(self).hosts@, final(self).groups@, Ok(())),
    {
        let ghost ph = self.hosts@;
        let ghost pg = self.groups@;
        let mut i: usize = 0;
        proof {
            assert(views(names@).take(0).map_values(|h: Seq<char>| LoadOp::GroupHost(g@, h)) =~= Seq::<LoadOp>::empty());
        }
        while i < names.len()
            invariant
                i <= names@.len(),
                ph == old(self).hosts@,
                pg == old(self).groups@,
                run(ph, pg, views(names@).take(i as int).map_values(|h: Seq<char>| LoadOp::GroupHost(g@, h)), self.hosts@, self.groups@, Ok(())),
            decreases names@.len() - i,
        {
            let ghost ch = self.hosts@;
            let ghost cg = self.groups@;
            let ghost done = views(names@).take(i as int).map_values(|h: Seq<char>| LoadOp::GroupHost(g@, h));
            let ghost op = LoadOp::GroupHost(g@, names@[i as int]@);
            self.do_group_host(g, names[i].as_str());
            proof {
                lemma_run_push(ph, pg, done, op, ch, cg, self.hosts@, self.groups@, Ok(()));
                assert(views(names@).take(i + 1).map_values(|h: Seq<char>| LoadOp::GroupHost(g@, h)) =~= done + seq![op]);
            }
            i = i + 1;
        }
        proof {
            assert(views(names@).take(names@.len() as int) =~= views(names@));
        }
    }

    /// Adds the children to the group, in order.
    fn run_group_children(&mut self, g: &str, names: &Vec<String>)
        ensures
            run(old(self).hosts@, old(self).groups@, views(names@).map_values(|c: Seq<char>| LoadOp::GroupChild(g@, c)),
                final(self).hosts@, final(self).groups@, Ok(())),
    {
        let ghost ph = self.hosts@;
        let ghost pg = self.groups@;
        let mut i: usize = 0;
        proof {
            assert(views(names@).take(0).map_values(|c: Seq<char>| LoadOp::GroupChild(g@, c)) =~= Seq::<LoadOp>::empty());
        }
        while i < names.len()
            invariant
                i <= names@.len(),
                ph == old(self).hosts@,
                pg == old(self).groups@,
                run(ph, pg, views(names@).take(i as int).map_values(|c: Seq<char>| LoadOp::GroupChild(g@, c)), self.hosts@, self.groups@, Ok(())),
            decreases names@.len() - i,
        {
            let ghost ch = self.hosts@;
            let ghost cg = self.groups@;
            let ghost done = views(names@).take(i as int).map_values(|c: Seq<char>| LoadOp::GroupChild(g@, c));
            let ghost op = LoadOp::GroupChild(g@, names@[i as int]@);
            self.do_group_child(g, names[i].as_str());
            proof {
                lemma_run_push(ph, pg, done, op, ch, cg, self.hosts@, self.groups@, Ok(()));
                assert(views(names@).take(i + 1).map_values(|c: Seq<char>| LoadOp::GroupChild(g@, c)) =~= done + seq![op]);
            }
            i = i + 1;
        }
        proof {
            assert(views(names@).take(names@.len() as int) =~= views(names@));
        }
    }

    /// Each host joins the group, new ones being added, in order.
    fn run_json_hosts(&mut self, g: &str, names: &Vec<String>) -> (r: Result<(), InventoryError>)
        ensures
            run(old(self).hosts@, old(self).groups@, views(names@).map_values(|h: Seq<char>| LoadOp::JsonHost(g@, h)),
                final(self).hosts@, final(self).groups@, r),
    {
        let ghost ph = self.hosts@;
        let ghost pg = self.groups@;
        let ghost all = views(names@).map_values(|h: Seq<char>| LoadOp::JsonHost(g@, h));
        let mut i: usize = 0;
        proof {
            assert(views(names@).take(0).map_values(|h: Seq<char>| LoadOp::JsonHost(g@, h)) =~= Seq::<LoadOp>::empty());
        }
        while i < names.len()
            invariant
                i <= names@.len(),
                ph == old(self).hosts@,
                pg == old(self).groups@,
                all == views(names@).map_values(|h: Seq<char>| LoadOp::JsonHost(g@, h)),
                run(ph, pg, views(names@).take(i as int).map_values(|h: Seq<char>| LoadOp::JsonHost(g@, h)), self.hosts@, self.groups@, Ok(())),
            decreases names@.len() - i,
        {
            let ghost ch = self.hosts@;
            let ghost cg = self.groups@;
            let ghost done = views(names@).take(i as int).map_values(|h: Seq<char>| LoadOp::JsonHost(g@, h));
            let ghost op = LoadOp::JsonHost(g@, names@[i as int]@);
            let r = self.do_json_host(g, names[i].as_str());
            proof {
                lemma_run_push(ph, pg, done, op, ch, cg, self.hosts@, self.groups@, r);
                assert(views(names@).take(i + 1).map_values(|h: Seq<char>| LoadOp::JsonHost(g@, h)) =~= done + seq![op]);
            }
            match r {
                Err(e) => {
                    proof {
                        let cur = done + seq![op];
                        let rest = all.skip(i + 1);
                        lemma_run_fail_extend(ph, pg, cur, rest, self.hosts@, self.groups@, e);
                        assert(cur + rest =~= all);
                    }
                    return Err(e);
                },
                Ok(()) => {
                    proof {
                        assert(r->Ok_0 == ());
                    }
                },
            }
            i = i + 1;
        }
        proof {
            assert(views(names@).take(names@.len() as int) =~= views(names@));
        }
        Ok(())
    }

    /// Checks the `ansible_port` variables, in order.
    fn run_port_checks(&self, vars: Option<&Vec<(Data, Data)>>) -> (r: Result<(), InventoryError>)
        ensures
            run(self.hosts@, self.groups@, port_ops(match vars {
                Some(vs) => string_keyed(vs@),
                None => Seq::empty(),
            }), self.hosts@, self.groups@, r),
    {
        let ghost hs = self.hosts@;
        let ghost gs = self.groups@;
        let vs = match vars {
            None => {
                proof {
                    assert(port_ops(Seq::<(Seq<char>, Data)>::empty()) =~= Seq::<LoadOp>::empty());
                }
                return Ok(());
            },
            Some(vs) => vs,
        };
        let ghost all = port_ops(string_keyed(vs@));
        proof {
            reveal_strlit("ansible_port");
        }
        let mut i: usize = 0;
        proof {
            assert(vs@.take(0) =~= Seq::<(Data, Data)>::empty());
            assert(port_ops(string_keyed(vs@.take(0))) =~= Seq::<LoadOp>::empty());
        }
        while i < vs.len()
            invariant
                i <= vs@.len(),
                hs == self.hosts@,
                gs == self.groups@,
                all == port_ops(string_keyed(vs@)),
                all == port_ops(match vars {
                    Some(v2) => string_keyed(v2@),
                    None => Seq::empty(),
                }),
                run(hs, gs, port_ops(string_keyed(vs@.take(i as int))), hs, gs, Ok(())),
            decreases vs@.len() - i,
        {
            proof {
                assert(vs@.take(i + 1).drop_last() =~= vs@.take(i as int));
                assert(vs@.take(i + 1).last() == vs@[i as int]);
            }
            let ghost done = port_ops(string_keyed(vs@.take(i as int)));
            match &vs[i].0 {
                Data::Str(k) => {
                    proof {
                        assert(string_keyed(vs@.take(i + 1)) == string_keyed(vs@.take(i as int)) + seq![(k@, vs@[i as int].1)]);
                        let sk = string_keyed(vs@.take(i + 1));
                        assert(sk.drop_last() =~= string_keyed(vs@.take(i as int)));
                        assert(sk.last() == (k@, vs@[i as int].1));
                    }
                    if crate::text::str_equal(k.as_str(), "ansible_port") {
                        let r = self.do_port(&vs[i].1);
                        let ghost op = LoadOp::Port(vs@[i as int].1);
                        proof {
                            lemma_run_push(hs, gs, done, op, hs, gs, hs, gs, r);
                            assert(port_ops(string_keyed(vs@.take(i + 1))) =~= done + seq![op]);
                        }
                        match r {
                            Err(e) => {
                                proof {
                                    let cur = done + seq![op];
                                    lemma_take_skip(vs@, i + 1);
                                    lemma_string_keyed_concat(vs@.take(i + 1), vs@.skip(i + 1));
                                    lemma_port_ops_concat(string_keyed(vs@.take(i + 1)), string_keyed(vs@.skip(i + 1)));
                                    let rest = port_ops(string_keyed(vs@.skip(i + 1)));
                                    lemma_run_fail_extend(hs, gs, cur, rest, hs, gs, e);
                                    assert(cur + rest =~= all);
                                }
                                return Err(e);
                            },
                            Ok(()) => {
                                proof {
                                    assert(r->Ok_0 == ());
                                }
                            },
                        }
                    } else {
                        proof {
                            assert(port_ops(string_keyed(vs@.take(i + 1))) =~= done);
                        }
                    }
                },
                _ => {
                    proof {
                        assert(string_keyed(vs@.take(i + 1)) =~= string_keyed(vs@.take(i as int)));
                    }
                },
            }
            i = i + 1;
        }
        proof {
            assert(vs@.take(vs@.len() as int) =~= vs@);
        }
        Ok(())
    }

    /// Sets the group's variables, in order.
    fn run_group_vars(&mut self, g: &str, vars: Option<&Vec<(Data, Data)>>)
        ensures
            run(old(self).hosts@, old(self).groups@, (match vars {
                Some(vs) => string_keyed(vs@),
                None => Seq::empty(),
            }).map_values(|kv: (Seq<char>, Data)| LoadOp::GroupVar(g@, kv.0, kv.1)), final(self).hosts@, final(self).groups@, Ok(())),
    {
        let ghost ph = self.hosts@;
        let ghost pg = self.groups@;
        let vs = match vars {
            None => {
                proof {
                    assert(Seq::<(Seq<char>, Data)>::empty().map_values(|kv: (Seq<char>, Data)| LoadOp::GroupVar(g@, kv.0, kv.1))
                        =~= Seq::<LoadOp>::empty());
                }
                return;
            },
            Some(vs) => vs,
        };
        let mut i: usize = 0;
        proof {
            assert(vs@.take(0) =~= Seq::<(Data, Data)>::empty());
            assert(yaml_vars_ops(g@, vs@.take(0)) =~= Seq::<LoadOp>::empty());
        }
        while i < vs.len()
            invariant
                i <= vs@.len(),
                ph == old(self).hosts@,
                pg == old(self).groups@,
                run(ph, pg, yaml_vars_ops(g@, vs@.take(i as int)), self.hosts@, self.groups@, Ok(())),
            decreases vs@.len() - i,
        {
            proof {
                assert(vs@.take(i + 1).drop_last() =~= vs@.take(i as int));
                assert(vs@.take(i + 1).last() == vs@[i as int]);
            }
            let ghost ch = self.hosts@;
            let ghost cg = self.groups@;
            let ghost done = yaml_vars_ops(g@, vs@.take(i as int));
            match &vs[i].0 {
                Data::Str(k) => {
                    let ghost op = LoadOp::GroupVar(g@, k@, vs@[i as int].1);
                    self.do_group_var(g, k.as_str(), &vs[i].1);
                    proof {
                        lemma_run_push(ph, pg, done, op, ch, cg, self.hosts@, self.groups@, Ok(()));
                        assert(string_keyed(vs@.take(i + 1)) == string_keyed(vs@.take(i as int)) + seq![(k@, vs@[i as int].1)]);
                        assert(yaml_vars_ops(g@, vs@.take(i + 1)) =~= done + seq![op]);
                    }
                },
                _ => {
                    proof {
                        assert(string_keyed(vs@.take(i + 1)) =~= string_keyed(vs@.take(i as int)));
                        assert(yaml_vars_ops(g@, vs@.take(i + 1)) =~= done);
                    }
                },
            }
            i = i + 1;
        }
        proof {
            assert(vs@.take(vs@.len() as int) =~= vs@);
        }
    }
}

proof fn lemma_port_ops_concat(a: Seq<(Seq<char>, Data)>, b: Seq<(Seq<char>, Data)>)
    ensures
        port_ops(a + b) == port_ops(a) + port_ops(b),
    decreases b.len(),
{
    if b.len() == 0 {
        assert(a + b =~= a);
        assert(port_ops(a) + port_ops(b) =~= port_ops(a));
    } else {
        lemma_port_ops_concat(a, b.drop_last());
        assert((a + b).drop_last() =~= a + b.drop_last());
        assert((a + b).last() == b.last());
        let piece = if b.last().0 == "ansible_port"@ {
            seq![LoadOp::Port(b.last().1)]
        } else {
            Seq::<LoadOp>::empty()
        };
        assert(port_ops(a) + port_ops(b.drop_last()) + piece =~= port_ops(a) + (port_ops(b.drop_last()) + piece));
    }
}

} // verus!

verus! {

impl Inventory {
    /// Applies the string-keyed variables of `vm` to host `h`, when known, in order.
    fn run_host_vars(&mut self, h: &str, vm: &Vec<(Data, Data)>) -> (r: Result<(), InventoryError>)
        ensures
            run(old(self).hosts@, old(self).groups@, host_var_ops(h@, string_keyed(vm@)), final(self).hosts@, final(self).groups@, r),
    {
        let ghost ph = self.hosts@;
        let ghost pg = self.groups@;
        let ghost all = host_var_ops(h@, string_keyed(vm@));
        let mut i: usize = 0;
        proof {
            assert(vm@.take(0) =~= Seq::<(Data, Data)>::empty());
            assert(host_var_ops(h@, string_keyed(vm@.take(0))) =~= Seq::<LoadOp>::empty());
        }
        while i < vm.len()
            invariant
                i <= vm@.len(),
                ph == old(self).hosts@,
                pg == old(self).groups@,
                all == host_var_ops(h@, string_keyed(vm@)),
                run(ph, pg, host_var_ops(h@, string_keyed(vm@.take(i as int))), self.hosts@, self.groups@, Ok(())),
            decreases vm@.len() - i,
        {
            proof {
                assert(vm@.take(i + 1).drop_last() =~= vm@.take(i as int));
                assert(vm@.take(i + 1).last() == vm@[i as int]);
            }
            let ghost ch = self.hosts@;
            let ghost cg = self.groups@;
            let ghost done = host_var_ops(h@, string_keyed(vm@.take(i as int)));
            match &vm[i].0 {
                Data::Str(k) => {
                    let ghost op = LoadOp::HostVar(h@, k@, vm@[i as int].1);
                    let r = self.do_host_var(h, k.as_str(), &vm[i].1);
                    proof {
                        lemma_run_push(ph, pg, done, op, ch, cg, self.hosts@, self.groups@, r);
                        assert(string_keyed(vm@.take(i + 1)) == string_keyed(vm@.take(i as int)) + seq![(k@, vm@[i as int].1)]);
                        assert(host_var_ops(h@, string_keyed(vm@.take(i + 1))) =~= done + seq![op]);
                    }
                    match r {
                        Err(e) => {
                            proof {
                                let cur = done + seq![op];
                                lemma_take_skip(vm@, i + 1);
                                lemma_string_keyed_concat(vm@.take(i + 1), vm@.skip(i + 1));
                                let rest = host_var_ops(h@, string_keyed(vm@.skip(i + 1)));
                                lemma_run_fail_extend(ph, pg, cur, rest, self.hosts@, self.groups@, e);
                                assert(cur + rest =~= all);
                            }
                            return Err(e);
                        },
                        Ok(()) => {
                            proof {
                                assert(r->Ok_0 == ());
                            }
                        },
                    }
                },
                _ => {
                    proof {
                        assert(string_keyed(vm@.take(i + 1)) =~= string_keyed(vm@.take(i as int)));
                    }
                },
            }
            i = i + 1;
        }
        proof {
            assert(vm@.take(vm@.len() as int) =~= vm@);
        }
        Ok(())
    }

    /// Reads one JSON group, as `json_group_ops` states it.
    fn json_group(&mut self, key: &str, v: &Data) -> (r: Result<(), InventoryError>)
        ensures
            run(old(self).hosts@, old(self).groups@, json_group_ops(key@, *v), final(self).hosts@, final(self).groups@, r),
    {
        let ghost ph = self.hosts@;
        let ghost pg = self.groups@;
        let hosts = json_hosts_of(v);
        let children = json_children_of(v);
        let vars = json_vars_of(v);
        let ghost a = port_ops(json_group_vars(*v));
        let ghost b = json_group_hosts(*v).map_values(|h: Seq<char>| LoadOp::GroupHost(key@, h));
        let ghost c = json_group_children(*v).map_values(|x: Seq<char>| LoadOp::GroupChild(key@, x));
        let ghost d = json_group_vars(*v).map_values(|kv: (Seq<char>, Data)| LoadOp::GroupVar(key@, kv.0, kv.1));
        let ghost f = json_group_hosts(*v).map_values(|h: Seq<char>| LoadOp::JsonHost(key@, h));
        proof {
            assert(json_group_ops(key@, *v) == a + b + c + d + f);
        }
        let r1 = self.run_port_checks(vars);
        match r1 {
            Err(e) => {
                proof {
                    lemma_run_fail_extend(ph, pg, a, b + c + d + f, ph, pg, e);
                    assert(a + (b + c + d + f) =~= a + b + c + d + f);
                }
                return Err(e);
            },
            Ok(()) => {},
        }
        proof {
            assert(r1->Ok_0 == ());
        }
        self.run_group_hosts(key, &hosts);
        let ghost h2 = self.hosts@;
        let ghost g2 = self.groups@;
        proof {
            lemma_run_concat(ph, pg, a, b, ph, pg, h2, g2, Ok(()));
        }
        self.run_group_children(key, &children);
        let ghost h3 = self.hosts@;
        let ghost g3 = self.groups@;
        proof {
            lemma_run_concat(ph, pg, a + b, c, h2, g2, h3, g3, Ok(()));
        }
        self.run_group_vars(key, vars);
        let ghost h4 = self.hosts@;
        let ghost g4 = self.groups@;
        proof {
            lemma_run_concat(ph, pg, a + b + c, d, h3, g3, h4, g4, Ok(()));
        }
        let r5 = self.run_json_hosts(key, &hosts);
        proof {
            lemma_run_concat(ph, pg, a + b + c + d, f, h4, g4, self.hosts@, self.groups@, r5);
        }
        r5
    }
}

} // verus!

verus! {

proof fn lemma_json_groups_ops_concat(a: Seq<(Seq<char>, Data)>, b: Seq<(Seq<char>, Data)>)
    ensures
        json_groups_ops(a + b) == json_groups_ops(a) + json_groups_ops(b),
    decreases b.len(),
{
    if b.len() == 0 {
        assert(a + b =~= a);
        assert(json_groups_ops(a) + json_groups_ops(b) =~= json_groups_ops(a));
    } else {
        lemma_json_groups_ops_concat(a, b.drop_last());
        assert((a + b).drop_last() =~= a + b.drop_last());
        assert((a + b).last() == b.last());
        let piece = json_group_ops(b.last().0, b.last().1);
        assert(json_groups_ops(a) + json_groups_ops(b.drop_last()) + piece =~= json_groups_ops(a) + (json_groups_ops(b.drop_last()) + piece));
    }
}

proof fn lemma_json_groups_concat(a: Seq<(Data, Data)>, b: Seq<(Data, Data)>)
    ensures
        json_groups(a + b) == json_groups(a) + json_groups(b),
    decreases b.len(),
{
    if b.len() == 0 {
        assert(a + b =~= a);
        assert(json_groups(a) + json_groups(b) =~= json_groups(a));
    } else {
        lemma_json_groups_concat(a, b.drop_last());
        assert((a + b).drop_last() =~= a + b.drop_last());
        assert((a + b).last() == b.last());
        let piece = match str_of(b.last().0) {
            Some(k) => if k == "_meta"@ {
                Seq::<(Seq<char>, Data)>::empty()
            } else {
                seq![(k, b.last().1)]
            },
            None => Seq::<(Seq<char>, Data)>::empty(),
        };
        assert(json_groups(a) + json_groups(b.drop_last()) + piece =~= json_groups(a) + (json_groups(b.drop_last()) + piece));
    }
}

proof fn lemma_hostvars_ops_concat(a: Seq<(Data, Data)>, b: Seq<(Data, Data)>)
    ensures
        json_hostvars_ops(a + b) == json_hostvars_ops(a) + json_hostvars_ops(b),
    decreases b.len(),
{
    if b.len() == 0 {
        assert(a + b =~= a);
        assert(json_hostvars_ops(a) + json_hostvars_ops(b) =~= json_hostvars_ops(a));
    } else {
        lemma_hostvars_ops_concat(a, b.drop_last());
        assert((a + b).drop_last() =~= a + b.drop_last());
        assert((a + b).last() == b.last());
        let piece = match (str_of(b.last().0), b.last().1) {
            (Some(h), Data::Mapping(vm, _)) => host_var_ops(h, string_keyed(vm@)),
            _ => Seq::<LoadOp>::empty(),
        };
        assert(json_hostvars_ops(a) + json_hostvars_ops(b.drop_last()) + piece =~= json_hostvars_ops(a) + (
        json_hostvars_ops(b.drop_last()) + piece));
    }
}

impl Inventory {
    /// Makes every group of a JSON inventory.
    fn json_make_groups(&mut self, m: &Vec<(Data, Data)>)
        ensures
            run(old(self).hosts@, old(self).groups@, json_groups(m@).map_values(|kv: (Seq<char>, Data)| LoadOp::EnsureGroup(kv.0)),
                final(self).hosts@, final(self).groups@, Ok(())),
    {
        proof {
            reveal_strlit("_meta");
        }
        let ghost ph = self.hosts@;
        let ghost pg = self.groups@;
        let mut i: usize = 0;
        proof {
            assert(m@.take(0) =~= Seq::<(Data, Data)>::empty());
            assert(json_groups(m@.take(0)).map_values(|kv: (Seq<char>, Data)| LoadOp::EnsureGroup(kv.0)) =~= Seq::<LoadOp>::empty());
        }
        while i < m.len()
            invariant
                i <= m@.len(),
                ph == old(self).hosts@,
                pg == old(self).groups@,
                run(ph, pg, json_groups(m@.take(i as int)).map_values(|kv: (Seq<char>, Data)| LoadOp::EnsureGroup(kv.0)),
                    self.hosts@, self.groups@, Ok(())),
            decreases m@.len() - i,
        {
            proof {
                assert(m@.take(i + 1).drop_last() =~= m@.take(i as int));
                assert(m@.take(i + 1).last() == m@[i as int]);
            }
            let ghost ch = self.hosts@;
            let ghost cg = self.groups@;
            let ghost done = json_groups(m@.take(i as int)).map_values(|kv: (Seq<char>, Data)| LoadOp::EnsureGroup(kv.0));
            match &m[i].0 {
                Data::Str(k) => {
                    if !crate::text::str_equal(k.as_str(), "_meta") {
                        let ghost op = LoadOp::EnsureGroup(k@);
                        self.do_ensure_group(k.as_str());
                        proof {
                            lemma_run_push(ph, pg, done, op, ch, cg, self.hosts@, self.groups@, Ok(()));
                            assert(json_groups(m@.take(i + 1)) == json_groups(m@.take(i as int)) + seq![(k@, m@[i as int].1)]);
                            assert(json_groups(m@.take(i + 1)).map_values(|kv: (Seq<char>, Data)| LoadOp::EnsureGroup(kv.0)) =~= done
                                + seq![op]);
                        }
                    } else {
                        proof {
                            assert(json_groups(m@.take(i + 1)) =~= json_groups(m@.take(i as int)));
                        }
                    }
                },
                _ => {
                    proof {
                        assert(json_groups(m@.take(i + 1)) =~= json_groups(m@.take(i as int)));
                    }
                },
            }
            i = i + 1;
        }
        proof {
            assert(m@.take(m@.len() as int) =~= m@);
        }
    }

    /// Reads every group of a JSON inventory, and lists their hosts.
    fn json_read_groups(&mut self, m: &Vec<(Data, Data)>, all_hosts: &mut Vec<String>) -> (r: Result<(), InventoryError>)
        ensures
            run(old(self).hosts@, old(self).groups@, json_groups_ops(json_groups(m@)), final(self).hosts@, final(self).groups@, r),
            r is Ok ==> views(final(all_hosts)@) == views(old(all_hosts)@) + json_all_hosts(json_groups(m@)),
    {
        proof {
            reveal_strlit("_meta");
        }
        let ghost ph = self.hosts@;
        let ghost pg = self.groups@;
        let ghost all = json_groups_ops(json_groups(m@));
        let ghost start = views(all_hosts@);
        let mut i: usize = 0;
        proof {
            assert(m@.take(0) =~= Seq::<(Data, Data)>::empty());
            assert(views(all_hosts@) =~= start + json_all_hosts(json_groups(m@.take(0))));
        }
        while i < m.len()
            invariant
                i <= m@.len(),
                ph == old(self).hosts@,
                pg == old(self).groups@,
                start == views(old(all_hosts)@),
                all == json_groups_ops(json_groups(m@)),
                run(ph, pg, json_groups_ops(json_groups(m@.take(i as int))), self.hosts@, self.groups@, Ok(())),
                views(all_hosts@) == start + json_all_hosts(json_groups(m@.take(i as int))),
            decreases m@.len() - i,
        {
            proof {
                assert(m@.take(i + 1).drop_last() =~= m@.take(i as int));
                assert(m@.take(i + 1).last() == m@[i as int]);
            }
            let ghost ch = self.hosts@;
            let ghost cg = self.groups@;
            let ghost done = json_groups_ops(json_groups(m@.take(i as int)));
            let ghost hosts_before = views(all_hosts@);
            match &m[i].0 {
                Data::Str(k) => {
                    if !crate::text::str_equal(k.as_str(), "_meta") {
                        let r = self.json_group(k.as_str(), &m[i].1);
                        let ghost sub = json_group_ops(k@, m@[i as int].1);
                        proof {
                            lemma_run_concat(ph, pg, done, sub, ch, cg, self.hosts@, self.groups@, r);
                            let gs1 = json_groups(m@.take(i + 1));
                            assert(gs1 == json_groups(m@.take(i as int)) + seq![(k@, m@[i as int].1)]);
                            assert(gs1.drop_last() =~= json_groups(m@.take(i as int)));
                            assert(gs1.last() == (k@, m@[i as int].1));
                            assert(json_groups_ops(gs1) == done + sub);
                        }
                        match r {
                            Err(e) => {
                                proof {
                                    let gs1 = json_groups(m@.take(i + 1));
                                    let rest = json_groups_ops(json_groups(m@.skip(i + 1)));
                                    lemma_run_fail_extend(ph, pg, json_groups_ops(gs1), rest, self.hosts@, self.groups@, e);
                                    lemma_take_skip(m@, i + 1);
                                    lemma_json_groups_concat(m@.take(i + 1), m@.skip(i + 1));
                                    lemma_json_groups_ops_concat(gs1, json_groups(m@.skip(i + 1)));
                                }
                                return Err(e);
                            },
                            Ok(()) => {
                                proof {
                                    assert(r->Ok_0 == ());
                                }
                            },
                        }
                        let hs = json_hosts_of(&m[i].1);
                        let mut j: usize = 0;
                        while j < hs.len()
                            invariant
                                j <= hs@.len(),
                                views(all_hosts@) == hosts_before + views(hs@).take(j as int),
                            decreases hs@.len() - j,
                        {
                            let ghost bp = views(all_hosts@);
                            let item = hs[j].clone();
                            all_hosts.push(item);
                            proof {
                                assert(views(all_hosts@) =~= bp.push(item@));
                                assert(views(hs@).take(j + 1) =~= views(hs@).take(j as int).push(hs@[j as int]@));
                                assert(views(all_hosts@) =~= hosts_before + views(hs@).take(j + 1));
                            }
                            j = j + 1;
                        }
                        proof {
                            assert(views(hs@).take(hs@.len() as int) =~= views(hs@));
                            let gs1 = json_groups(m@.take(i + 1));
                            assert(gs1.drop_last() =~= json_groups(m@.take(i as int)));
                            assert(json_all_hosts(gs1) == json_all_hosts(json_groups(m@.take(i as int))) + json_group_hosts(m@[i as int].1));
                            assert(views(all_hosts@) =~= start + json_all_hosts(gs1));
                        }
                    } else {
                        proof {
                            assert(json_groups(m@.take(i + 1)) =~= json_groups(m@.take(i as int)));
                        }
                    }
                },
                _ => {
                    proof {
                        assert(json_groups(m@.take(i + 1)) =~= json_groups(m@.take(i as int)));
                    }
                },
            }
            i = i + 1;
        }
        proof {
            assert(m@.take(m@.len() as int) =~= m@);
        }
        Ok(())
    }

    /// Applies the host variables of `_meta.hostvars`.
    fn json_read_meta(&mut self, m: &Vec<(Data, Data)>) -> (r: Result<(), InventoryError>)
        ensures
            run(old(self).hosts@, old(self).groups@, json_meta_ops(m@), final(self).hosts@, final(self).groups@, r),
    {
        let ghost ph = self.hosts@;
        let ghost pg = self.groups@;
        let hv = match find_entry(m, "_meta") {
            Some(Data::Mapping(meta, _)) => match find_entry(meta, "hostvars") {
                Some(Data::Mapping(hv, _)) => hv,
                _ => {
                    return Ok(());
                },
            },
            _ => {
                return Ok(());
            },
        };
        let ghost all = json_hostvars_ops(hv@);
        proof {
            assert(json_meta_ops(m@) == all);
        }
        let mut i: usize = 0;
        proof {
            assert(hv@.take(0) =~= Seq::<(Data, Data)>::empty());
        }
        while i < hv.len()
            invariant
                i <= hv@.len(),
                ph == old(self).hosts@,
                pg == old(self).groups@,
                all == json_hostvars_ops(hv@),
                all == json_meta_ops(m@),
                run(ph, pg, json_hostvars_ops(hv@.take(i as int)), self.hosts@, self.groups@, Ok(())),
            decreases hv@.len() - i,
        {
            proof {
                assert(hv@.take(i + 1).drop_last() =~= hv@.take(i as int));
                assert(hv@.take(i + 1).last() == hv@[i as int]);
            }
            let ghost ch = self.hosts@;
            let ghost cg = self.groups@;
            let ghost done = json_hostvars_ops(hv@.take(i as int));
            match (&hv[i].0, &hv[i].1) {
                (Data::Str(h), Data::Mapping(vm, _)) => {
                    let r = self.run_host_vars(h.as_str(), vm);
                    let ghost sub = host_var_ops(h@, string_keyed(vm@));
                    proof {
                        lemma_run_concat(ph, pg, done, sub, ch, cg, self.hosts@, self.groups@, r);
                        assert(json_hostvars_ops(hv@.take(i + 1)) == done + sub);
                    }
                    match r {
                        Err(e) => {
                            proof {
                                let cur = json_hostvars_ops(hv@.take(i + 1));
                                let rest = json_hostvars_ops(hv@.skip(i + 1));
                                lemma_run_fail_extend(ph, pg, cur, rest, self.hosts@, self.groups@, e);
                                lemma_take_skip(hv@, i + 1);
                                lemma_hostvars_ops_concat(hv@.take(i + 1), hv@.skip(i + 1));
                            }
                            return Err(e);
                        },
                        Ok(()) => {
                            proof {
                                assert(r->Ok_0 == ());
                            }
                        },
                    }
                },
                _ => {
                    proof {
                        assert(json_hostvars_ops(hv@.take(i + 1)) =~= json_hostvars_ops(hv@.take(i as int)));
                    }
                },
            }
            i = i + 1;
        }
        proof {
            assert(hv@.take(hv@.len() as int) =~= hv@);
        }
        Ok(())
    }

    /// Reads a JSON inventory as dynamic inventory scripts print it: a
    /// mapping from group names to a list of hosts or to a group with
    /// `hosts`, `children` and `vars`, and a `_meta` entry whose `hostvars`
    /// give each host's variables. Every group is made first; then each is
    /// read; then every host joins `all`; then the host variables apply.
    /// Reading stops at the first error, with what came before it taken in.
    pub fn parse_json(&mut self, doc: &Data) -> (r: Result<(), InventoryError>)
        ensures
            run(old(self).hosts_view(), old(self).groups_view(), json_doc_ops(*doc), final(self).hosts_view(), final(self).groups_view(), r),
    {
        let ghost ph = self.hosts@;
        let ghost pg = self.groups@;
        let m = match doc {
            Data::Mapping(m, _) => m,
            _ => {
                return Ok(());
            },
        };
        let ghost a = json_groups(m@).map_values(|kv: (Seq<char>, Data)| LoadOp::EnsureGroup(kv.0));
        let ghost b = json_groups_ops(json_groups(m@));
        let ghost c = json_all_hosts(json_groups(m@)).map_values(|h: Seq<char>| LoadOp::GroupHost("all"@, h));
        let ghost d = json_meta_ops(m@);
        proof {
            assert(json_doc_ops(*doc) == a + b + c + d);
        }
        self.json_make_groups(m);
        let ghost h1 = self.hosts@;
        let ghost g1 = self.groups@;
        let mut all_hosts: Vec<String> = Vec::new();
        let r2 = self.json_read_groups(m, &mut all_hosts);
        proof {
            lemma_run_concat(ph, pg, a, b, h1, g1, self.hosts@, self.groups@, r2);
        }
        match r2 {
            Err(e) => {
                proof {
                    lemma_run_fail_extend(ph, pg, a + b, c + d, self.hosts@, self.groups@, e);
                    assert(a + b + (c + d) =~= a + b + c + d);
                }
                return Err(e);
            },
            Ok(()) => {},
        }
        proof {
            assert(r2->Ok_0 == ());
            assert(views(all_hosts@) =~= json_all_hosts(json_groups(m@)));
        }
        let ghost h2 = self.hosts@;
        let ghost g2 = self.groups@;
        self.run_group_hosts("all", &all_hosts);
        let ghost h3 = self.hosts@;
        let ghost g3 = self.groups@;
        proof {
            lemma_run_concat(ph, pg, a + b, c, h2, g2, h3, g3, Ok(()));
        }
        let r4 = self.json_read_meta(m);
        proof {
            lemma_run_concat(ph, pg, a + b + c, d, h3, g3, self.hosts@, self.groups@, r4);
        }
        r4
    }
}

} // verus!
