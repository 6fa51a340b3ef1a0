//! Inventory: hosts, groups, the order in which group variables apply, and
//! the host patterns that select hosts.
pub mod data;
pub mod describe;
pub mod graph;
pub mod hierarchy;
pub mod loader;
pub mod group;
pub mod host;
pub mod ini;
pub mod pattern;
pub mod resolve;
pub mod select;
pub mod sources;

use vstd::prelude::*;
use crate::text::concat2;
use host::HostParseError;

verus! {

/// Errors of inventory operations. Errors of outside libraries (I/O, YAML,
/// JSON) are kept as their messages.
#[derive(Debug, Clone, PartialEq, Eq)]
pub enum InventoryError {
    /// An I/O error.
    Io(String),
    /// A YAML parsing error.
    Yaml(String),
    /// A JSON parsing error.
    Json(String),
    /// No host of that name.
    HostNotFound(String),
    /// No group of that name.
    GroupNotFound(String),
    /// A host pattern that is malformed or matches nothing.
    InvalidPattern(String),
    /// A host defined twice.
    DuplicateHost(String),
    /// A group defined twice.
    DuplicateGroup(String),
    /// Groups that contain each other.
    CircularDependency(String),
    /// A dynamic inventory script that failed.
    DynamicInventoryFailed(String),
    /// A malformed INI inventory.
    InvalidIniFormat(String),
    /// A host line that does not parse.
    HostParse(HostParseError),
}

impl InventoryError {
    /// The error's message.
    pub fn message(&self) -> (r: String)
        ensures
            r@ == match self {
                InventoryError::Io(m) => "IO error: "@ + m@,
                InventoryError::Yaml(m) => "YAML parsing error: "@ + m@,
                InventoryError::Json(m) => "JSON parsing error: "@ + m@,
                InventoryError::HostNotFound(m) => "host not found: "@ + m@,
                InventoryError::GroupNotFound(m) => "group not found: "@ + m@,
                InventoryError::InvalidPattern(m) => "invalid host pattern: "@ + m@,
                InventoryError::DuplicateHost(m) => "duplicate host: "@ + m@,
                InventoryError::DuplicateGroup(m) => "duplicate group: "@ + m@,
                InventoryError::CircularDependency(m) => "circular group dependency detected: "@ + m@,
                InventoryError::DynamicInventoryFailed(m) => "dynamic inventory script failed: "@ + m@,
                InventoryError::InvalidIniFormat(m) => "invalid INI format: "@ + m@,
                InventoryError::HostParse(e) => "host parse error: "@ + host::host_error_message(*e),
            },
    {
        match self {
            InventoryError::Io(m) => concat2("IO error: ", m.as_str()),
            InventoryError::Yaml(m) => concat2("YAML parsing error: ", m.as_str()),
            InventoryError::Json(m) => concat2("JSON parsing error: ", m.as_str()),
            InventoryError::HostNotFound(m) => concat2("host not found: ", m.as_str()),
            InventoryError::GroupNotFound(m) => concat2("group not found: ", m.as_str()),
            InventoryError::InvalidPattern(m) => concat2("invalid host pattern: ", m.as_str()),
            InventoryError::DuplicateHost(m) => concat2("duplicate host: ", m.as_str()),
            InventoryError::DuplicateGroup(m) => concat2("duplicate group: ", m.as_str()),
            InventoryError::CircularDependency(m) => concat2("circular group dependency detected: ", m.as_str()),
            InventoryError::DynamicInventoryFailed(m) => concat2("dynamic inventory script failed: ", m.as_str()),
            InventoryError::InvalidIniFormat(m) => concat2("invalid INI format: ", m.as_str()),
            InventoryError::HostParse(e) => {
                let inner = e.message();
                concat2("host parse error: ", inner.as_str())
            },
        }
    }
}

} // verus!

verus! {

broadcast use vstd::seq_lib::group_seq_properties;

/// The position of the first host named `name`.
pub open spec fn host_index(hs: Seq<host::Host>, name: Seq<char>) -> Option<int>
    decreases hs.len(),
{
    if hs.len() == 0 {
        None
    } else {
        match host_index(hs.drop_last(), name) {
            Some(i) => Some(i),
            None => if hs.last().name@ == name { Some(hs.len() - 1) } else { None },
        }
    }
}

proof fn lemma_host_index(hs: Seq<host::Host>, name: Seq<char>, i: int)
    requires
        0 <= i <= hs.len(),
        forall|k: int| 0 <= k < i ==> hs[k].name@ != name,
        i < hs.len() ==> hs[i].name@ == name,
    ensures
        host_index(hs, name) == (if i < hs.len() { Some(i) } else { None::<int> }),
    decreases hs.len(),
{
    if hs.len() > 0 {
        if i < hs.len() - 1 {
            lemma_host_index(hs.drop_last(), name, i);
        } else {
            lemma_host_index(hs.drop_last(), name, hs.len() - 1);
        }
    }
}

proof fn lemma_host_index_first(hs: Seq<host::Host>, name: Seq<char>)
    ensures
        match host_index(hs, name) {
            Some(i) => 0 <= i < hs.len() && hs[i].name@ == name && forall|k: int| 0 <= k < i ==> #[trigger] hs[k].name@ != name,
            None => forall|k: int| 0 <= k < hs.len() ==> #[trigger] hs[k].name@ != name,
        },
    decreases hs.len(),
{
    if hs.len() > 0 {
        let rest = hs.drop_last();
        lemma_host_index_first(rest, name);
        match host_index(rest, name) {
            Some(i) => {
                assert(rest[i] == hs[i]);
                assert forall|k: int| 0 <= k < i implies #[trigger] hs[k].name@ != name by {
                    assert(rest[k] == hs[k]);
                }
            },
            None => {
                assert forall|k: int| 0 <= k < hs.len() - 1 implies #[trigger] hs[k].name@ != name by {
                    assert(rest[k] == hs[k]);
                }
            },
        }
    }
}

/// Once a host is added, looking its name up gives that host.
pub proof fn law_add_host_then_get(before: Seq<host::Host>, h: host::Host, after: Seq<host::Host>)
    requires
        host_inserted(before, h, after),
    ensures
        host_index(after, h.name@) matches Some(i) && after[i] == h,
{
    lemma_host_index_first(before, h.name@);
    match host_index(before, h.name@) {
        Some(i) => {
            lemma_host_index(after, h.name@, i);
        },
        None => {
            lemma_host_index(after, h.name@, before.len() as int);
        },
    }
}

/// Finds the first host named `name`.
pub fn find_host(hosts: &Vec<host::Host>, name: &str) -> (r: Option<usize>)
    ensures
        match host_index(hosts@, name@) {
            Some(i) => r is Some && r.unwrap() as int == i,
            None => r is None,
        },
        r is Some ==> r.unwrap() < hosts@.len() && hosts@[r.unwrap() as int].name@ == name@,
{
    let mut i: usize = 0;
    while i < hosts.len()
        invariant
            i <= hosts@.len(),
            forall|k: int| 0 <= k < i ==> hosts@[k].name@ != name@,
        decreases hosts@.len() - i,
    {
        if crate::text::str_equal(hosts[i].name.as_str(), name) {
            proof {
                lemma_host_index(hosts@, name@, i as int);
            }
            return Some(i);
        }
        i = i + 1;
    }
    proof {
        lemma_host_index(hosts@, name@, hosts@.len() as int);
    }
    None
}

/// `after` is `before` with `h` in place of the first host of the same name,
/// or with `h` added last when there is none.
pub open spec fn host_inserted(before: Seq<host::Host>, h: host::Host, after: Seq<host::Host>) -> bool {
    match host_index(before, h.name@) {
        Some(i) => after == before.update(i, h),
        None => after == before.push(h),
    }
}

/// `after` is `before` with the host name `hname` added to the first group
/// named `gname`, when there is such a group.
pub open spec fn host_added_to_group(before: Seq<group::Group>, gname: Seq<char>, hname: Seq<char>, after: Seq<group::Group>) -> bool {
    &&& after.len() == before.len()
    &&& forall|k: int|
        0 <= k < before.len() ==> if graph::group_index(before, gname) == Some(k) {
            &&& crate::text::views((#[trigger] after[k]).hosts@) == if crate::text::views(before[k].hosts@).contains(hname) {
                crate::text::views(before[k].hosts@)
            } else {
                crate::text::views(before[k].hosts@).push(hname)
            }
            &&& after[k].name == before[k].name
            &&& after[k].children == before[k].children
            &&& after[k].parents == before[k].parents
            &&& after[k].vars == before[k].vars
            &&& after[k].priority == before[k].priority
        } else {
            after[k] == before[k]
        }
}

/// The group list after adding or replacing `g` by name.
pub open spec fn group_inserted(before: Seq<group::Group>, g: group::Group) -> Seq<group::Group> {
    match graph::group_index(before, g.name@) {
        Some(i) => before.update(i, g),
        None => before.push(g),
    }
}

/// The hosts and groups of an inventory.
#[derive(Debug, Clone)]
pub struct Inventory {
    hosts: Vec<host::Host>,
    groups: Vec<group::Group>,
    source: Option<String>,
}

/// Adds a host name to the first group named `gname`, if there is one.
pub(crate) fn add_host_to_group(groups: &mut Vec<group::Group>, gname: &str, hname: &str)
    ensures
        host_added_to_group(old(groups)@, gname@, hname@, final(groups)@),
{
    match graph::find_group(groups, gname) {
        Some(i) => {
            groups[i].add_host(hname);
        },
        None => {},
    }
}

impl Inventory {
    /// The hosts, in the order they were added.
    pub closed spec fn hosts_view(&self) -> Seq<host::Host> {
        self.hosts@
    }

    /// The groups, in the order they were added.
    pub closed spec fn groups_view(&self) -> Seq<group::Group> {
        self.groups@
    }

    /// Where the inventory was loaded from, if it was loaded from a path.
    pub closed spec fn source_view(&self) -> Option<Seq<char>> {
        host::opt_view(self.source)
    }

    /// Records where the inventory was loaded from.
    pub fn set_source(&mut self, path: String)
        ensures
            final(self).source_view() == Some(path@),
            final(self).hosts_view() == old(self).hosts_view(),
            final(self).groups_view() == old(self).groups_view(),
    {
        self.source = Some(path);
    }

    /// Where the inventory was loaded from, if it was loaded from a path.
    pub fn source(&self) -> (r: &Option<String>)
        ensures
            host::opt_view(*r) == self.source_view(),
    {
        &self.source
    }

    /// An inventory without hosts, with the groups `all` and `ungrouped`.
    pub fn new() -> (inv: Inventory)
        ensures
            inv.source_view() is None,
            inv.hosts_view().len() == 0,
            inv.groups_view().len() == 2,
            group::empty_group(inv.groups_view()[0], "all"@),
            group::empty_group(inv.groups_view()[1], "ungrouped"@),
            graph::names_unique(inv.groups_view()),
    {
        let mut groups: Vec<group::Group> = Vec::new();
        groups.push(group::Group::all());
        groups.push(group::Group::ungrouped());
        let inv = Inventory { hosts: Vec::new(), groups, source: None };
        proof {
            reveal_strlit("all");
            reveal_strlit("ungrouped");
            assert(inv.groups_view()[0].name@ != inv.groups_view()[1].name@) by {
                assert(inv.groups_view()[0].name@.len() != inv.groups_view()[1].name@.len());
            }
        }
        inv
    }

    /// The number of hosts.
    pub fn host_count(&self) -> (r: usize)
        ensures
            r == self.hosts_view().len(),
    {
        self.hosts.len()
    }

    /// The number of groups.
    pub fn group_count(&self) -> (r: usize)
        ensures
            r == self.groups_view().len(),
    {
        self.groups.len()
    }

    /// All hosts, in the order they were added.
    pub fn get_all_hosts(&self) -> (r: &[host::Host])
        ensures
            r@ == self.hosts_view(),
    {
        self.hosts.as_slice()
    }

    /// The hosts, in the order they were added.
    pub fn hosts(&self) -> (r: &Vec<host::Host>)
        ensures
            r@ == self.hosts_view(),
    {
        &self.hosts
    }

    /// The groups, in the order they were added.
    pub fn groups(&self) -> (r: &Vec<group::Group>)
        ensures
            r@ == self.groups_view(),
    {
        &self.groups
    }

    /// The host of a name.
    pub fn get_host(&self, name: &str) -> (r: Option<&host::Host>)
        ensures
            match host_index(self.hosts_view(), name@) {
                Some(i) => r is Some && *r.unwrap() == self.hosts_view()[i],
                None => r is None,
            },
    {
        match find_host(&self.hosts, name) {
            Some(i) => Some(&self.hosts[i]),
            None => None,
        }
    }

    /// The group of a name.
    pub fn get_group(&self, name: &str) -> (r: Option<&group::Group>)
        ensures
            match graph::group_index(self.groups_view(), name@) {
                Some(i) => r is Some && *r.unwrap() == self.groups_view()[i],
                None => r is None,
            },
    {
        match graph::find_group(&self.groups, name) {
            Some(i) => Some(&self.groups[i]),
            None => None,
        }
    }

    /// Adds a host, or replaces the host of the same name. The host joins
    /// `all`, and `ungrouped` when it belongs to no group but `all`.
    pub fn add_host(&mut self, host: host::Host) -> (r: Result<(), InventoryError>)
        ensures
            r is Ok,
            host_inserted(old(self).hosts_view(), host, final(self).hosts_view()),
            ({
                let ungrouped = host.groups@.len() == 0 || (host.groups@.len() == 1 && host.groups@[0]@ == "all"@);
                exists|mid: Seq<group::Group>|
                    host_added_to_group(old(self).groups_view(), "all"@, host.name@, mid) && if ungrouped {
                        host_added_to_group(mid, "ungrouped"@, host.name@, final(self).groups_view())
                    } else {
                        final(self).groups_view() == mid
                    }
            }),
    {
        let name = host.name.clone();
        add_host_to_group(&mut self.groups, "all", name.as_str());
        let ghost mid = self.groups@;
        let only_all = host.groups.len() == 1 && host.in_group("all");
        proof {
            if host.groups@.len() == 1 {
                assert(crate::inventory::host::group_names(host.groups@).contains("all"@) == (host.groups@[0]@ == "all"@)) by {
                    if crate::inventory::host::group_names(host.groups@).contains("all"@) {
                        let k = choose|k: int| 0 <= k < 1 && crate::inventory::host::group_names(host.groups@)[k] == "all"@;
                        assert(k == 0);
                    }
                    assert(crate::inventory::host::group_names(host.groups@)[0] == host.groups@[0]@);
                }
            }
        }
        let ghost ungrouped = host.groups@.len() == 0 || (host.groups@.len() == 1 && host.groups@[0]@ == "all"@);
        if host.groups.len() == 0 || only_all {
            add_host_to_group(&mut self.groups, "ungrouped", name.as_str());
        }
        proof {
            assert(host_added_to_group(old(self).groups_view(), "all"@, host.name@, mid) && if ungrouped {
                host_added_to_group(mid, "ungrouped"@, host.name@, self.groups_view())
            } else {
                self.groups_view() == mid
            });
        }
        match find_host(&self.hosts, name.as_str()) {
            Some(i) => {
                self.hosts.set(i, host);
            },
            None => {
                self.hosts.push(host);
            },
        }
        Ok(())
    }

    /// Checks that no group is its own descendant; the error names a group on a cycle.
    pub fn validate_group_graph(&self) -> (r: Result<(), InventoryError>)
        ensures
            !graph::has_cycle(self.groups_view()) ==> r is Ok,
            graph::has_cycle(self.groups_view()) ==> (r matches Err(InventoryError::CircularDependency(n)) && exists|i: int|
                0 <= i < self.groups_view().len() && graph::on_cycle(self.groups_view(), i) && self.groups_view()[i].name@ == n@),
    {
        match graph::find_cycle(&self.groups) {
            Some(i) => Err(InventoryError::CircularDependency(self.groups[i].name.clone())),
            None => Ok(()),
        }
    }

    /// Adds a group, or replaces the group of the same name, unless that makes
    /// some group its own descendant; then the inventory is left as it was.
    /// The parents of all groups are recomputed.
    pub fn add_group(&mut self, group: group::Group) -> (r: Result<(), InventoryError>)
        ensures
            !graph::has_cycle(group_inserted(old(self).groups_view(), group)) ==> (r is Ok && graph::same_but_parents(
                final(self).groups_view(),
                group_inserted(old(self).groups_view(), group),
            ) && graph::parents_computed(final(self).groups_view())),
            graph::has_cycle(group_inserted(old(self).groups_view(), group)) ==> (r matches Err(
                InventoryError::CircularDependency(n),
            ) && final(self).groups_view() == old(self).groups_view() && exists|i: int|
                0 <= i < group_inserted(old(self).groups_view(), group).len() && graph::on_cycle(
                    group_inserted(old(self).groups_view(), group),
                    i,
                ) && group_inserted(old(self).groups_view(), group)[i].name@ == n@),
            final(self).hosts_view() == old(self).hosts_view(),
            graph::names_unique(old(self).groups_view()) ==> graph::names_unique(final(self).groups_view()),
    {
        let ghost inserted = group_inserted(self.groups@, group);
        proof {
            if graph::names_unique(self.groups@) {
                lemma_inserted_unique(self.groups@, group);
            }
        }
        match graph::find_group(&self.groups, group.name.as_str()) {
            Some(i) => {
                let mut g = group;
                std::mem::swap(&mut self.groups[i], &mut g);
                proof {
                    assert(self.groups@ =~= inserted);
                }
                match graph::find_cycle(&self.groups) {
                    Some(c) => {
                        let cname = self.groups[c].name.clone();
                        std::mem::swap(&mut self.groups[i], &mut g);
                        proof {
                            assert(self.groups@ =~= old(self).groups@);
                        }
                        return Err(InventoryError::CircularDependency(cname));
                    },
                    None => {},
                }
            },
            None => {
                self.groups.push(group);
                match graph::find_cycle(&self.groups) {
                    Some(c) => {
                        let cname = self.groups[c].name.clone();
                        self.groups.pop();
                        proof {
                            assert(self.groups@ =~= old(self).groups@);
                        }
                        return Err(InventoryError::CircularDependency(cname));
                    },
                    None => {},
                }
            },
        }
        graph::compute_group_parents(&mut self.groups);
        proof {
            if graph::names_unique(old(self).groups@) {
                graph::lemma_same_but_parents_unique(self.groups@, inserted);
            }
        }
        Ok(())
    }
}

/// Inserting a group keeps group names unique: it replaces the group of its
/// name, or comes with a new name.
proof fn lemma_inserted_unique(before: Seq<group::Group>, g: group::Group)
    requires
        graph::names_unique(before),
    ensures
        graph::names_unique(group_inserted(before, g)),
{
    graph::lemma_group_index_found(before, g.name@);
    let after = group_inserted(before, g);
    match graph::group_index(before, g.name@) {
        Some(i) => {
            assert forall|x: int, y: int| 0 <= x < y < after.len() implies (#[trigger] after[x]).name@ != (
            #[trigger] after[y]).name@ by {
                assert(after[x].name@ == before[x].name@);
                assert(after[y].name@ == before[y].name@);
            }
        },
        None => {
            assert forall|x: int, y: int| 0 <= x < y < after.len() implies (#[trigger] after[x]).name@ != (
            #[trigger] after[y]).name@ by {
                if y < before.len() {
                    assert(after[x] == before[x] && after[y] == before[y]);
                } else {
                    assert(after[x] == before[x]);
                }
            }
        },
    }
}

} // verus!
