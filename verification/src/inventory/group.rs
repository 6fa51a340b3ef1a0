//! Groups of hosts, and the group hierarchy through which a host inherits variables.
use vstd::prelude::*;
use vstd::std_specs::iter::IteratorSpec;
use vstd::string::StringExecFns;
use crate::assoc::{entries, insert_entry, lookup, merged};
use crate::inventory::host::VarValue;
use crate::names::{contains_name, insert_name, remove_name};
use crate::text::{copy_str, views};

verus! {

broadcast use vstd::std_specs::iter::rev_postcondition, vstd::std_specs::slice::axiom_spec_slice_iter, vstd::seq_lib::group_seq_properties;

/// Groups ordered from most specific to least specific (child to parent).
#[derive(Debug, Clone)]
pub struct GroupHierarchy {
    /// The groups, most specific first.
    pub groups: Vec<String>,
}

/// The names of a hierarchy, in the order they were pushed.
pub open spec fn hierarchy_names(h: GroupHierarchy) -> Seq<Seq<char>> {
    h.groups@.map_values(|g: String| g@)
}

impl GroupHierarchy {
    /// An empty hierarchy.
    pub fn new() -> (h: Self)
        ensures
            h.groups@.len() == 0,
    {
        GroupHierarchy { groups: Vec::new() }
    }

    /// Adds a group after those already present.
    pub fn push(&mut self, group: &str)
        ensures
            hierarchy_names(*final(self)) == hierarchy_names(*old(self)).push(group@),
    {
        let ghost before = self.groups@;
        self.groups.push(String::from_str(group));
        proof {
            assert(hierarchy_names(*self) =~= before.map_values(|g: String| g@).push(group@));
        }
    }

    /// The groups from least specific to most specific (parent to child):
    /// the order in which variables apply, later ones overriding earlier ones.
    pub fn parent_to_child(&self) -> (r: std::iter::Rev<std::slice::Iter<'_, String>>)
        ensures
            IteratorSpec::remaining(&r).unref() == self.groups@.reverse(),
    {
        self.groups.iter().rev()
    }

    /// The groups from most specific to least specific (child to parent).
    pub fn child_to_parent(&self) -> (r: std::slice::Iter<'_, String>)
        ensures
            IteratorSpec::remaining(&r).unref() == self.groups@,
    {
        self.groups.iter()
    }
}

impl Default for GroupHierarchy {
    /// An empty hierarchy.
    fn default() -> (h: Self)
        ensures
            h.groups@.len() == 0,
    {
        GroupHierarchy::new()
    }
}

} // verus!

verus! {

/// A group of hosts with shared variables and parent-child relationships.
#[derive(Debug, Clone)]
pub struct Group {
    /// Group name.
    pub name: String,
    /// Names of the hosts directly in the group.
    pub hosts: Vec<String>,
    /// Names of the child groups.
    pub children: Vec<String>,
    /// Names of the parent groups, computed from the children of the others.
    pub parents: Vec<String>,
    /// Group variables, in insertion order.
    pub vars: Vec<(String, VarValue)>,
    /// Priority when variables of groups at the same depth conflict.
    pub priority: i32,
}

/// An empty group named `name`.
pub open spec fn empty_group(g: Group, name: Seq<char>) -> bool {
    &&& g.name@ == name
    &&& g.hosts@.len() == 0
    &&& g.children@.len() == 0
    &&& g.parents@.len() == 0
    &&& g.vars@.len() == 0
    &&& g.priority == 0
}

impl Group {
    /// An empty group.
    pub fn new(name: &str) -> (g: Group)
        ensures
            empty_group(g, name@),
    {
        Group {
            name: copy_str(name),
            hosts: Vec::new(),
            children: Vec::new(),
            parents: Vec::new(),
            vars: Vec::new(),
            priority: 0,
        }
    }

    /// The group every host belongs to.
    pub fn all() -> (g: Group)
        ensures
            empty_group(g, "all"@),
    {
        Group::new("all")
    }

    /// The group of hosts that belong to no other group.
    pub fn ungrouped() -> (g: Group)
        ensures
            empty_group(g, "ungrouped"@),
    {
        Group::new("ungrouped")
    }

    /// Adds a host to the group.
    pub fn add_host(&mut self, host: &str)
        ensures
            views(final(self).hosts@) == if views(old(self).hosts@).contains(host@) {
                views(old(self).hosts@)
            } else {
                views(old(self).hosts@).push(host@)
            },
            final(self).name == old(self).name,
            final(self).children == old(self).children,
            final(self).parents == old(self).parents,
            final(self).vars == old(self).vars,
            final(self).priority == old(self).priority,
    {
        insert_name(&mut self.hosts, host);
    }

    /// Removes a host from the group, saying whether it was there.
    pub fn remove_host(&mut self, host: &str) -> (r: bool)
        ensures
            views(final(self).hosts@) == views(old(self).hosts@).filter(|g: Seq<char>| g != host@),
            r == views(old(self).hosts@).contains(host@),
            final(self).children == old(self).children,
    {
        remove_name(&mut self.hosts, host)
    }

    /// Whether a host is directly in the group.
    pub fn has_host(&self, host: &str) -> (r: bool)
        ensures
            r == views(self.hosts@).contains(host@),
    {
        contains_name(self.hosts.as_slice(), host)
    }

    /// Adds a child group.
    pub fn add_child(&mut self, child: &str)
        ensures
            views(final(self).children@) == if views(old(self).children@).contains(child@) {
                views(old(self).children@)
            } else {
                views(old(self).children@).push(child@)
            },
            final(self).name == old(self).name,
            final(self).hosts == old(self).hosts,
            final(self).parents == old(self).parents,
            final(self).vars == old(self).vars,
            final(self).priority == old(self).priority,
    {
        insert_name(&mut self.children, child);
    }

    /// Removes a child group, saying whether it was there.
    pub fn remove_child(&mut self, child: &str) -> (r: bool)
        ensures
            views(final(self).children@) == views(old(self).children@).filter(|g: Seq<char>| g != child@),
            r == views(old(self).children@).contains(child@),
            final(self).hosts == old(self).hosts,
    {
        remove_name(&mut self.children, child)
    }

    /// Whether a group is a child of this one.
    pub fn has_child(&self, child: &str) -> (r: bool)
        ensures
            r == views(self.children@).contains(child@),
    {
        contains_name(self.children.as_slice(), child)
    }

    /// Adds a parent group.
    pub fn add_parent(&mut self, parent: &str)
        ensures
            views(final(self).parents@) == if views(old(self).parents@).contains(parent@) {
                views(old(self).parents@)
            } else {
                views(old(self).parents@).push(parent@)
            },
            final(self).name == old(self).name,
            final(self).hosts == old(self).hosts,
            final(self).children == old(self).children,
            final(self).vars == old(self).vars,
            final(self).priority == old(self).priority,
    {
        insert_name(&mut self.parents, parent);
    }

    /// Removes a parent group, saying whether it was there.
    pub fn remove_parent(&mut self, parent: &str) -> (r: bool)
        ensures
            views(final(self).parents@) == views(old(self).parents@).filter(|g: Seq<char>| g != parent@),
            r == views(old(self).parents@).contains(parent@),
    {
        remove_name(&mut self.parents, parent)
    }

    /// Whether a group is a parent of this one.
    pub fn has_parent(&self, parent: &str) -> (r: bool)
        ensures
            r == views(self.parents@).contains(parent@),
    {
        contains_name(self.parents.as_slice(), parent)
    }

    /// Sets a group variable.
    pub fn set_var(&mut self, key: &str, value: VarValue)
        ensures
            entries(final(self).vars@) == insert_entry(entries(old(self).vars@), key@, value),
            final(self).name == old(self).name,
            final(self).hosts == old(self).hosts,
            final(self).children == old(self).children,
            final(self).parents == old(self).parents,
            final(self).priority == old(self).priority,
    {
        crate::assoc::insert(&mut self.vars, copy_str(key), value);
    }

    /// The value of a group variable.
    pub fn get_var(&self, key: &str) -> (r: Option<&VarValue>)
        ensures
            match lookup(entries(self.vars@), key@) {
                Some(v) => r is Some && *r.unwrap() == v,
                None => r is None,
            },
    {
        crate::assoc::get(&self.vars, key)
    }

    /// Whether the group has a variable.
    pub fn has_var(&self, key: &str) -> (r: bool)
        ensures
            r == (lookup(entries(self.vars@), key@) is Some),
    {
        crate::assoc::find_key(&self.vars, key).is_some()
    }

    /// Whether the group has neither hosts nor children.
    pub fn is_empty(&self) -> (r: bool)
        ensures
            r == (self.hosts@.len() == 0 && self.children@.len() == 0),
    {
        self.hosts.len() == 0 && self.children.len() == 0
    }

    /// The names of the hosts directly in the group, in order.
    pub fn direct_hosts(&self) -> (r: &[String])
        ensures
            r@ == self.hosts@,
    {
        self.hosts.as_slice()
    }

    /// The names of the child groups, in order.
    pub fn child_groups(&self) -> (r: &[String])
        ensures
            r@ == self.children@,
    {
        self.children.as_slice()
    }

    /// The names of the parent groups, in order.
    pub fn parent_groups(&self) -> (r: &[String])
        ensures
            r@ == self.parents@,
    {
        self.parents.as_slice()
    }

    /// The number of hosts directly in the group.
    pub fn host_count(&self) -> (r: usize)
        ensures
            r == self.hosts@.len(),
    {
        self.hosts.len()
    }

    /// The number of child groups.
    pub fn child_count(&self) -> (r: usize)
        ensures
            r == self.children@.len(),
    {
        self.children.len()
    }

    /// Merges variables from another source; its values win.
    pub fn merge_vars(&mut self, other: &Vec<(String, VarValue)>)
        ensures
            entries(final(self).vars@) == merged(entries(old(self).vars@), entries(other@)),
            final(self).name == old(self).name,
            final(self).hosts == old(self).hosts,
            final(self).children == old(self).children,
            final(self).parents == old(self).parents,
    {
        let mut i: usize = 0;
        while i < other.len()
            invariant
                i <= other@.len(),
                entries(self.vars@) == merged(entries(old(self).vars@), entries(other@).take(i as int)),
                self.name == old(self).name,
                self.hosts == old(self).hosts,
                self.children == old(self).children,
                self.parents == old(self).parents,
            decreases other@.len() - i,
        {
            proof {
                assert(entries(other@).take(i + 1).drop_last() =~= entries(other@).take(i as int));
            }
            let key = other[i].0.clone();
            let value = other[i].1.duplicate();
            proof {
                assert(entries(other@).take(i + 1).last() == (key@, value));
            }
            self.set_var(key.as_str(), value);
            i = i + 1;
        }
        proof {
            assert(entries(other@).take(other@.len() as int) =~= entries(other@));
        }
    }

    /// The number of parent groups.
    pub fn depth(&self) -> (r: usize)
        ensures
            r == self.parents@.len(),
    {
        self.parents.len()
    }
}

} // verus!

verus! {

use crate::numbers::{decimal, push_decimal};

/// How a group reads: `name (n hosts)`, with `, c children` when it has children.
pub open spec fn group_text(g: Group) -> Seq<char> {
    g.name@ + " ("@ + decimal(g.hosts@.len()) + " hosts"@ + if g.children@.len() > 0 {
        ", "@ + decimal(g.children@.len()) + " children"@
    } else {
        Seq::empty()
    } + ")"@
}

impl Group {
    /// The group as text: its name and how many hosts and children it has.
    pub fn describe(&self) -> (r: String)
        ensures
            r@ == group_text(*self),
    {
        let mut r = copy_str(self.name.as_str());
        r.append(" (");
        push_decimal(&mut r, self.hosts.len() as u64);
        r.append(" hosts");
        let ghost head = r@;
        if self.children.len() > 0 {
            r.append(", ");
            push_decimal(&mut r, self.children.len() as u64);
            r.append(" children");
        }
        r.append(")");
        proof {
            let tail = if self.children@.len() > 0 {
                ", "@ + decimal(self.children@.len()) + " children"@
            } else {
                Seq::empty()
            };
            assert(r@ =~= head + tail + ")"@);
        }
        r
    }
}

/// Builds a group step by step.
#[derive(Debug)]
pub struct GroupBuilder {
    name: String,
    hosts: Vec<String>,
    children: Vec<String>,
    vars: Vec<(String, VarValue)>,
    priority: i32,
}

impl GroupBuilder {
    /// The name of the group being built.
    pub closed spec fn name_of(&self) -> Seq<char> {
        self.name@
    }

    /// Its hosts.
    pub closed spec fn hosts_of(&self) -> Seq<Seq<char>> {
        views(self.hosts@)
    }

    /// Its children.
    pub closed spec fn children_of(&self) -> Seq<Seq<char>> {
        views(self.children@)
    }

    /// Its variables.
    pub closed spec fn vars_of(&self) -> Seq<(Seq<char>, VarValue)> {
        entries(self.vars@)
    }

    /// Its priority.
    pub closed spec fn priority_of(&self) -> i32 {
        self.priority
    }

    /// A builder of an empty group.
    pub fn new(name: &str) -> (b: Self)
        ensures
            b.name_of() == name@,
            b.hosts_of().len() == 0,
            b.children_of().len() == 0,
            b.vars_of().len() == 0,
            b.priority_of() == 0,
    {
        GroupBuilder { name: copy_str(name), hosts: Vec::new(), children: Vec::new(), vars: Vec::new(), priority: 0 }
    }

    /// Adds a host.
    pub fn host(self, host: &str) -> (b: Self)
        ensures
            b.hosts_of() == if self.hosts_of().contains(host@) {
                self.hosts_of()
            } else {
                self.hosts_of().push(host@)
            },
            b.name_of() == self.name_of(),
            b.children_of() == self.children_of(),
            b.vars_of() == self.vars_of(),
            b.priority_of() == self.priority_of(),
    {
        let mut b = self;
        insert_name(&mut b.hosts, host);
        b
    }

    /// Adds hosts, in order.
    pub fn hosts(self, hosts: &[&str]) -> (b: Self)
        ensures
            b.hosts_of().to_set() == self.hosts_of().to_set() + hosts@.map_values(
                |h: &str| h@,
            ).to_set(),
            b.hosts_of().no_duplicates() || !self.hosts_of().no_duplicates(),
            b.name_of() == self.name_of(),
            b.children_of() == self.children_of(),
            b.vars_of() == self.vars_of(),
            b.priority_of() == self.priority_of(),
    {
        let mut b = self;
        let ghost start = views(b.hosts@);
        let mut i: usize = 0;
        proof {
            assert(hosts@.take(0).map_values(|h: &str| h@).to_set() =~= Set::<Seq<char>>::empty());
            assert(views(b.hosts@).to_set() =~= start.to_set() + Set::<Seq<char>>::empty());
        }
        while i < hosts.len()
            invariant
                i <= hosts@.len(),
                b.name == self.name,
                b.children == self.children,
                b.vars == self.vars,
                b.priority == self.priority,
                start == views(self.hosts@),
                views(b.hosts@).to_set() == start.to_set() + hosts@.take(i as int).map_values(|h: &str| h@).to_set(),
                start.no_duplicates() ==> views(b.hosts@).no_duplicates(),
            decreases hosts@.len() - i,
        {
            let ghost before = views(b.hosts@);
            insert_name(&mut b.hosts, hosts[i]);
            proof {
                assert(hosts@.take(i + 1).map_values(|h: &str| h@) =~= hosts@.take(i as int).map_values(|h: &str| h@).push(
                    hosts@[i as int]@,
                ));
                assert(views(b.hosts@).to_set() =~= before.to_set().insert(hosts@[i as int]@));
                assert(views(b.hosts@).to_set() =~= start.to_set() + hosts@.take(i + 1).map_values(|h: &str| h@).to_set());
                if before.no_duplicates() && !before.contains(hosts@[i as int]@) {
                    assert(views(b.hosts@) == before.push(hosts@[i as int]@));
                    assert(views(b.hosts@).no_duplicates());
                }
            }
            i = i + 1;
        }
        proof {
            assert(hosts@.take(hosts@.len() as int) =~= hosts@);
        }
        b
    }

    /// Adds a child group.
    pub fn child(self, child: &str) -> (b: Self)
        ensures
            b.children_of() == if self.children_of().contains(child@) {
                self.children_of()
            } else {
                self.children_of().push(child@)
            },
            b.name_of() == self.name_of(),
            b.hosts_of() == self.hosts_of(),
            b.vars_of() == self.vars_of(),
            b.priority_of() == self.priority_of(),
    {
        let mut b = self;
        insert_name(&mut b.children, child);
        b
    }

    /// Adds child groups, in order.
    pub fn children(self, children: &[&str]) -> (b: Self)
        ensures
            b.children_of().to_set() == self.children_of().to_set() + children@.map_values(
                |c: &str| c@,
            ).to_set(),
            b.name_of() == self.name_of(),
            b.hosts_of() == self.hosts_of(),
            b.vars_of() == self.vars_of(),
            b.priority_of() == self.priority_of(),
    {
        let mut b = self;
        let ghost start = views(b.children@);
        let mut i: usize = 0;
        proof {
            assert(children@.take(0).map_values(|c: &str| c@).to_set() =~= Set::<Seq<char>>::empty());
            assert(views(b.children@).to_set() =~= start.to_set() + Set::<Seq<char>>::empty());
        }
        while i < children.len()
            invariant
                i <= children@.len(),
                b.name == self.name,
                b.hosts == self.hosts,
                b.vars == self.vars,
                b.priority == self.priority,
                start == views(self.children@),
                views(b.children@).to_set() == start.to_set() + children@.take(i as int).map_values(|c: &str| c@).to_set(),
            decreases children@.len() - i,
        {
            let ghost before = views(b.children@);
            insert_name(&mut b.children, children[i]);
            proof {
                assert(children@.take(i + 1).map_values(|c: &str| c@) =~= children@.take(i as int).map_values(|c: &str| c@).push(
                    children@[i as int]@,
                ));
                assert(views(b.children@).to_set() =~= before.to_set().insert(children@[i as int]@));
                assert(views(b.children@).to_set() =~= start.to_set() + children@.take(i + 1).map_values(|c: &str| c@).to_set());
            }
            i = i + 1;
        }
        proof {
            assert(children@.take(children@.len() as int) =~= children@);
        }
        b
    }

    /// Sets a variable.
    pub fn var(self, key: &str, value: VarValue) -> (b: Self)
        ensures
            b.vars_of() == insert_entry(self.vars_of(), key@, value),
            b.name_of() == self.name_of(),
            b.hosts_of() == self.hosts_of(),
            b.children_of() == self.children_of(),
            b.priority_of() == self.priority_of(),
    {
        let mut b = self;
        crate::assoc::insert(&mut b.vars, copy_str(key), value);
        b
    }

    /// Sets the priority.
    pub fn priority(self, priority: i32) -> (b: Self)
        ensures
            b.priority_of() == priority,
            b.name_of() == self.name_of(),
            b.hosts_of() == self.hosts_of(),
            b.children_of() == self.children_of(),
            b.vars_of() == self.vars_of(),
    {
        let mut b = self;
        b.priority = priority;
        b
    }

    /// The group, without parents.
    pub fn build(self) -> (g: Group)
        ensures
            g.name@ == self.name_of(),
            views(g.hosts@) == self.hosts_of(),
            views(g.children@) == self.children_of(),
            entries(g.vars@) == self.vars_of(),
            g.priority == self.priority_of(),
            g.parents@.len() == 0,
    {
        Group { name: self.name, hosts: self.hosts, children: self.children, parents: Vec::new(), vars: self.vars, priority: self.priority }
    }
}

} // verus!
