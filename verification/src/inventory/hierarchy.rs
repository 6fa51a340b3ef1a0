//! The groups a host inherits variables from, most specific first, and the
//! variables a host ends up with.
use vstd::prelude::*;
use super::graph::{find_group, group_index};
use super::group::{Group, GroupHierarchy, hierarchy_names};
use super::host::{Host, VarValue, group_names};
use super::Inventory;
use crate::assoc::{entries, insert_entry, lookup};
use crate::names::contains_name;
use crate::text::views;

verus! {

broadcast use vstd::seq_lib::group_seq_properties;

/// How many groups have a name that is not among `visited`.
pub open spec fn unvisited_groups(gs: Seq<Group>, visited: Seq<Seq<char>>) -> nat
    decreases gs.len(),
{
    if gs.len() == 0 {
        0
    } else {
        unvisited_groups(gs.drop_last(), visited) + if visited.contains(gs.last().name@) { 0nat } else { 1nat }
    }
}

/// Visiting one more name never adds unvisited groups, and visiting the
/// name of an unvisited group removes at least one.
pub proof fn lemma_unvisited_push(gs: Seq<Group>, visited: Seq<Seq<char>>, n: Seq<char>)
    ensures
        unvisited_groups(gs, visited.push(n)) <= unvisited_groups(gs, visited),
        !visited.contains(n) && group_index(gs, n) is Some ==> unvisited_groups(gs, visited.push(n)) < unvisited_groups(gs, visited),
    decreases gs.len(),
{
    if gs.len() > 0 {
        lemma_unvisited_push(gs.drop_last(), visited, n);
        assert(visited.contains(gs.last().name@) ==> visited.push(n).contains(gs.last().name@)) by {
            if visited.contains(gs.last().name@) {
                let k = choose|k: int| 0 <= k < visited.len() && visited[k] == gs.last().name@;
                assert(visited.push(n)[k] == gs.last().name@);
            }
        }
        if gs.last().name@ == n {
            assert(visited.push(n)[visited.len() as int] == n);
        }
        if !visited.contains(n) && group_index(gs, n) is Some {
            if group_index(gs.drop_last(), n) is None {
                assert(gs.last().name@ == n);
            }
        }
    }
}

/// The names a depth-first walk up parent links visits, in order: the walk
/// takes the name on top of the stack; a name visited before is skipped;
/// else it is visited, and the parents of the group of that name (when
/// there is one) go on the stack, the first parent on top.
pub open spec fn parent_walk(gs: Seq<Group>, visited: Seq<Seq<char>>, stack: Seq<Seq<char>>) -> Seq<Seq<char>>
    decreases unvisited_groups(gs, visited), stack.len(),
{
    if stack.len() == 0 {
        visited
    } else {
        let n = stack.last();
        let rest = stack.drop_last();
        if visited.contains(n) {
            parent_walk(gs, visited, rest)
        } else {
            proof {
                lemma_unvisited_push(gs, visited, n);
            }
            match group_index(gs, n) {
                None => parent_walk(gs, visited.push(n), rest),
                Some(i) => parent_walk(gs, visited.push(n), rest + views(gs[i].parents@).reverse()),
            }
        }
    }
}

/// Whether `anc` is a parent of some group that the walk up from `g` visits:
/// `anc` is an ancestor of `g`.
pub open spec fn is_ancestor(gs: Seq<Group>, anc: Seq<char>, g: Seq<char>) -> bool {
    let seen = parent_walk(gs, Seq::empty(), seq![g]);
    exists|k: int|
        0 <= k < seen.len() && #[trigger] group_index(gs, seen[k]) is Some && views(
            gs[group_index(gs, seen[k]).unwrap()].parents@,
        ).contains(anc)
}

/// The groups of a host that are not an ancestor of another of its groups.
pub open spec fn leaf_groups(gs: Seq<Group>, hg: Seq<Seq<char>>) -> Seq<Seq<char>> {
    hg.filter(|g: Seq<char>| !exists|k: int| 0 <= k < hg.len() && hg[k] != g && #[trigger] is_ancestor(gs, g, hg[k]))
}

/// The hierarchy of a host with the groups `hg`: a walk up from each leaf
/// group in turn, sharing what was visited.
pub open spec fn host_hierarchy(gs: Seq<Group>, hg: Seq<Seq<char>>) -> Seq<Seq<char>> {
    parent_walk(gs, Seq::empty(), leaf_groups(gs, hg).reverse())
}

impl Inventory {
    /// Walks up parent links from the names of `stack`, as `parent_walk`
    /// states it.
    fn walk_parents(&self, stack: Vec<String>) -> (r: Vec<String>)
        ensures
            views(r@) == parent_walk(self.groups@, Seq::empty(), views(stack@)),
    {
        let ghost gs = self.groups@;
        let ghost goal = parent_walk(gs, Seq::empty(), views(stack@));
        let mut visited: Vec<String> = Vec::new();
        let mut stack = stack;
        proof {
            assert(views(visited@) =~= Seq::<Seq<char>>::empty());
        }
        while stack.len() > 0
            invariant
                gs == self.groups@,
                parent_walk(gs, views(visited@), views(stack@)) == goal,
            decreases unvisited_groups(gs, views(visited@)), stack@.len(),
        {
            let ghost vis_start = views(visited@);
            let ghost st_pre = views(stack@);
            let ghost vst_pre = stack@;
            let n = stack.pop().unwrap();
            let ghost st_start = views(stack@);
            let ghost before = views(stack@).push(n@);
            proof {
                assert(vst_pre == stack@.push(n));
                assert(views(stack@.push(n)) =~= before);
                assert(st_pre == before);
                assert(before.drop_last() =~= views(stack@));
                assert(before.last() == n@);
                lemma_unvisited_push(gs, views(visited@), n@);
            }
            if !contains_name(visited.as_slice(), n.as_str()) {
                let ghost vis0 = views(visited@);
                visited.push(n.clone());
                proof {
                    assert(views(visited@) =~= vis0.push(n@));
                }
                match find_group(&self.groups, n.as_str()) {
                    None => {},
                    Some(i) => {
                        let parents = &self.groups[i].parents;
                        let ghost st0 = views(stack@);
                        let mut k = parents.len();
                        while k > 0
                            invariant
                                k <= parents@.len(),
                                i < gs.len(),
                                parents == &gs[i as int].parents,
                                gs == self.groups@,
                                views(stack@) == st0 + views(parents@).reverse().take(parents@.len() - k),
                            decreases k,
                        {
                            k = k - 1;
                            let ghost before_push = views(stack@);
                            stack.push(parents[k].clone());
                            proof {
                                let rv = views(parents@).reverse();
                                assert(views(stack@) =~= before_push.push(parents@[k as int]@));
                                assert(rv.take(parents@.len() - k) =~= rv.take(parents@.len() - k - 1).push(parents@[k as int]@));
                                assert(views(stack@) =~= st0 + rv.take(parents@.len() - k));
                            }
                        }
                        proof {
                            assert(views(parents@).reverse().take(parents@.len() as int) =~= views(parents@).reverse());
                            assert(views(stack@) == st0 + views(gs[i as int].parents@).reverse());
                        }
                    },
                }
            }
            proof {
                assert(parent_walk(gs, vis_start, st_start.push(n@)) == parent_walk(gs, views(visited@), views(stack@)));
            }
        }
        visited
    }

    /// Whether `anc` is an ancestor of the group `g`.
    fn ancestor_of(&self, anc: &str, g: &String) -> (r: bool)
        ensures
            r == is_ancestor(self.groups@, anc@, g@),
    {
        let mut start: Vec<String> = Vec::new();
        start.push(g.clone());
        proof {
            assert(views(start@) =~= seq![g@]);
        }
        let seen = self.walk_parents(start);
        let ghost gs = self.groups@;
        let mut k: usize = 0;
        while k < seen.len()
            invariant
                k <= seen@.len(),
                gs == self.groups@,
                views(seen@) == parent_walk(gs, Seq::empty(), seq![g@]),
                forall|x: int|
                    0 <= x < k ==> !(#[trigger] group_index(gs, views(seen@)[x]) is Some && views(
                        gs[group_index(gs, views(seen@)[x]).unwrap()].parents@,
                    ).contains(anc@)),
            decreases seen@.len() - k,
        {
            match find_group(&self.groups, seen[k].as_str()) {
                Some(i) => {
                    if contains_name(self.groups[i].parents.as_slice(), anc) {
                        proof {
                            assert(views(seen@)[k as int] == seen@[k as int]@);
                            let sw = parent_walk(gs, Seq::empty(), seq![g@]);
                            assert(sw == views(seen@));
                            assert(group_index(gs, sw[k as int]) is Some && views(
                                gs[group_index(gs, sw[k as int]).unwrap()].parents@,
                            ).contains(anc@));
                        }
                        return true;
                    }
                },
                None => {},
            }
            proof {
                assert(views(seen@)[k as int] == seen@[k as int]@);
            }
            k = k + 1;
        }
        false
    }

    /// The groups of the host that are not an ancestor of another of its groups.
    fn host_leaf_groups(&self, host: &Host) -> (r: Vec<String>)
        ensures
            views(r@) == leaf_groups(self.groups@, group_names(host.groups@)),
    {
        let ghost hg = group_names(host.groups@);
        let ghost pred = |g: Seq<char>| !exists|k: int| 0 <= k < hg.len() && hg[k] != g && #[trigger] is_ancestor(self.groups@, g, hg[k]);
        let mut out: Vec<String> = Vec::new();
        let mut i: usize = 0;
        proof {
            assert(hg.take(0).filter(pred) =~= Seq::<Seq<char>>::empty());
        }
        while i < host.groups.len()
            invariant
                i <= host.groups@.len(),
                hg == group_names(host.groups@),
                pred == (|g: Seq<char>| !exists|k: int| 0 <= k < hg.len() && hg[k] != g && #[trigger] is_ancestor(self.groups@, g, hg[k])),
                views(out@) == hg.take(i as int).filter(pred),
            decreases host.groups@.len() - i,
        {
            let g = &host.groups[i];
            let mut leaf = true;
            let mut j: usize = 0;
            while j < host.groups.len()
                invariant
                    j <= host.groups@.len(),
                    i < host.groups@.len(),
                    g == &host.groups@[i as int],
                    hg == group_names(host.groups@),
                    leaf == !exists|k: int| 0 <= k < j && hg[k] != g@ && #[trigger] is_ancestor(self.groups@, g@, hg[k]),
                decreases host.groups@.len() - j,
            {
                if leaf && !crate::text::str_equal(host.groups[j].as_str(), g.as_str()) {
                    if self.ancestor_of(g.as_str(), &host.groups[j]) {
                        leaf = false;
                        proof {
                            assert(hg[j as int] == host.groups@[j as int]@);
                        }
                    }
                }
                proof {
                    assert(hg[j as int] == host.groups@[j as int]@);
                    if leaf {
                        assert(!exists|k: int| 0 <= k < j + 1 && hg[k] != g@ && #[trigger] is_ancestor(self.groups@, g@, hg[k])) by {
                            if exists|k: int| 0 <= k < j + 1 && hg[k] != g@ && #[trigger] is_ancestor(self.groups@, g@, hg[k]) {
                                let k = choose|k: int| 0 <= k < j + 1 && hg[k] != g@ && #[trigger] is_ancestor(self.groups@, g@, hg[k]);
                                assert(k == j);
                            }
                        }
                    }
                }
                j = j + 1;
            }
            let ghost before = views(out@);
            if leaf {
                out.push(g.clone());
            }
            proof {
                assert(hg[i as int] == g@);
                assert(hg.take(i + 1).drop_last() =~= hg.take(i as int));
                assert(pred(g@) == leaf);
                assert(hg.take(i + 1) =~= hg.take(i as int).push(hg[i as int]));
                hg.take(i as int).lemma_filter_push(hg[i as int], pred);
                assert(views(out@) =~= hg.take(i + 1).filter(pred));
            }
            i = i + 1;
        }
        proof {
            assert(hg.take(host.groups@.len() as int) =~= hg);
        }
        out
    }

    /// The groups a host inherits variables from, most specific first: from
    /// each of its groups that is not an ancestor of another of its groups, the
    /// walk up the parent links.
    pub fn get_host_group_hierarchy(&self, host: &Host) -> (r: GroupHierarchy)
        ensures
            hierarchy_names(r) == host_hierarchy(self.groups_view(), group_names(host.groups@)),
    {
        let leaves = self.host_leaf_groups(host);
        let mut stack: Vec<String> = Vec::new();
        let mut k = leaves.len();
        while k > 0
            invariant
                k <= leaves@.len(),
                views(stack@) == views(leaves@).reverse().take(leaves@.len() - k),
            decreases k,
        {
            k = k - 1;
            stack.push(leaves[k].clone());
            proof {
                let rv = views(leaves@).reverse();
                assert(rv.take(leaves@.len() - k) =~= rv.take(leaves@.len() - k - 1).push(leaves@[k as int]@));
                assert(views(stack@) =~= rv.take(leaves@.len() - k));
            }
        }
        proof {
            assert(views(leaves@).reverse().take(leaves@.len() as int) =~= views(leaves@).reverse());
        }
        let names = self.walk_parents(stack);
        GroupHierarchy { groups: names }
    }
}

} // verus!

verus! {

use crate::assoc::{merged, read_after_insert};

/// The value of the last entry with key `k`.
pub open spec fn last_lookup(m: Seq<(Seq<char>, VarValue)>, k: Seq<char>) -> Option<VarValue>
    decreases m.len(),
{
    if m.len() == 0 {
        None
    } else if m.last().0 == k {
        Some(m.last().1)
    } else {
        last_lookup(m.drop_last(), k)
    }
}

/// The variables the groups `names` give, the first name applied last so
/// that it wins: the order of a hierarchy, most specific first.
pub open spec fn inherited_vars(gs: Seq<Group>, names: Seq<Seq<char>>) -> Seq<(Seq<char>, VarValue)>
    decreases names.len(),
{
    if names.len() == 0 {
        Seq::empty()
    } else {
        let base = inherited_vars(gs, names.drop_first());
        match group_index(gs, names[0]) {
            Some(i) => merged(base, entries(gs[i].vars@)),
            None => base,
        }
    }
}

/// The variables of a host: those of its hierarchy, then its own.
pub open spec fn host_vars_of(gs: Seq<Group>, names: Seq<Seq<char>>, own: Seq<(Seq<char>, VarValue)>) -> Seq<(Seq<char>, VarValue)> {
    merged(inherited_vars(gs, names), own)
}

/// The value a hierarchy gives a key: that of the first group in it that
/// sets the key.
pub open spec fn hierarchy_lookup(gs: Seq<Group>, names: Seq<Seq<char>>, k: Seq<char>) -> Option<VarValue>
    decreases names.len(),
{
    if names.len() == 0 {
        None
    } else {
        let here = match group_index(gs, names[0]) {
            Some(i) => last_lookup(entries(gs[i].vars@), k),
            None => None,
        };
        match here {
            Some(v) => Some(v),
            None => hierarchy_lookup(gs, names.drop_first(), k),
        }
    }
}

/// Merging entries in: the last entry of `o` for a key wins, else `m` keeps its value.
pub proof fn lemma_lookup_merged(m: Seq<(Seq<char>, VarValue)>, o: Seq<(Seq<char>, VarValue)>, k: Seq<char>)
    ensures
        lookup(merged(m, o), k) == match last_lookup(o, k) {
            Some(v) => Some(v),
            None => lookup(m, k),
        },
    decreases o.len(),
{
    if o.len() > 0 {
        lemma_lookup_merged(m, o.drop_last(), k);
        read_after_insert(merged(m, o.drop_last()), o.last().0, o.last().1, k);
    }
}

/// The variables of a host, with those of its more specific groups over
/// those of their ancestors, and its own over all: for every key, the
/// host's own value if it sets one, else the value of the first group of
/// its hierarchy that sets one.
pub proof fn law_host_vars_precedence(gs: Seq<Group>, names: Seq<Seq<char>>, own: Seq<(Seq<char>, VarValue)>, k: Seq<char>)
    ensures
        lookup(host_vars_of(gs, names, own), k) == match last_lookup(own, k) {
            Some(v) => Some(v),
            None => hierarchy_lookup(gs, names, k),
        },
{
    lemma_lookup_merged(inherited_vars(gs, names), own, k);
    lemma_inherited_lookup(gs, names, k);
}

proof fn lemma_inherited_lookup(gs: Seq<Group>, names: Seq<Seq<char>>, k: Seq<char>)
    ensures
        lookup(inherited_vars(gs, names), k) == hierarchy_lookup(gs, names, k),
    decreases names.len(),
{
    if names.len() == 0 {
        assert(lookup(Seq::<(Seq<char>, VarValue)>::empty(), k) is None) by {
            crate::assoc::lemma_key_index_found(Seq::<(Seq<char>, VarValue)>::empty(), k);
        }
    } else {
        lemma_inherited_lookup(gs, names.drop_first(), k);
        match group_index(gs, names[0]) {
            Some(i) => {
                lemma_lookup_merged(inherited_vars(gs, names.drop_first()), entries(gs[i].vars@), k);
            },
            None => {},
        }
    }
}

/// Merges entries into `acc`, later ones winning.
fn merge_entries(acc: &mut Vec<(String, VarValue)>, other: &Vec<(String, VarValue)>)
    ensures
        entries(final(acc)@) == merged(entries(old(acc)@), entries(other@)),
{
    let mut i: usize = 0;
    while i < other.len()
        invariant
            i <= other@.len(),
            entries(acc@) == merged(entries(old(acc)@), entries(other@).take(i as int)),
        decreases other@.len() - i,
    {
        proof {
            assert(entries(other@).take(i + 1).drop_last() =~= entries(other@).take(i as int));
        }
        let key = other[i].0.clone();
        let value = other[i].1.duplicate();
        crate::assoc::insert(acc, key, value);
        i = i + 1;
    }
    proof {
        assert(entries(other@).take(other@.len() as int) =~= entries(other@));
    }
}

impl Inventory {
    /// The variables of a host: those of the groups of its hierarchy, the
    /// least specific first so that more specific ones override them, then
    /// its own.
    pub fn get_host_vars(&self, host: &Host) -> (r: Vec<(String, VarValue)>)
        ensures
            entries(r@) == host_vars_of(
                self.groups_view(),
                host_hierarchy(self.groups_view(), group_names(host.groups@)),
                entries(host.vars@),
            ),
    {
        let hierarchy = self.get_host_group_hierarchy(host);
        let names = &hierarchy.groups;
        let ghost hv = hierarchy_names(hierarchy);
        let mut vars: Vec<(String, VarValue)> = Vec::new();
        let mut k = names.len();
        proof {
            assert(hv.skip(hv.len() as int) =~= Seq::<Seq<char>>::empty());
            assert(entries(vars@) =~= Seq::<(Seq<char>, VarValue)>::empty());
        }
        while k > 0
            invariant
                k <= names@.len(),
                hv == names@.map_values(|g: String| g@),
                entries(vars@) == inherited_vars(self.groups@, hv.skip(k as int)),
            decreases k,
        {
            k = k - 1;
            proof {
                assert(hv.skip(k as int).drop_first() =~= hv.skip(k + 1));
                assert(hv.skip(k as int)[0] == names@[k as int]@);
            }
            match find_group(&self.groups, names[k].as_str()) {
                Some(i) => {
                    merge_entries(&mut vars, &self.groups[i].vars);
                },
                None => {},
            }
        }
        proof {
            assert(hv.skip(0) =~= hv);
        }
        merge_entries(&mut vars, &host.vars);
        vars
    }
}

} // verus!

verus! {

/// A walk up parent links visits no name twice, and keeps what was visited
/// before it, in front.
pub proof fn lemma_parent_walk_distinct(gs: Seq<Group>, visited: Seq<Seq<char>>, stack: Seq<Seq<char>>)
    requires
        visited.no_duplicates(),
    ensures
        parent_walk(gs, visited, stack).no_duplicates(),
        parent_walk(gs, visited, stack).take(visited.len() as int) == visited,
        parent_walk(gs, visited, stack).len() >= visited.len(),
    decreases unvisited_groups(gs, visited), stack.len(),
{
    if stack.len() > 0 {
        let n = stack.last();
        let rest = stack.drop_last();
        if visited.contains(n) {
            lemma_parent_walk_distinct(gs, visited, rest);
        } else {
            lemma_unvisited_push(gs, visited, n);
            let v2 = visited.push(n);
            assert(v2.no_duplicates()) by {
                assert forall|a: int, b: int| 0 <= a < b < v2.len() implies v2[a] != v2[b] by {
                    if b == visited.len() {
                        assert(v2[a] == visited[a]);
                    }
                }
            }
            match group_index(gs, n) {
                None => {
                    lemma_parent_walk_distinct(gs, v2, rest);
                },
                Some(i) => {
                    lemma_parent_walk_distinct(gs, v2, rest + views(gs[i].parents@).reverse());
                },
            }
            let r = parent_walk(gs, visited, stack);
            assert(r.take(v2.len() as int) == v2);
            assert(r.take(visited.len() as int) =~= v2.take(visited.len() as int));
            assert(v2.take(visited.len() as int) =~= visited);
        }
    } else {
        assert(visited.take(visited.len() as int) =~= visited);
    }
}

/// A host's hierarchy names each group once.
pub proof fn law_hierarchy_distinct(gs: Seq<Group>, hg: Seq<Seq<char>>)
    ensures
        host_hierarchy(gs, hg).no_duplicates(),
{
    lemma_parent_walk_distinct(gs, Seq::empty(), leaf_groups(gs, hg).reverse());
}

} // verus!
