//! The group graph of an inventory: which groups a group leads to through its
//! children, and whether any group leads back to itself.
use vstd::prelude::*;
use super::group::Group;
use crate::text::views;

verus! {

broadcast use vstd::seq_lib::group_seq_properties;

/// The position of the first group named `name`.
pub open spec fn group_index(gs: Seq<Group>, name: Seq<char>) -> Option<int>
    decreases gs.len(),
{
    if gs.len() == 0 {
        None
    } else {
        match group_index(gs.drop_last(), name) {
            Some(i) => Some(i),
            None => if gs.last().name@ == name { Some(gs.len() - 1) } else { None },
        }
    }
}

/// Group `j` is a child of group `i`: `i` names it among its children, and it
/// is the group that name finds.
pub open spec fn child_edge(gs: Seq<Group>, i: int, j: int) -> bool {
    &&& 0 <= i < gs.len()
    &&& 0 <= j < gs.len()
    &&& views(gs[i].children@).contains(gs[j].name@)
    &&& group_index(gs, gs[j].name@) == Some(j)
}

/// A walk along child edges.
pub open spec fn is_walk(gs: Seq<Group>, p: Seq<int>) -> bool {
    &&& p.len() >= 1
    &&& forall|k: int| 0 <= k < p.len() - 1 ==> #[trigger] child_edge(gs, p[k], p[k + 1])
}

/// Group `j` can be reached from one of the `start` groups along child edges
/// (in no steps when it is a start group).
pub open spec fn reachable(gs: Seq<Group>, start: Seq<usize>, j: int) -> bool {
    exists|p: Seq<int>| #[trigger] is_walk(gs, p) && start.contains(p[0] as usize) && 0 <= p[0] < gs.len() && p.last() == j
}

/// The number of `false` entries.
pub open spec fn count_false(s: Seq<bool>) -> nat
    decreases s.len(),
{
    if s.len() == 0 {
        0
    } else {
        count_false(s.drop_last()) + if s.last() { 0nat } else { 1nat }
    }
}

proof fn lemma_count_false_set(s: Seq<bool>, j: int)
    requires
        0 <= j < s.len(),
        !s[j],
    ensures
        count_false(s.update(j, true)) + 1 == count_false(s),
    decreases s.len(),
{
    if j < s.len() - 1 {
        assert(s.update(j, true).drop_last() =~= s.drop_last().update(j, true));
        lemma_count_false_set(s.drop_last(), j);
    } else {
        assert(s.update(j, true).drop_last() =~= s.drop_last());
    }
}

/// Finds the first group named `name`.
pub fn find_group(groups: &Vec<Group>, name: &str) -> (r: Option<usize>)
    ensures
        match group_index(groups@, name@) {
            Some(i) => r is Some && r.unwrap() as int == i,
            None => r is None,
        },
        r is Some ==> r.unwrap() < groups@.len() && groups@[r.unwrap() as int].name@ == name@,
{
    let mut i: usize = 0;
    while i < groups.len()
        invariant
            i <= groups@.len(),
            forall|k: int| 0 <= k < i ==> groups@[k].name@ != name@,
        decreases groups@.len() - i,
    {
        if crate::text::str_equal(groups[i].name.as_str(), name) {
            proof {
                lemma_group_index(groups@, name@, i as int);
            }
            return Some(i);
        }
        i = i + 1;
    }
    proof {
        lemma_group_index(groups@, name@, groups@.len() as int);
    }
    None
}

proof fn lemma_group_index(gs: Seq<Group>, name: Seq<char>, i: int)
    requires
        0 <= i <= gs.len(),
        forall|k: int| 0 <= k < i ==> gs[k].name@ != name,
        i < gs.len() ==> gs[i].name@ == name,
    ensures
        group_index(gs, name) == (if i < gs.len() { Some(i) } else { None::<int> }),
    decreases gs.len(),
{
    if gs.len() > 0 {
        if i < gs.len() - 1 {
            lemma_group_index(gs.drop_last(), name, i);
        } else {
            lemma_group_index(gs.drop_last(), name, gs.len() - 1);
        }
    }
}

/// The groups reachable from the `start` groups along child edges, as one
/// flag per group.
pub fn reachable_groups(groups: &Vec<Group>, start: &Vec<usize>) -> (r: Vec<bool>)
    requires
        forall|k: int| 0 <= k < start@.len() ==> start@[k] < groups@.len(),
    ensures
        r@.len() == groups@.len(),
        forall|j: int| 0 <= j < groups@.len() ==> r@[j] == reachable(groups@, start@, j),
{
    let n = groups.len();
    let ghost gs = groups@;
    let mut marked: Vec<bool> = Vec::new();
    let mut i: usize = 0;
    while i < n
        invariant
            i <= n == gs.len(),
            marked@.len() == i,
            forall|k: int| 0 <= k < i ==> !marked@[k],
        decreases n - i,
    {
        marked.push(false);
        i = i + 1;
    }
    let mut pending: Vec<usize> = Vec::new();
    let mut s: usize = 0;
    while s < start.len()
        invariant
            n == gs.len() == groups@.len(),
            gs == groups@,
            marked@.len() == n,
            s <= start@.len(),
            forall|k: int| 0 <= k < start@.len() ==> start@[k] < n,
            forall|j: int| 0 <= j < n && #[trigger] marked@[j] ==> reachable(gs, start@, j),
            forall|k: int| 0 <= k < s ==> marked@[start@[k] as int],
            forall|k: int| 0 <= k < pending@.len() ==> (#[trigger] pending@[k]) < n && marked@[pending@[k] as int],
            forall|j: int| 0 <= j < n && marked@[j] ==> #[trigger] pending@.contains(j as usize),
            pending@.no_duplicates(),
        decreases start@.len() - s,
    {
        let j = start[s];
        if !marked[j] {
            proof {
                let p = seq![j as int];
                assert(is_walk(gs, p));
                assert(start@.contains(p[0] as usize));
            }
            marked.set(j, true);
            pending.push(j);
        }
        s = s + 1;
    }
    while pending.len() > 0
        invariant
            n == gs.len() == groups@.len(),
            gs == groups@,
            marked@.len() == n,
            forall|k: int| 0 <= k < start@.len() ==> start@[k] < n,
            forall|k: int| 0 <= k < start@.len() ==> marked@[start@[k] as int],
            forall|j: int| 0 <= j < n && #[trigger] marked@[j] ==> reachable(gs, start@, j),
            forall|k: int| 0 <= k < pending@.len() ==> (#[trigger] pending@[k]) < n && marked@[pending@[k] as int],
            pending@.no_duplicates(),
            forall|a: int, b: int|
                #![trigger child_edge(gs, a, b)]
                child_edge(gs, a, b) && marked@[a] && !pending@.contains(a as usize) ==> marked@[b],
        decreases count_false(marked@), pending@.len(),
    {
        let i = pending.pop().unwrap();
        let ghost popped = i;
        let ghost before_pop = pending@.push(i);
        proof {
            assert(!pending@.contains(i)) by {
                if pending@.contains(i) {
                    let k = choose|k: int| 0 <= k < pending@.len() && pending@[k] == i;
                    assert(before_pop[k] == before_pop[before_pop.len() - 1]);
                }
            }
        }
        let children = &groups[i].children;
        let ghost count0 = count_false(marked@);
        let ghost pend0 = pending@.len();
        let mut c: usize = 0;
        while c < children.len()
            invariant
                n == gs.len() == groups@.len(),
                gs == groups@,
                i < n,
                marked@[i as int],
                !pending@.contains(i),
                children == &groups@[i as int].children,
                c <= children@.len(),
                marked@.len() == n,
                forall|k: int| 0 <= k < start@.len() ==> start@[k] < n,
                forall|k: int| 0 <= k < start@.len() ==> marked@[start@[k] as int],
                forall|j: int| 0 <= j < n && #[trigger] marked@[j] ==> reachable(gs, start@, j),
                forall|k: int| 0 <= k < pending@.len() ==> (#[trigger] pending@[k]) < n && marked@[pending@[k] as int],
                pending@.no_duplicates(),
                forall|a: int, b: int|
                    #![trigger child_edge(gs, a, b)]
                    child_edge(gs, a, b) && marked@[a] && !pending@.contains(a as usize) && a != i ==> marked@[b],
                forall|b: int|
                    0 <= b < n && child_edge(gs, i as int, b) && views(children@.take(c as int)).contains(gs[b].name@)
                        ==> #[trigger] marked@[b],
                count_false(marked@) <= count0,
                count_false(marked@) == count0 ==> pending@.len() == pend0,
            decreases children@.len() - c,
        {
            match find_group(groups, children[c].as_str()) {
                Some(j) => {
                    if !marked[j] {
                        proof {
                            let w = choose|p: Seq<int>| #[trigger] is_walk(gs, p) && start@.contains(p[0] as usize) && 0 <= p[0] < gs.len() && p.last() == i as int;
                            assert(views(gs[i as int].children@)[c as int] == gs[j as int].name@);
                            assert(child_edge(gs, i as int, j as int));
                            let w2 = w.push(j as int);
                            assert forall|k: int| 0 <= k < w2.len() - 1 implies #[trigger] child_edge(gs, w2[k], w2[k + 1]) by {
                                if k < w.len() - 1 {
                                    assert(w2[k] == w[k] && w2[k + 1] == w[k + 1]);
                                }
                            }
                            assert(is_walk(gs, w2));
                            lemma_count_false_set(marked@, j as int);
                        }
                        marked.set(j, true);
                        pending.push(j);
                    }
                },
                None => {},
            }
            proof {
                assert(views(children@.take(c + 1)) =~= views(children@.take(c as int)).push(children@[c as int]@));
            }
            c = c + 1;
        }
        proof {
            assert(children@.take(children@.len() as int) =~= children@);
        }
    }
    proof {
        assert forall|a: int, b: int| #![trigger child_edge(gs, a, b)] child_edge(gs, a, b) && marked@[a] implies marked@[b] by {
            assert(!pending@.contains(a as usize));
        }
        assert forall|j: int| 0 <= j < n implies marked@[j] == reachable(gs, start@, j) by {
            if reachable(gs, start@, j) {
                let p = choose|p: Seq<int>| #[trigger] is_walk(gs, p) && start@.contains(p[0] as usize) && 0 <= p[0] < gs.len() && p.last() == j;
                lemma_walk_marked(gs, start@, marked@, p);
            }
        }
    }
    marked
}

/// Marks closed under child edges that cover the start groups cover every
/// group a walk from a start group reaches.
proof fn lemma_walk_marked(gs: Seq<Group>, start: Seq<usize>, marked: Seq<bool>, p: Seq<int>)
    requires
        is_walk(gs, p),
        start.contains(p[0] as usize),
        0 <= p[0] < gs.len(),
        gs.len() <= usize::MAX,
        marked.len() == gs.len(),
        forall|k: int| 0 <= k < start.len() ==> marked[start[k] as int],
        forall|a: int, b: int| #![trigger child_edge(gs, a, b)] child_edge(gs, a, b) && marked[a] ==> marked[b],
    ensures
        marked[p.last()],
    decreases p.len(),
{
    if p.len() == 1 {
        let k = choose|k: int| 0 <= k < start.len() && start[k] == p[0] as usize;
        assert(start[k] as int == p[0]);
        assert(marked[start[k] as int]);
        assert(p.last() == p[0]);
    } else {
        let q = p.drop_last();
        assert forall|k: int| 0 <= k < q.len() - 1 implies #[trigger] child_edge(gs, q[k], q[k + 1]) by {
            assert(child_edge(gs, p[k], p[k + 1]));
        }
        lemma_walk_marked(gs, start, marked, q);
        let k = p.len() - 2;
        assert(child_edge(gs, p[k], p[k + 1]));
        assert(q.last() == p[k]);
        assert(marked[p[k + 1]]);
        assert(p.last() == p[k + 1]);
    }
}

} // verus!

verus! {

/// Group `i` lies on a cycle of child edges.
pub open spec fn on_cycle(gs: Seq<Group>, i: int) -> bool {
    exists|p: Seq<int>| #[trigger] is_walk(gs, p) && p.len() >= 2 && p[0] == i && p.last() == i
}

/// Some group lies on a cycle of child edges.
pub open spec fn has_cycle(gs: Seq<Group>) -> bool {
    exists|i: int| 0 <= i < gs.len() && #[trigger] on_cycle(gs, i)
}

/// The groups that a group's children name.
fn child_indices(groups: &Vec<Group>, i: usize) -> (r: Vec<usize>)
    requires
        i < groups@.len(),
    ensures
        forall|k: int| 0 <= k < r@.len() ==> r@[k] < groups@.len(),
        forall|j: int| 0 <= j < groups@.len() ==> (r@.contains(j as usize) <==> child_edge(groups@, i as int, j)),
{
    let children = &groups[i].children;
    let n = groups.len();
    let mut r: Vec<usize> = Vec::new();
    let mut c: usize = 0;
    while c < children.len()
        invariant
            i < groups@.len(),
            n == groups@.len(),
            children == &groups@[i as int].children,
            c <= children@.len(),
            forall|k: int| 0 <= k < r@.len() ==> r@[k] < groups@.len(),
            forall|j: int|
                0 <= j < groups@.len() ==> (r@.contains(j as usize) <==> (views(children@.take(c as int)).contains(
                    groups@[j].name@,
                ) && group_index(groups@, groups@[j].name@) == Some(j))),
        decreases children@.len() - c,
    {
        let ghost before = r@;
        let ghost seen = views(children@.take(c as int));
        proof {
            assert(views(children@.take(c + 1)) =~= seen.push(children@[c as int]@));
        }
        match find_group(groups, children[c].as_str()) {
            Some(j) => {
                r.push(j);
                proof {
                    assert forall|x: int| 0 <= x < groups@.len() implies (r@.contains(x as usize) <==> (views(
                        children@.take(c + 1),
                    ).contains(groups@[x].name@) && group_index(groups@, groups@[x].name@) == Some(x))) by {
                        if r@.contains(x as usize) && !before.contains(x as usize) {
                            assert(x as usize == j);
                            assert(x == j as int);
                            assert(views(children@.take(c + 1))[c as int] == children@[c as int]@);
                            assert(views(children@.take(c + 1))[c as int] == groups@[x].name@);
                        }
                        if views(children@.take(c + 1)).contains(groups@[x].name@) && group_index(groups@, groups@[x].name@)
                            == Some(x) && !seen.contains(groups@[x].name@) {
                            assert(r@[r@.len() - 1] == j);
                        }
                    }
                }
            },
            None => {
                proof {
                    assert forall|x: int| 0 <= x < groups@.len() implies (r@.contains(x as usize) <==> (views(
                        children@.take(c + 1),
                    ).contains(groups@[x].name@) && group_index(groups@, groups@[x].name@) == Some(x))) by {
                        if views(children@.take(c + 1)).contains(groups@[x].name@) && group_index(groups@, groups@[x].name@)
                            == Some(x) && !seen.contains(groups@[x].name@) {
                            assert(groups@[x].name@ == children@[c as int]@);
                        }
                    }
                }
            },
        }
        c = c + 1;
    }
    proof {
        assert(children@.take(children@.len() as int) =~= children@);
    }
    r
}

/// A group reaches itself through its children exactly when it lies on a cycle.
proof fn lemma_cycle_through_children(gs: Seq<Group>, start: Seq<usize>, i: int)
    requires
        0 <= i < gs.len(),
        gs.len() <= usize::MAX,
        forall|k: int| 0 <= k < start.len() ==> start[k] < gs.len(),
        forall|j: int| 0 <= j < gs.len() ==> (start.contains(j as usize) <==> child_edge(gs, i, j)),
    ensures
        reachable(gs, start, i) == on_cycle(gs, i),
{
    if reachable(gs, start, i) {
        let p = choose|p: Seq<int>| #[trigger] is_walk(gs, p) && start.contains(p[0] as usize) && 0 <= p[0] < gs.len() && p.last() == i;
        let k = choose|k: int| 0 <= k < start.len() && start[k] == p[0] as usize;
        assert(start[k] as int == p[0]);
        assert(start.contains(p[0] as usize));
        assert(child_edge(gs, i, p[0]));
        let q = seq![i] + p;
        assert forall|m: int| 0 <= m < q.len() - 1 implies #[trigger] child_edge(gs, q[m], q[m + 1]) by {
            if m > 0 {
                assert(q[m] == p[m - 1] && q[m + 1] == p[m]);
                assert(child_edge(gs, p[m - 1], p[(m - 1) + 1]));
            }
        }
        assert(is_walk(gs, q));
        assert(q.last() == i);
    }
    if on_cycle(gs, i) {
        let p = choose|p: Seq<int>| #[trigger] is_walk(gs, p) && p.len() >= 2 && p[0] == i && p.last() == i;
        assert(child_edge(gs, p[0int], p[0int + 1]));
        let q = p.drop_first();
        assert forall|m: int| 0 <= m < q.len() - 1 implies #[trigger] child_edge(gs, q[m], q[m + 1]) by {
            assert(child_edge(gs, p[m + 1], p[(m + 1) + 1]));
        }
        assert(is_walk(gs, q));
        assert(start.contains(q[0] as usize));
        assert(q.last() == i);
    }
}

/// Finds a group that lies on a cycle of child edges, if any.
pub fn find_cycle(groups: &Vec<Group>) -> (r: Option<usize>)
    ensures
        match r {
            Some(i) => i < groups@.len() && on_cycle(groups@, i as int),
            None => !has_cycle(groups@),
        },
{
    let mut i: usize = 0;
    while i < groups.len()
        invariant
            i <= groups@.len(),
            forall|k: int| 0 <= k < i ==> !on_cycle(groups@, k),
        decreases groups@.len() - i,
    {
        let start = child_indices(groups, i);
        let reach = reachable_groups(groups, &start);
        proof {
            lemma_cycle_through_children(groups@, start@, i as int);
        }
        if reach[i] {
            return Some(i);
        }
        i = i + 1;
    }
    None
}

} // verus!

verus! {

/// Two lists of groups that differ at most in their parents.
pub open spec fn same_but_parents(a: Seq<Group>, b: Seq<Group>) -> bool {
    &&& a.len() == b.len()
    &&& forall|k: int|
        0 <= k < a.len() ==> (#[trigger] a[k]).name == b[k].name && a[k].hosts == b[k].hosts && a[k].children
            == b[k].children && a[k].vars == b[k].vars && a[k].priority == b[k].priority
}

/// The names of the groups that have group `j` as a child.
pub open spec fn parent_names(gs: Seq<Group>, j: int) -> Set<Seq<char>> {
    Set::new(|n: Seq<char>| exists|q: int| 0 <= q < gs.len() && #[trigger] child_edge(gs, q, j) && n == gs[q].name@)
}

/// The parents of every group are the groups that have it as a child.
pub open spec fn parents_computed(gs: Seq<Group>) -> bool {
    forall|j: int| 0 <= j < gs.len() ==> views((#[trigger] gs[j]).parents@).to_set() == parent_names(gs, j)
}

proof fn lemma_group_index_names(a: Seq<Group>, b: Seq<Group>, name: Seq<char>)
    requires
        same_but_parents(a, b),
    ensures
        group_index(a, name) == group_index(b, name),
    decreases a.len(),
{
    if a.len() > 0 {
        assert(same_but_parents(a.drop_last(), b.drop_last())) by {
            assert forall|k: int| 0 <= k < a.len() - 1 implies (#[trigger] a.drop_last()[k]).name == b.drop_last()[k].name
                && a.drop_last()[k].hosts == b.drop_last()[k].hosts && a.drop_last()[k].children == b.drop_last()[k].children
                && a.drop_last()[k].vars == b.drop_last()[k].vars && a.drop_last()[k].priority == b.drop_last()[k].priority by {
                assert(a[k].name == b[k].name);
            }
        }
        lemma_group_index_names(a.drop_last(), b.drop_last(), name);
        assert(a.last().name == b.last().name);
    }
}

proof fn lemma_child_edge_names(a: Seq<Group>, b: Seq<Group>, i: int, j: int)
    requires
        same_but_parents(a, b),
    ensures
        child_edge(a, i, j) == child_edge(b, i, j),
{
    if 0 <= i < a.len() && 0 <= j < a.len() {
        lemma_group_index_names(a, b, a[j].name@);
        assert(a[i].children == b[i].children);
        assert(a[j].name == b[j].name);
    }
}

/// Recomputes the parents of every group from the children of the others.
pub fn compute_group_parents(groups: &mut Vec<Group>)
    ensures
        same_but_parents(final(groups)@, old(groups)@),
        parents_computed(final(groups)@),
{
    let ghost g0 = groups@;
    let n = groups.len();
    let mut j: usize = 0;
    while j < n
        invariant
            n == groups@.len(),
            j <= n,
            same_but_parents(groups@, g0),
            forall|k: int| 0 <= k < j ==> (#[trigger] groups@[k]).parents@.len() == 0,
        decreases n - j,
    {
        groups[j].parents = Vec::new();
        j = j + 1;
    }
    let mut p: usize = 0;
    while p < n
        invariant
            n == groups@.len(),
            p <= n,
            same_but_parents(groups@, g0),
            forall|k: int|
                0 <= k < n ==> views((#[trigger] groups@[k]).parents@).to_set() == Set::new(
                    |nm: Seq<char>| exists|q: int| 0 <= q < p && #[trigger] child_edge(g0, q, k) && nm == g0[q].name@,
                ),
        decreases n - p,
    {
        let pname = groups[p].name.clone();
        let nc = groups[p].children.len();
        let mut c: usize = 0;
        while c < nc
            invariant
                n == groups@.len(),
                p < n,
                c <= nc == g0[p as int].children@.len(),
                pname@ == g0[p as int].name@,
                same_but_parents(groups@, g0),
                forall|k: int|
                    0 <= k < n ==> views((#[trigger] groups@[k]).parents@).to_set() == Set::new(
                        |nm: Seq<char>|
                            exists|q: int|
                                0 <= q < p && #[trigger] child_edge(g0, q, k) && nm == g0[q].name@,
                    ).union(
                        if views(g0[p as int].children@.take(c as int)).contains(g0[k].name@) && group_index(
                            g0,
                            g0[k].name@,
                        ) == Some(k) {
                            set![g0[p as int].name@]
                        } else {
                            Set::empty()
                        },
                    ),
            decreases nc - c,
        {
            let child = groups[p].children[c].clone();
            proof {
                lemma_group_index_names(groups@, g0, child@);
            }
            let ghost before = groups@;
            match find_group(groups, child.as_str()) {
                Some(j) => {
                    groups[j].add_parent(pname.as_str());
                },
                None => {},
            }
            proof {
                assert(views(g0[p as int].children@.take(c + 1)) =~= views(g0[p as int].children@.take(c as int)).push(child@));
                assert(same_but_parents(groups@, g0)) by {
                    assert forall|k: int| 0 <= k < groups@.len() implies (#[trigger] groups@[k]).name == g0[k].name
                        && groups@[k].hosts == g0[k].hosts && groups@[k].children == g0[k].children && groups@[k].vars
                        == g0[k].vars && groups@[k].priority == g0[k].priority by {
                        assert(before[k].name == g0[k].name);
                    }
                }
                assert forall|k: int| 0 <= k < n implies views((#[trigger] groups@[k]).parents@).to_set() == Set::new(
                    |nm: Seq<char>| exists|q: int| 0 <= q < p && #[trigger] child_edge(g0, q, k) && nm == g0[q].name@,
                ).union(
                    if views(g0[p as int].children@.take(c + 1)).contains(g0[k].name@) && group_index(g0, g0[k].name@)
                        == Some(k) {
                        set![g0[p as int].name@]
                    } else {
                        Set::empty()
                    },
                ) by {
                    assert(views(before[k].parents@).to_set() == Set::new(
                        |nm: Seq<char>| exists|q: int| 0 <= q < p && #[trigger] child_edge(g0, q, k) && nm == g0[q].name@,
                    ).union(
                        if views(g0[p as int].children@.take(c as int)).contains(g0[k].name@) && group_index(
                            g0,
                            g0[k].name@,
                        ) == Some(k) {
                            set![g0[p as int].name@]
                        } else {
                            Set::empty()
                        },
                    ));
                    let tk = group_index(g0, g0[k].name@) == Some(k) && child@ == g0[k].name@;
                    if tk {
                        assert(groups@[k].parents@ == groups@[k].parents@);
                        assert(views(groups@[k].parents@).to_set() =~= views(before[k].parents@).to_set().insert(
                            g0[p as int].name@,
                        ));
                    } else {
                        assert(groups@[k].parents == before[k].parents);
                    }
                    assert(views(groups@[k].parents@).to_set() =~= Set::new(
                        |nm: Seq<char>| exists|q: int| 0 <= q < p && #[trigger] child_edge(g0, q, k) && nm == g0[q].name@,
                    ).union(
                        if views(g0[p as int].children@.take(c + 1)).contains(g0[k].name@) && group_index(
                            g0,
                            g0[k].name@,
                        ) == Some(k) {
                            set![g0[p as int].name@]
                        } else {
                            Set::empty()
                        },
                    ));
                }
            }
            c = c + 1;
        }
        proof {
            assert(g0[p as int].children@.take(nc as int) =~= g0[p as int].children@);
            assert forall|k: int| 0 <= k < n implies views((#[trigger] groups@[k]).parents@).to_set() == Set::new(
                |nm: Seq<char>| exists|q: int| 0 <= q < p + 1 && #[trigger] child_edge(g0, q, k) && nm == g0[q].name@,
            ) by {
                let lo = Set::new(
                    |nm: Seq<char>| exists|q: int| 0 <= q < p && #[trigger] child_edge(g0, q, k) && nm == g0[q].name@,
                );
                let hi = Set::new(
                    |nm: Seq<char>| exists|q: int| 0 <= q < p + 1 && #[trigger] child_edge(g0, q, k) && nm == g0[q].name@,
                );
                let cond = views(g0[p as int].children@).contains(g0[k].name@) && group_index(g0, g0[k].name@) == Some(k);
                assert(cond == child_edge(g0, p as int, k));
                let extra = if cond {
                    set![g0[p as int].name@]
                } else {
                    Set::<Seq<char>>::empty()
                };
                assert forall|nm: Seq<char>| hi.contains(nm) <==> lo.union(extra).contains(nm) by {
                    if hi.contains(nm) {
                        let q = choose|q: int| 0 <= q < p + 1 && #[trigger] child_edge(g0, q, k) && nm == g0[q].name@;
                        if q < p {
                            assert(lo.contains(nm));
                        } else {
                            assert(extra.contains(nm));
                        }
                    }
                    if lo.contains(nm) {
                        let q = choose|q: int| 0 <= q < p && #[trigger] child_edge(g0, q, k) && nm == g0[q].name@;
                        assert(hi.contains(nm));
                    }
                    if extra.contains(nm) {
                        assert(child_edge(g0, p as int, k) && nm == g0[p as int].name@);
                        assert(hi.contains(nm));
                    }
                }
                assert(hi =~= lo.union(extra));
            }
        }
        p = p + 1;
    }
    proof {
        assert forall|k: int| 0 <= k < n implies views((#[trigger] groups@[k]).parents@).to_set() == parent_names(groups@, k) by {
            assert forall|q: int| 0 <= q < n implies child_edge(g0, q, k) == child_edge(groups@, q, k) by {
                lemma_child_edge_names(groups@, g0, q, k);
            }
            let a = parent_names(groups@, k);
            let b = Set::new(
                |nm: Seq<char>| exists|q: int| 0 <= q < n && #[trigger] child_edge(g0, q, k) && nm == g0[q].name@,
            );
            assert forall|nm: Seq<char>| a.contains(nm) <==> b.contains(nm) by {
                if a.contains(nm) {
                    let q = choose|q: int| 0 <= q < groups@.len() && #[trigger] child_edge(groups@, q, k) && nm == groups@[q].name@;
                    assert(child_edge(g0, q, k));
                    assert(groups@[q].name == g0[q].name);
                }
                if b.contains(nm) {
                    let q = choose|q: int| 0 <= q < n && #[trigger] child_edge(g0, q, k) && nm == g0[q].name@;
                    assert(child_edge(groups@, q, k));
                    assert(groups@[q].name == g0[q].name);
                }
            }
            assert(a =~= b);
        }
    }
}


/// No two groups share a name.
pub open spec fn names_unique(gs: Seq<Group>) -> bool {
    forall|a: int, b: int| 0 <= a < b < gs.len() ==> (#[trigger] gs[a]).name@ != (#[trigger] gs[b]).name@
}

/// What looking a name up finds: the first group with that name, or none.
pub proof fn lemma_group_index_found(gs: Seq<Group>, name: Seq<char>)
    ensures
        match group_index(gs, name) {
            Some(i) => 0 <= i < gs.len() && gs[i].name@ == name,
            None => forall|k: int| 0 <= k < gs.len() ==> (#[trigger] gs[k]).name@ != name,
        },
    decreases gs.len(),
{
    if gs.len() > 0 {
        lemma_group_index_found(gs.drop_last(), name);
        assert forall|k: int| 0 <= k < gs.len() - 1 implies gs.drop_last()[k] == gs[k] by {}
    }
}

/// Groups that differ only in their parents have unique names together.
pub proof fn lemma_same_but_parents_unique(a: Seq<Group>, b: Seq<Group>)
    requires
        same_but_parents(a, b),
        names_unique(b),
    ensures
        names_unique(a),
{
    assert forall|x: int, y: int| 0 <= x < y < a.len() implies (#[trigger] a[x]).name@ != (#[trigger] a[y]).name@ by {
        assert(a[x].name == b[x].name && a[y].name == b[y].name);
        assert(b[x].name@ != b[y].name@);
    }
}

/// Parents and children agree by name: when group names are unique and the
/// parents are computed, the group named `c` lists `p` among its parents
/// exactly when the group named `p` lists `c` among its children.
pub proof fn law_parent_child_by_name(gs: Seq<Group>, p: Seq<char>, c: Seq<char>)
    requires
        parents_computed(gs),
        names_unique(gs),
        group_index(gs, p) is Some,
        group_index(gs, c) is Some,
    ensures
        views(gs[group_index(gs, c)->Some_0].parents@).contains(p) <==> views(
            gs[group_index(gs, p)->Some_0].children@,
        ).contains(c),
{
    lemma_group_index_found(gs, p);
    lemma_group_index_found(gs, c);
    let i = group_index(gs, p)->Some_0;
    let j = group_index(gs, c)->Some_0;
    assert(views(gs[j].parents@).to_set() == parent_names(gs, j));
    if views(gs[j].parents@).contains(p) {
        assert(views(gs[j].parents@).to_set().contains(p));
        assert(parent_names(gs, j).contains(p));
        let q = choose|q: int| 0 <= q < gs.len() && #[trigger] child_edge(gs, q, j) && p == gs[q].name@;
        if q != i {
            if q < i {
                assert(gs[q].name@ != gs[i].name@);
            } else {
                assert(gs[i].name@ != gs[q].name@);
            }
        }
        assert(child_edge(gs, i, j));
    }
    if views(gs[i].children@).contains(c) {
        assert(child_edge(gs, i, j));
        assert(parent_names(gs, j).contains(p));
        assert(views(gs[j].parents@).to_set().contains(p));
    }
}
} // verus!
