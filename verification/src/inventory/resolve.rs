//! Resolving host patterns against an inventory, as `select` states it.
use vstd::prelude::*;
use super::graph::{self, find_group, group_index};
use super::group::Group;
use super::host::Host;
use super::select::{lists_exactly, host_name_set, matching_hosts, push_new};
use super::{find_host, host_index, Inventory};
use crate::names::contains_name;
use crate::patterns::CompiledPattern;
use crate::text::views;

verus! {

broadcast use vstd::seq_lib::group_seq_properties;

/// A host of a name is found exactly when some host has that name.
pub proof fn lemma_host_index_found(hs: Seq<Host>, h: Seq<char>)
    ensures
        host_index(hs, h) is Some <==> exists|k: int| 0 <= k < hs.len() && #[trigger] hs[k].name@ == h,
    decreases hs.len(),
{
    if hs.len() > 0 {
        lemma_host_index_found(hs.drop_last(), h);
        if host_index(hs.drop_last(), h) is Some {
            let k = choose|k: int| 0 <= k < hs.len() - 1 && #[trigger] hs.drop_last()[k].name@ == h;
            assert(hs[k].name@ == h);
        }
        if exists|k: int| 0 <= k < hs.len() && #[trigger] hs[k].name@ == h {
            let k = choose|k: int| 0 <= k < hs.len() && #[trigger] hs[k].name@ == h;
            if k < hs.len() - 1 {
                assert(hs.drop_last()[k].name@ == h);
            }
        }
    }
}

/// A group of a name is found exactly when some group has that name.
pub proof fn lemma_group_index_found(gs: Seq<Group>, n: Seq<char>)
    ensures
        group_index(gs, n) is Some <==> exists|k: int| 0 <= k < gs.len() && #[trigger] gs[k].name@ == n,
    decreases gs.len(),
{
    if gs.len() > 0 {
        lemma_group_index_found(gs.drop_last(), n);
        if group_index(gs.drop_last(), n) is Some {
            let k = choose|k: int| 0 <= k < gs.len() - 1 && #[trigger] gs.drop_last()[k].name@ == n;
            assert(gs[k].name@ == n);
        }
        if exists|k: int| 0 <= k < gs.len() && #[trigger] gs[k].name@ == n {
            let k = choose|k: int| 0 <= k < gs.len() && #[trigger] gs[k].name@ == n;
            if k < gs.len() - 1 {
                assert(gs.drop_last()[k].name@ == n);
            }
        }
    }
}

/// The names of all hosts, each once.
pub fn all_host_names(hosts: &Vec<Host>) -> (r: Vec<String>)
    ensures
        lists_exactly(r@, host_name_set(hosts@)),
{
    let mut out: Vec<String> = Vec::new();
    let mut i: usize = 0;
    proof {
        assert(views(out@).to_set() =~= Set::new(|h: Seq<char>| exists|k: int| 0 <= k < 0 && #[trigger] hosts@[k].name@ == h));
    }
    while i < hosts.len()
        invariant
            i <= hosts@.len(),
            views(out@).no_duplicates(),
            views(out@).to_set() == Set::new(|h: Seq<char>| exists|k: int| 0 <= k < i && #[trigger] hosts@[k].name@ == h),
        decreases hosts@.len() - i,
    {
        let ghost before = views(out@).to_set();
        push_new(&mut out, &hosts[i].name);
        proof {
            assert forall|h: Seq<char>|
                views(out@).to_set().contains(h) == (exists|k: int| 0 <= k < i + 1 && #[trigger] hosts@[k].name@ == h) by {
                if h == hosts@[i as int].name@ {
                    assert(hosts@[i as int].name@ == h);
                }
            }
            assert(views(out@).to_set() =~= Set::new(|h: Seq<char>| exists|k: int| 0 <= k < i + 1 && #[trigger] hosts@[k].name@ == h));
        }
        i = i + 1;
    }
    proof {
        assert forall|h: Seq<char>| host_name_set(hosts@).contains(h) == views(out@).to_set().contains(h) by {
            lemma_host_index_found(hosts@, h);
        }
        assert(views(out@).to_set() =~= host_name_set(hosts@));
    }
    out
}

/// The names of the hosts a compiled expression matches, each once.
pub fn hosts_matching(hosts: &Vec<Host>, re: &CompiledPattern) -> (r: Vec<String>)
    ensures
        lists_exactly(r@, matching_hosts(hosts@, re.source_view())),
{
    let ghost rx = re.source_view();
    let mut out: Vec<String> = Vec::new();
    let mut i: usize = 0;
    proof {
        assert(views(out@).to_set() =~= Set::new(
            |h: Seq<char>| crate::patterns::regex_matches(rx, h) && exists|k: int| 0 <= k < 0 && #[trigger] hosts@[k].name@ == h,
        ));
    }
    while i < hosts.len()
        invariant
            i <= hosts@.len(),
            rx == re.source_view(),
            views(out@).no_duplicates(),
            views(out@).to_set() == Set::new(
                |h: Seq<char>| crate::patterns::regex_matches(rx, h) && exists|k: int| 0 <= k < i && #[trigger] hosts@[k].name@ == h,
            ),
        decreases hosts@.len() - i,
    {
        if crate::patterns::pattern_is_match(re, hosts[i].name.as_str()) {
            push_new(&mut out, &hosts[i].name);
        }
        proof {
            assert forall|h: Seq<char>|
                views(out@).to_set().contains(h) == (crate::patterns::regex_matches(rx, h) && exists|k: int|
                    0 <= k < i + 1 && #[trigger] hosts@[k].name@ == h) by {
                if h == hosts@[i as int].name@ {
                    assert(hosts@[i as int].name@ == h);
                }
            }
            assert(views(out@).to_set() =~= Set::new(
                |h: Seq<char>| crate::patterns::regex_matches(rx, h) && exists|k: int| 0 <= k < i + 1 && #[trigger] hosts@[k].name@ == h,
            ));
        }
        i = i + 1;
    }
    proof {
        assert forall|h: Seq<char>| matching_hosts(hosts@, rx).contains(h) == views(out@).to_set().contains(h) by {
            lemma_host_index_found(hosts@, h);
        }
        assert(views(out@).to_set() =~= matching_hosts(hosts@, rx));
    }
    out
}

/// Adds the names of `s` that the list does not hold yet.
pub fn union_into(acc: &mut Vec<String>, s: &Vec<String>)
    requires
        views(old(acc)@).no_duplicates(),
    ensures
        views(final(acc)@).no_duplicates(),
        views(final(acc)@).to_set() == views(old(acc)@).to_set().union(views(s@).to_set()),
{
    let ghost start = views(acc@).to_set();
    let mut i: usize = 0;
    proof {
        assert(views(s@.take(0)).to_set() =~= Set::<Seq<char>>::empty());
        assert(views(acc@).to_set() =~= start.union(views(s@.take(0)).to_set()));
    }
    while i < s.len()
        invariant
            i <= s@.len(),
            views(acc@).no_duplicates(),
            views(acc@).to_set() == start.union(views(s@.take(i as int)).to_set()),
        decreases s@.len() - i,
    {
        push_new(acc, &s[i]);
        proof {
            assert(views(s@.take(i + 1)) =~= views(s@.take(i as int)).push(s@[i as int]@));
            assert(views(acc@).to_set() =~= start.union(views(s@.take(i + 1)).to_set()));
        }
        i = i + 1;
    }
    proof {
        assert(s@.take(s@.len() as int) =~= s@);
    }
}

/// The names of `a` that `s` holds, each once.
pub fn intersect_names(a: &Vec<String>, s: &Vec<String>) -> (r: Vec<String>)
    ensures
        views(r@).no_duplicates(),
        views(r@).to_set() == views(a@).to_set().intersect(views(s@).to_set()),
{
    let mut out: Vec<String> = Vec::new();
    let mut i: usize = 0;
    proof {
        assert(views(out@).to_set() =~= views(a@.take(0)).to_set().intersect(views(s@).to_set()));
    }
    while i < a.len()
        invariant
            i <= a@.len(),
            views(out@).no_duplicates(),
            views(out@).to_set() == views(a@.take(i as int)).to_set().intersect(views(s@).to_set()),
        decreases a@.len() - i,
    {
        if contains_name(s.as_slice(), a[i].as_str()) {
            push_new(&mut out, &a[i]);
        }
        proof {
            assert(views(a@.take(i + 1)) =~= views(a@.take(i as int)).push(a@[i as int]@));
            assert(views(out@).to_set() =~= views(a@.take(i + 1)).to_set().intersect(views(s@).to_set()));
        }
        i = i + 1;
    }
    proof {
        assert(a@.take(a@.len() as int) =~= a@);
    }
    out
}

/// The names of `a` that `s` does not hold, each once.
pub fn remove_names(a: &Vec<String>, s: &Vec<String>) -> (r: Vec<String>)
    ensures
        views(r@).no_duplicates(),
        views(r@).to_set() == views(a@).to_set().difference(views(s@).to_set()),
{
    let mut out: Vec<String> = Vec::new();
    let mut i: usize = 0;
    proof {
        assert(views(out@).to_set() =~= views(a@.take(0)).to_set().difference(views(s@).to_set()));
    }
    while i < a.len()
        invariant
            i <= a@.len(),
            views(out@).no_duplicates(),
            views(out@).to_set() == views(a@.take(i as int)).to_set().difference(views(s@).to_set()),
        decreases a@.len() - i,
    {
        if !contains_name(s.as_slice(), a[i].as_str()) {
            push_new(&mut out, &a[i]);
        }
        proof {
            assert(views(a@.take(i + 1)) =~= views(a@.take(i as int)).push(a@[i as int]@));
            assert(views(out@).to_set() =~= views(a@.take(i + 1)).to_set().difference(views(s@).to_set()));
        }
        i = i + 1;
    }
    proof {
        assert(a@.take(a@.len() as int) =~= a@);
    }
    out
}

/// Whether a text holds `*`, `?` or `[`.
pub fn has_wildcard_text(s: &str) -> (r: bool)
    ensures
        r == super::select::has_wildcard(s@),
{
    let cs = crate::text::chars_of(s);
    let mut i: usize = 0;
    while i < cs.len()
        invariant
            i <= cs@.len(),
            cs@ == s@,
            forall|k: int| 0 <= k < i ==> cs@[k] != '*' && cs@[k] != '?' && cs@[k] != '[',
        decreases cs@.len() - i,
    {
        let c = cs[i];
        if c == '*' || c == '?' || c == '[' {
            proof {
                assert(s@[i as int] == c);
            }
            return true;
        }
        i = i + 1;
    }
    false
}

} // verus!

verus! {

use super::select::{
    PatternFailure, files_view, limit_file_content, resolve, combine, limit_lines, limit_file,
    collect_one, collect_list, range_result, glob_alternation, is_pattern_line, fuel, RangeState,
};
use super::InventoryError;
use super::pattern::{glob_regex_body, pattern_parts};
use crate::text::{chars_of, string_of, sub_chars, concat2, concat3, trim_ws, text_lines};

/// What a resolver call gives, held against what `select` says it gives.
pub open spec fn outcome_matches(r: Result<Vec<String>, InventoryError>, s: Result<Set<Seq<char>>, PatternFailure>) -> bool {
    match s {
        Ok(set) => (r matches Ok(v) && lists_exactly(v@, set)),
        Err(PatternFailure::Invalid(m)) => (r matches Err(InventoryError::InvalidPattern(e)) && e@ == m),
        Err(PatternFailure::Unread(p)) => (r matches Err(InventoryError::Io(e)) && e@ == p),
    }
}

/// The state of a range expansion as `select` states it.
pub open spec fn range_state(found: Seq<String>, globs: Seq<String>, remaining: u64) -> RangeState {
    (views(found).to_set(), views(globs), remaining as nat)
}

/// Once a prefix of the elements fails, the whole compound pattern fails so.
proof fn lemma_combine_stops(hs: Seq<Host>, gs: Seq<Group>, files: super::select::LimitFiles, parts: Seq<Seq<char>>, depth: int, i: int)
    requires
        0 <= i <= parts.len(),
        depth <= 20,
        combine(hs, gs, files, parts.take(i), depth) is Err,
    ensures
        combine(hs, gs, files, parts, depth) == combine(hs, gs, files, parts.take(i), depth),
    decreases parts.len(),
{
    if i == parts.len() {
        assert(parts.take(i) =~= parts);
    } else {
        assert(parts.drop_last().take(i) =~= parts.take(i));
        lemma_combine_stops(hs, gs, files, parts.drop_last(), depth, i);
    }
}

/// Once a prefix of the lines fails, the whole limit file fails so.
proof fn lemma_limit_lines_stops(hs: Seq<Host>, gs: Seq<Group>, files: super::select::LimitFiles, lines: Seq<Seq<char>>, depth: int, i: int)
    requires
        0 <= i <= lines.len(),
        depth <= 20,
        limit_lines(hs, gs, files, lines.take(i), depth) is Err,
    ensures
        limit_lines(hs, gs, files, lines, depth) == limit_lines(hs, gs, files, lines.take(i), depth),
    decreases lines.len(),
{
    if i == lines.len() {
        assert(lines.take(i) =~= lines);
    } else {
        assert(lines.drop_last().take(i) =~= lines.take(i));
        lemma_limit_lines_stops(hs, gs, files, lines.drop_last(), depth, i);
    }
}

/// Once a prefix of the candidates fails, the whole expansion fails so.
proof fn lemma_collect_stops(hs: Seq<Host>, cs: Seq<Seq<char>>, depth: int, st: RangeState, i: int)
    requires
        0 <= i <= cs.len(),
        collect_list(hs, cs.take(i), depth, st) is Err,
    ensures
        collect_list(hs, cs, depth, st) == collect_list(hs, cs.take(i), depth, st),
    decreases cs.len(),
{
    if i == cs.len() {
        assert(cs.take(i) =~= cs);
    } else {
        assert(cs.drop_last().take(i) =~= cs.take(i));
        lemma_collect_stops(hs, cs.drop_last(), depth, st, i);
    }
}

/// The position of the first limit file read from `path`.
fn find_limit_file(files: &Vec<(String, Result<String, String>)>, path: &str) -> (r: Option<usize>)
    ensures
        match limit_file_content(files_view(files@), path@) {
            None => r is None,
            Some(c) => r is Some && r.unwrap() < files@.len() && files_view(files@)[r.unwrap() as int].1 == c,
        },
{
    let ghost fv = files_view(files@);
    let mut i: usize = 0;
    proof {
        assert(fv.skip(0) =~= fv);
    }
    while i < files.len()
        invariant
            i <= files@.len(),
            fv == files_view(files@),
            limit_file_content(fv, path@) == limit_file_content(fv.skip(i as int), path@),
        decreases files@.len() - i,
    {
        proof {
            assert(fv.skip(i as int).drop_first() =~= fv.skip(i + 1));
            assert(fv.skip(i as int)[0] == fv[i as int]);
        }
        if crate::text::str_equal(files[i].0.as_str(), path) {
            return Some(i);
        }
        i = i + 1;
    }
    None
}

impl Inventory {
    /// The names of the groups, in order.
    pub fn group_names(&self) -> (r: Vec<String>)
        ensures
            views(r@) == self.groups_view().map_values(|g: Group| g.name@),
    {
        let mut out: Vec<String> = Vec::new();
        let mut i: usize = 0;
        while i < self.groups.len()
            invariant
                i <= self.groups@.len(),
                views(out@) == self.groups@.take(i as int).map_values(|g: Group| g.name@),
            decreases self.groups@.len() - i,
        {
            out.push(self.groups[i].name.clone());
            proof {
                assert(self.groups@.take(i + 1).map_values(|g: Group| g.name@) =~= self.groups@.take(i as int).map_values(
                    |g: Group| g.name@,
                ).push(self.groups@[i as int].name@));
                assert(views(out@) =~= self.groups@.take(i + 1).map_values(|g: Group| g.name@));
            }
            i = i + 1;
        }
        proof {
            assert(self.groups@.take(self.groups@.len() as int) =~= self.groups@);
        }
        out
    }

    /// The names of the hosts, in order.
    pub fn host_names(&self) -> (r: Vec<String>)
        ensures
            views(r@) == self.hosts_view().map_values(|h: Host| h.name@),
    {
        let mut out: Vec<String> = Vec::new();
        let mut i: usize = 0;
        while i < self.hosts.len()
            invariant
                i <= self.hosts@.len(),
                views(out@) == self.hosts@.take(i as int).map_values(|h: Host| h.name@),
            decreases self.hosts@.len() - i,
        {
            out.push(self.hosts[i].name.clone());
            proof {
                assert(self.hosts@.take(i + 1).map_values(|h: Host| h.name@) =~= self.hosts@.take(i as int).map_values(
                    |h: Host| h.name@,
                ).push(self.hosts@[i as int].name@));
                assert(views(out@) =~= self.hosts@.take(i + 1).map_values(|h: Host| h.name@));
            }
            i = i + 1;
        }
        proof {
            assert(self.hosts@.take(self.hosts@.len() as int) =~= self.hosts@);
        }
        out
    }
}


impl Inventory {
    /// Expands one candidate of a range, as `collect_one` states it.
    fn collect_candidate(
        &self,
        c: &String,
        depth: usize,
        found: &mut Vec<String>,
        globs: &mut Vec<String>,
        remaining: &mut u64,
    ) -> (r: Result<(), InventoryError>)
        requires
            depth <= 21,
            views(old(found)@).no_duplicates(),
        ensures
            views(final(found)@).no_duplicates(),
            match collect_one(self.hosts@, c@, depth as int, range_state(old(found)@, old(globs)@, *old(remaining))) {
                Ok(st) => r is Ok && range_state(final(found)@, final(globs)@, *final(remaining)) == st,
                Err(e) => (r matches Err(InventoryError::InvalidPattern(m)) && m@ == e),
            },
        decreases fuel(depth as int), 0int, 0int,
    {
        if depth > 20 {
            return Err(InventoryError::InvalidPattern(concat2("Pattern recursion depth exceeded (max 20): ", c.as_str())));
        }
        if *remaining == 0 {
            return Err(
                InventoryError::InvalidPattern(concat2("Invalid range: pattern expands to more than 10000 names: ", c.as_str())),
            );
        }
        *remaining = *remaining - 1;
        let none: Vec<String> = Vec::new();
        proof {
            assert(views(none@) =~= Seq::<Seq<char>>::empty());
        }
        match super::pattern::range_candidates(c.as_str(), none.as_slice()) {
            Err(e) => Err(e),
            Ok(Some(nested)) => self.collect_candidates(&nested, depth + 1, found, globs, remaining),
            Ok(None) => {
                if has_wildcard_text(c.as_str()) {
                    globs.push(c.clone());
                    proof {
                        assert(views(globs@) =~= views(old(globs)@).push(c@));
                    }
                } else if find_host(&self.hosts, c.as_str()).is_some() {
                    push_new(found, c);
                }
                Ok(())
            },
        }
    }

    /// Expands the candidates of a range in order, as `collect_list` states it.
    fn collect_candidates(
        &self,
        cs: &Vec<String>,
        depth: usize,
        found: &mut Vec<String>,
        globs: &mut Vec<String>,
        remaining: &mut u64,
    ) -> (r: Result<(), InventoryError>)
        requires
            depth <= 21,
            views(old(found)@).no_duplicates(),
        ensures
            views(final(found)@).no_duplicates(),
            match collect_list(self.hosts@, views(cs@), depth as int, range_state(old(found)@, old(globs)@, *old(remaining))) {
                Ok(st) => r is Ok && range_state(final(found)@, final(globs)@, *final(remaining)) == st,
                Err(e) => (r matches Err(InventoryError::InvalidPattern(m)) && m@ == e),
            },
        decreases fuel(depth as int), 1int, 0int,
    {
        let ghost st0 = range_state(found@, globs@, *remaining);
        let ghost hs = self.hosts@;
        let mut i: usize = 0;
        proof {
            assert(views(cs@).take(0) =~= Seq::<Seq<char>>::empty());
        }
        while i < cs.len()
            invariant
                i <= cs@.len(),
                depth <= 21,
                hs == self.hosts@,
                st0 == range_state(old(found)@, old(globs)@, *old(remaining)),
                views(found@).no_duplicates(),
                collect_list(hs, views(cs@).take(i as int), depth as int, st0) == Ok::<RangeState, Seq<char>>(
                    range_state(found@, globs@, *remaining),
                ),
            decreases cs@.len() - i,
        {
            proof {
                assert(views(cs@).take(i + 1).drop_last() =~= views(cs@).take(i as int));
                assert(views(cs@).take(i + 1).last() == cs@[i as int]@);
            }
            let ghost sti = range_state(found@, globs@, *remaining);
            proof {
                assert(collect_list(hs, views(cs@).take(i + 1), depth as int, st0) == collect_one(hs, cs@[i as int]@, depth as int, sti));
            }
            match self.collect_candidate(&cs[i], depth, found, globs, remaining) {
                Err(e) => {
                    proof {
                        lemma_collect_stops(hs, views(cs@), depth as int, st0, i + 1);
                    }
                    return Err(e);
                },
                Ok(()) => {},
            }
            i = i + 1;
        }
        proof {
            assert(views(cs@).take(cs@.len() as int) =~= views(cs@));
        }
        Ok(())
    }
}


/// The regular expression bodies of globs, in order.
fn glob_bodies(globs: &Vec<String>) -> (r: Vec<String>)
    ensures
        views(r@) == views(globs@).map_values(|g: Seq<char>| glob_regex_body(g)),
{
    let mut out: Vec<String> = Vec::new();
    let mut i: usize = 0;
    while i < globs.len()
        invariant
            i <= globs@.len(),
            views(out@) == views(globs@).take(i as int).map_values(|g: Seq<char>| glob_regex_body(g)),
        decreases globs@.len() - i,
    {
        let rx = super::pattern::glob_to_regex(globs[i].as_str());
        let cs = chars_of(rx.as_str());
        let body = string_of(&sub_chars(&cs, 1, cs.len() - 1));
        proof {
            assert(body@ =~= glob_regex_body(globs@[i as int]@));
        }
        out.push(body);
        proof {
            assert(views(globs@).take(i + 1).map_values(|g: Seq<char>| glob_regex_body(g)) =~= views(globs@).take(
                i as int,
            ).map_values(|g: Seq<char>| glob_regex_body(g)).push(glob_regex_body(globs@[i as int]@)));
            assert(views(out@) =~= views(globs@).take(i + 1).map_values(|g: Seq<char>| glob_regex_body(g)));
        }
        i = i + 1;
    }
    proof {
        assert(views(globs@).take(globs@.len() as int) =~= views(globs@));
    }
    out
}

/// A list of names is empty exactly when the set it lists is.
proof fn lemma_listed_empty(v: Seq<String>)
    ensures
        (v.len() == 0) == (views(v).to_set() == Set::<Seq<char>>::empty()),
{
    if v.len() == 0 {
        assert(views(v).to_set() =~= Set::<Seq<char>>::empty());
    } else {
        assert(views(v).to_set().contains(views(v)[0]));
    }
}

impl Inventory {
    /// Resolves a range pattern from its expanded names, as `range_result`
    /// states it.
    fn expand_range(&self, t: &String, cands: &Vec<String>, depth: usize) -> (r: Result<Vec<String>, InventoryError>)
        requires
            depth <= 20,
        ensures
            outcome_matches(
                r,
                match collect_list(self.hosts@, views(cands@), depth + 1, (Set::empty(), Seq::empty(), 10000nat)) {
                    Err(e) => Err(PatternFailure::Invalid(e)),
                    Ok(st) => range_result(self.hosts@, t@, st),
                },
            ),
    {
        let mut found: Vec<String> = Vec::new();
        let mut globs: Vec<String> = Vec::new();
        let mut remaining: u64 = 10000;
        proof {
            assert(range_state(found@, globs@, remaining) =~= (Set::<Seq<char>>::empty(), Seq::<Seq<char>>::empty(), 10000nat));
        }
        match self.collect_candidates(cands, depth + 1, &mut found, &mut globs, &mut remaining) {
            Err(e) => {
                return Err(e);
            },
            Ok(()) => {},
        }
        if globs.len() > 0 {
            let bodies = glob_bodies(&globs);
            let alternation = crate::text::join(bodies.as_slice(), "|");
            let rx = concat3("^(?:", alternation.as_str(), ")$");
            match crate::patterns::compile_pattern(rx.as_str()) {
                Err(_) => {
                    return Err(InventoryError::InvalidPattern(t.clone()));
                },
                Ok(re) => {
                    let matched = hosts_matching(&self.hosts, &re);
                    union_into(&mut found, &matched);
                },
            }
        }
        proof {
            lemma_listed_empty(found@);
        }
        if found.len() == 0 {
            return Err(InventoryError::InvalidPattern(concat2("No hosts matched pattern: ", t.as_str())));
        }
        Ok(found)
    }
}


impl Inventory {
    /// Resolves a pattern at a nesting depth, as `resolve` states it.
    fn resolve_pattern(&self, files: &Vec<(String, Result<String, String>)>, pattern: &str, depth: usize) -> (r: Result<
        Vec<String>,
        InventoryError,
    >)
        ensures
            outcome_matches(r, resolve(self.hosts@, self.groups@, files_view(files@), pattern@, depth as int)),
        decreases fuel(depth as int), 4int, 0int,
    {
        let ghost hs = self.hosts@;
        let ghost gs = self.groups@;
        if depth > 20 {
            return Err(InventoryError::InvalidPattern(concat2("Pattern recursion depth exceeded (max 20): ", pattern)));
        }
        let cs = chars_of(pattern);
        let tv = crate::text::trim(&cs);
        let t = string_of(&tv);
        if tv.len() == 0 {
            proof {
                assert(views(Seq::<String>::empty()).to_set() =~= Set::<Seq<char>>::empty());
            }
            return Ok(Vec::new());
        }
        if crate::text::str_equal(t.as_str(), "all") || crate::text::str_equal(t.as_str(), "*") {
            return Ok(all_host_names(&self.hosts));
        }
        let parts = super::pattern::split_host_pattern(t.as_str());
        if parts.len() > 1 {
            return self.combine_parts(files, &parts, depth);
        }
        let first = tv[0];
        if first == '@' {
            let path = string_of(&sub_chars(&tv, 1, tv.len()));
            proof {
                assert(path@ =~= t@.drop_first());
            }
            return self.resolve_limit_file(files, path.as_str(), depth);
        }
        if first == '~' {
            let rx = string_of(&sub_chars(&tv, 1, tv.len()));
            proof {
                assert(rx@ =~= t@.drop_first());
            }
            return match crate::patterns::compile_pattern(rx.as_str()) {
                Err(_) => Err(InventoryError::InvalidPattern(t)),
                Ok(re) => Ok(hosts_matching(&self.hosts, &re)),
            };
        }
        let names = self.group_names();
        proof {
            if let Some(parts) = super::pattern::range_parts(t@) {
                lemma_group_index_found(gs, parts.0);
                if views(names@).contains(parts.0) {
                    let k = choose|k: int| 0 <= k < views(names@).len() && views(names@)[k] == parts.0;
                    assert(gs[k].name@ == parts.0);
                }
                if group_index(gs, parts.0) is Some {
                    let k = choose|k: int| 0 <= k < gs.len() && #[trigger] gs[k].name@ == parts.0;
                    assert(views(names@)[k] == parts.0);
                }
            }
        }
        match super::pattern::range_candidates(t.as_str(), names.as_slice()) {
            Err(e) => {
                return Err(e);
            },
            Ok(Some(cands)) => {
                return self.expand_range(&t, &cands, depth);
            },
            Ok(None) => {},
        }
        if has_wildcard_text(t.as_str()) {
            let rx = super::pattern::glob_to_regex(t.as_str());
            return match crate::patterns::compile_pattern(rx.as_str()) {
                Err(_) => Err(InventoryError::InvalidPattern(t)),
                Ok(re) => Ok(hosts_matching(&self.hosts, &re)),
            };
        }
        if find_group(&self.groups, t.as_str()).is_some() {
            return Ok(self.hosts_in_group(t.as_str()));
        }
        if find_host(&self.hosts, t.as_str()).is_some() {
            let mut one: Vec<String> = Vec::new();
            one.push(t);
            proof {
                assert(views(one@) =~= seq![t@]);
                assert(views(one@).to_set() =~= set![t@]);
            }
            return Ok(one);
        }
        Err(InventoryError::InvalidPattern(concat2("No hosts matched pattern: ", t.as_str())))
    }

    /// Resolves the elements of a compound pattern in order, as `combine`
    /// states it.
    fn combine_parts(&self, files: &Vec<(String, Result<String, String>)>, parts: &Vec<String>, depth: usize) -> (r: Result<
        Vec<String>,
        InventoryError,
    >)
        requires
            depth <= 20,
        ensures
            outcome_matches(r, combine(self.hosts@, self.groups@, files_view(files@), views(parts@), depth as int)),
        decreases fuel(depth as int), 2int, 0int,
    {
        let ghost hs = self.hosts@;
        let ghost gs = self.groups@;
        let ghost fv = files_view(files@);
        let ghost ps = views(parts@);
        let mut acc: Vec<String> = Vec::new();
        let mut i: usize = 0;
        proof {
            assert(ps.take(0) =~= Seq::<Seq<char>>::empty());
            assert(views(acc@).to_set() =~= Set::<Seq<char>>::empty());
        }
        while i < parts.len()
            invariant
                i <= parts@.len(),
                depth <= 20,
                hs == self.hosts@,
                gs == self.groups@,
                fv == files_view(files@),
                ps == views(parts@),
                views(acc@).no_duplicates(),
                combine(hs, gs, fv, ps.take(i as int), depth as int) == Ok::<Set<Seq<char>>, PatternFailure>(views(acc@).to_set()),
            decreases parts@.len() - i,
        {
            proof {
                assert(ps.take(i + 1).drop_last() =~= ps.take(i as int));
                assert(ps.take(i + 1).last() == parts@[i as int]@);
            }
            let pcs = chars_of(parts[i].as_str());
            let tv = crate::text::trim(&pcs);
            if tv.len() > 0 {
                let first = tv[0];
                let sub = if first == '&' || first == '!' {
                    let rest = string_of(&sub_chars(&tv, 1, tv.len()));
                    proof {
                        assert(rest@ =~= tv@.drop_first());
                    }
                    self.resolve_pattern(files, rest.as_str(), depth + 1)
                } else {
                    let whole = string_of(&tv);
                    self.resolve_pattern(files, whole.as_str(), depth + 1)
                };
                match sub {
                    Err(e) => {
                        proof {
                            lemma_combine_stops(hs, gs, fv, ps, depth as int, i + 1);
                        }
                        return Err(e);
                    },
                    Ok(names) => {
                        if first == '&' {
                            acc = intersect_names(&acc, &names);
                        } else if first == '!' {
                            acc = remove_names(&acc, &names);
                        } else {
                            union_into(&mut acc, &names);
                        }
                    },
                }
            }
            i = i + 1;
        }
        proof {
            assert(ps.take(parts@.len() as int) =~= ps);
        }
        Ok(acc)
    }

    /// Resolves the patterns of a limit file, as `limit_file` states it.
    fn resolve_limit_file(&self, files: &Vec<(String, Result<String, String>)>, path: &str, depth: usize) -> (r: Result<
        Vec<String>,
        InventoryError,
    >)
        requires
            depth <= 20,
        ensures
            outcome_matches(r, limit_file(self.hosts@, self.groups@, files_view(files@), path@, depth as int)),
        decreases fuel(depth as int), 3int, 0int,
    {
        let ghost hs = self.hosts@;
        let ghost gs = self.groups@;
        let ghost fv = files_view(files@);
        let content = match find_limit_file(files, path) {
            None => {
                return Err(InventoryError::Io(crate::text::copy_str(path)));
            },
            Some(k) => match &files[k].1 {
                Err(e) => {
                    let head = concat3("Cannot read limit file ", path, ": ");
                    return Err(InventoryError::InvalidPattern(concat2(head.as_str(), e.as_str())));
                },
                Ok(c) => c,
            },
        };
        let lines = crate::text::lines_of(&chars_of(content.as_str()));
        let ghost ls = lines@.map_values(|l: Vec<char>| l@);
        let ghost cv = content@;
        let mut acc: Vec<String> = Vec::new();
        let mut count: usize = 0;
        let mut i: usize = 0;
        proof {
            assert(ls.take(0) =~= Seq::<Seq<char>>::empty());
            assert(views(acc@).to_set() =~= Set::<Seq<char>>::empty());
        }
        while i < lines.len()
            invariant
                i <= lines@.len(),
                depth <= 20,
                hs == self.hosts@,
                gs == self.groups@,
                fv == files_view(files@),
                ls == lines@.map_values(|l: Vec<char>| l@),
                ls == text_lines(cv),
                limit_file_content(fv, path@) == Some(Ok::<Seq<char>, Seq<char>>(cv)),
                count <= i,
                views(acc@).no_duplicates(),
                limit_lines(hs, gs, fv, ls.take(i as int), depth as int) == Ok::<(Set<Seq<char>>, nat), PatternFailure>(
                    (views(acc@).to_set(), count as nat),
                ),
            decreases lines@.len() - i,
        {
            proof {
                assert(ls.take(i + 1).drop_last() =~= ls.take(i as int));
                assert(ls.take(i + 1).last() == lines@[i as int]@);
            }
            let tv = crate::text::trim(lines[i].as_slice());
            if tv.len() > 0 && tv[0] != '#' {
                let line = string_of(&tv);
                match self.resolve_pattern(files, line.as_str(), depth + 1) {
                    Err(e) => {
                        proof {
                            lemma_limit_lines_stops(hs, gs, fv, ls, depth as int, i + 1);
                        }
                        return Err(e);
                    },
                    Ok(names) => {
                        union_into(&mut acc, &names);
                        count = count + 1;
                    },
                }
            }
            i = i + 1;
        }
        proof {
            assert(ls.take(lines@.len() as int) =~= ls);
        }
        if count == 0 {
            return Err(InventoryError::InvalidPattern(concat2("Limit file contains no host patterns: ", path)));
        }
        Ok(acc)
    }
}


impl Inventory {
    /// The names of the hosts a pattern selects, each once. The pattern may be
    /// `all` or `*`, a host or group name, a glob (`web*`), a regular
    /// expression (`~web\\d+`), a range (`web[01:03]`), `@path` (the patterns
    /// of a limit file), or elements joined by `:`, where `&` intersects and
    /// `!` excludes. The limit files are given as read: a path with its
    /// content or the message of the error reading it gave. A pattern that
    /// needs a limit file that is not given fails with `Io` and the file's
    /// path, so that the caller can read it and ask again.
    pub fn get_hosts_for_pattern(&self, pattern: &str, files: &Vec<(String, Result<String, String>)>) -> (r: Result<
        Vec<String>,
        InventoryError,
    >)
        ensures
            graph::has_cycle(self.groups_view()) ==> (r matches Err(InventoryError::CircularDependency(n)) && exists|i: int|
                0 <= i < self.groups_view().len() && graph::on_cycle(self.groups_view(), i) && self.groups_view()[i].name@ == n@),
            !graph::has_cycle(self.groups_view()) ==> outcome_matches(
                r,
                resolve(self.hosts_view(), self.groups_view(), files_view(files@), pattern@, 0),
            ),
    {
        match self.validate_group_graph() {
            Err(e) => Err(e),
            Ok(()) => self.resolve_pattern(files, pattern, 0),
        }
    }
}

} // verus!
