//! Selecting hosts: the hosts of a group with its descendants, and host
//! patterns such as `web*`, `~regex`, `web[01:03]`, `a:&b` and `a:!b`.
use vstd::prelude::*;
use super::graph::{find_group, group_index, reachable, reachable_groups};
use super::group::Group;
use super::host::Host;
use super::{find_host, host_index, Inventory};
use crate::names::contains_name;
use crate::text::views;

verus! {

broadcast use vstd::seq_lib::group_seq_properties;

/// The names of the hosts of an inventory.
pub open spec fn host_name_set(hs: Seq<Host>) -> Set<Seq<char>> {
    Set::new(|h: Seq<char>| host_index(hs, h) is Some)
}

/// The hosts in the group `name` or in one of its descendants, that the
/// inventory holds.
pub open spec fn group_hosts(hs: Seq<Host>, gs: Seq<Group>, name: Seq<char>) -> Set<Seq<char>> {
    match group_index(gs, name) {
        None => Set::empty(),
        Some(g) => Set::new(
            |h: Seq<char>|
                host_index(hs, h) is Some && exists|j: int|
                    0 <= j < gs.len() && reachable(gs, seq![g as usize], j) && #[trigger] views(gs[j].hosts@).contains(h),
        ),
    }
}

/// A list of names without repeats, holding exactly the names of `s`.
pub open spec fn lists_exactly(v: Seq<String>, s: Set<Seq<char>>) -> bool {
    &&& views(v).no_duplicates()
    &&& views(v).to_set() == s
}

/// Adds a name unless the list holds it already.
pub fn push_new(v: &mut Vec<String>, name: &String)
    requires
        views(old(v)@).no_duplicates(),
    ensures
        views(final(v)@).no_duplicates(),
        views(final(v)@).to_set() == views(old(v)@).to_set().insert(name@),
{
    if !contains_name(v.as_slice(), name.as_str()) {
        let ghost before = views(v@);
        v.push(name.clone());
        proof {
            assert(views(v@) =~= before.push(name@));
            assert(views(v@).to_set() =~= before.to_set().insert(name@));
        }
    } else {
        proof {
            assert(views(v@).to_set() =~= views(v@).to_set().insert(name@));
        }
    }
}

impl Inventory {
    /// The hosts in a group or in one of its descendants.
    pub fn hosts_in_group(&self, name: &str) -> (r: Vec<String>)
        ensures
            lists_exactly(r@, group_hosts(self.hosts_view(), self.groups_view(), name@)),
    {
        let ghost hs = self.hosts@;
        let ghost gs = self.groups@;
        let mut out: Vec<String> = Vec::new();
        proof {
            assert(views(out@).to_set() =~= Set::<Seq<char>>::empty());
        }
        let g = match find_group(&self.groups, name) {
            None => {
                proof {
                    assert(group_hosts(hs, gs, name@) =~= Set::<Seq<char>>::empty());
                }
                return out;
            },
            Some(g) => g,
        };
        let mut start: Vec<usize> = Vec::new();
        start.push(g);
        let reach = reachable_groups(&self.groups, &start);
        proof {
            assert(start@ =~= seq![g]);
        }
        let ghost target = group_hosts(hs, gs, name@);
        let n = self.groups.len();
        let mut j: usize = 0;
        while j < n
            invariant
                n == gs.len(),
                gs == self.groups@,
                hs == self.hosts@,
                j <= n,
                reach@.len() == n,
                forall|x: int| 0 <= x < n ==> reach@[x] == reachable(gs, seq![g], x),
                group_index(gs, name@) == Some(g as int),
                target == group_hosts(hs, gs, name@),
                views(out@).no_duplicates(),
                views(out@).to_set() == Set::new(
                    |h: Seq<char>|
                        host_index(hs, h) is Some && exists|k: int|
                            0 <= k < j && reachable(gs, seq![g], k) && #[trigger] views(gs[k].hosts@).contains(h),
                ),
            decreases n - j,
        {
            let ghost done = views(out@).to_set();
            if reach[j] {
                let hosts = &self.groups[j].hosts;
                let mut t: usize = 0;
                while t < hosts.len()
                    invariant
                        n == gs.len(),
                        gs == self.groups@,
                        hs == self.hosts@,
                        j < n,
                        hosts == &gs[j as int].hosts,
                        t <= hosts@.len(),
                        views(out@).no_duplicates(),
                        views(out@).to_set() == done.union(
                            Set::new(|h: Seq<char>| host_index(hs, h) is Some && views(hosts@.take(t as int)).contains(h)),
                        ),
                    decreases hosts@.len() - t,
                {
                    let ghost before = views(out@).to_set();
                    proof {
                        assert(views(hosts@.take(t + 1)) =~= views(hosts@.take(t as int)).push(hosts@[t as int]@));
                    }
                    if find_host(&self.hosts, hosts[t].as_str()).is_some() {
                        push_new(&mut out, &hosts[t]);
                        proof {
                            assert(views(out@).to_set() =~= done.union(
                                Set::new(|h: Seq<char>| host_index(hs, h) is Some && views(hosts@.take(t + 1)).contains(h)),
                            ));
                        }
                    } else {
                        proof {
                            assert(views(out@).to_set() =~= done.union(
                                Set::new(|h: Seq<char>| host_index(hs, h) is Some && views(hosts@.take(t + 1)).contains(h)),
                            ));
                        }
                    }
                    t = t + 1;
                }
                proof {
                    assert(hosts@.take(hosts@.len() as int) =~= hosts@);
                    assert(views(out@).to_set() =~= Set::new(
                        |h: Seq<char>|
                            host_index(hs, h) is Some && exists|k: int|
                                0 <= k < j + 1 && reachable(gs, seq![g], k) && #[trigger] views(gs[k].hosts@).contains(h),
                    ));
                }
            } else {
                proof {
                    assert(views(out@).to_set() =~= Set::new(
                        |h: Seq<char>|
                            host_index(hs, h) is Some && exists|k: int|
                                0 <= k < j + 1 && reachable(gs, seq![g], k) && #[trigger] views(gs[k].hosts@).contains(h),
                    ));
                }
            }
            j = j + 1;
        }
        proof {
            assert(views(out@).to_set() =~= target);
        }
        out
    }
}

} // verus!

verus! {

/// The names of the hosts a regular expression matches.
pub open spec fn matching_hosts(hs: Seq<Host>, rx: Seq<char>) -> Set<Seq<char>> {
    Set::new(|h: Seq<char>| host_index(hs, h) is Some && crate::patterns::regex_matches(rx, h))
}

/// How deep patterns may still nest at `depth`.
pub open spec fn fuel(depth: int) -> nat {
    if depth < 21 {
        (21 - depth) as nat
    } else {
        0
    }
}

/// The message for patterns nested too deep.
pub open spec fn depth_message(p: Seq<char>) -> Seq<char> {
    "Pattern recursion depth exceeded (max 20): "@ + p
}

/// The message for a pattern that selects no host.
pub open spec fn no_match_message(p: Seq<char>) -> Seq<char> {
    "No hosts matched pattern: "@ + p
}

/// The message for ranges that expand past the budget.
pub open spec fn budget_message(c: Seq<char>) -> Seq<char> {
    "Invalid range: pattern expands to more than 10000 names: "@ + c
}

/// Whether a text holds a glob wildcard or a bracket.
pub open spec fn has_wildcard(s: Seq<char>) -> bool {
    s.contains('*') || s.contains('?') || s.contains('[')
}

/// What expanding ranges has found so far: matching host names, candidates
/// that still hold wildcards, and the number of names that may still be expanded.
pub type RangeState = (Set<Seq<char>>, Seq<Seq<char>>, nat);

/// Expanding one candidate of a range: a nested range is expanded in turn, a
/// candidate with wildcards is kept for matching, a host name is found, and
/// any other name is skipped.
pub open spec fn collect_one(hs: Seq<Host>, c: Seq<char>, depth: int, st: RangeState) -> Result<RangeState, Seq<char>>
    decreases fuel(depth), 0int, 0int,
{
    if depth > 20 {
        Err(depth_message(c))
    } else if st.2 == 0 {
        Err(budget_message(c))
    } else {
        let st1 = (st.0, st.1, (st.2 - 1) as nat);
        match super::pattern::range_parts(c) {
            Some(parts) => match super::pattern::range_names(parts) {
                None => Err("Invalid range: "@ + c),
                Some(nested) => collect_list(hs, nested, depth + 1, st1),
            },
            None => if has_wildcard(c) {
                Ok((st1.0, st1.1.push(c), st1.2))
            } else if host_index(hs, c) is Some {
                Ok((st1.0.insert(c), st1.1, st1.2))
            } else {
                Ok(st1)
            },
        }
    }
}

/// Expanding candidates in order; the first error stops the expansion.
pub open spec fn collect_list(hs: Seq<Host>, cs: Seq<Seq<char>>, depth: int, st: RangeState) -> Result<RangeState, Seq<char>>
    decreases fuel(depth), 1int, cs.len(),
{
    if cs.len() == 0 {
        Ok(st)
    } else {
        match collect_list(hs, cs.drop_last(), depth, st) {
            Err(e) => Err(e),
            Ok(s2) => collect_one(hs, cs.last(), depth, s2),
        }
    }
}

/// One regular expression matching any of the globs.
pub open spec fn glob_alternation(globs: Seq<Seq<char>>) -> Seq<char> {
    "^(?:"@ + crate::text::joined(globs.map_values(|g: Seq<char>| super::pattern::glob_regex_body(g)), "|"@) + ")$"@
}

} // verus!

verus! {

/// Limit files as read: each path with its content, or the message of the
/// error that reading it gave.
pub type LimitFiles = Seq<(Seq<char>, Result<Seq<char>, Seq<char>>)>;

/// Why a pattern selects no hosts: it is invalid (with the message), or it
/// needs a limit file that is not among those given (with its path).
pub enum PatternFailure {
    Invalid(Seq<char>),
    Unread(Seq<char>),
}

/// The limit files as the library reads them.
pub open spec fn files_view(files: Seq<(String, Result<String, String>)>) -> LimitFiles {
    files.map_values(
        |f: (String, Result<String, String>)|
            (
                f.0@,
                match f.1 {
                    Ok(c) => Ok(c@),
                    Err(e) => Err(e@),
                },
            ),
    )
}

/// What reading the limit file at `path` gave: the first entry for that path.
pub open spec fn limit_file_content(files: LimitFiles, path: Seq<char>) -> Option<Result<Seq<char>, Seq<char>>>
    decreases files.len(),
{
    if files.len() == 0 {
        None
    } else if files[0].0 == path {
        Some(files[0].1)
    } else {
        limit_file_content(files.drop_first(), path)
    }
}

/// The hosts a pattern selects, or why it selects none.
pub open spec fn resolve(hs: Seq<Host>, gs: Seq<Group>, files: LimitFiles, p: Seq<char>, depth: int) -> Result<Set<Seq<char>>, PatternFailure>
    decreases fuel(depth), 4int, 0int,
{
    if depth > 20 {
        Err(PatternFailure::Invalid(depth_message(p)))
    } else {
        let t = crate::text::trim_ws(p);
        if t.len() == 0 {
            Ok(Set::empty())
        } else if t == "all"@ || t == "*"@ {
            Ok(host_name_set(hs))
        } else if super::pattern::pattern_parts(t).len() > 1 {
            combine(hs, gs, files, super::pattern::pattern_parts(t), depth)
        } else if t[0] == '@' {
            limit_file(hs, gs, files, t.drop_first(), depth)
        } else if t[0] == '~' {
            match crate::patterns::regex_compile_error(t.drop_first()) {
                Some(_) => Err(PatternFailure::Invalid(t)),
                None => Ok(matching_hosts(hs, t.drop_first())),
            }
        } else {
            match super::pattern::range_parts(t) {
                Some(parts) => if group_index(gs, parts.0) is Some {
                    Err(PatternFailure::Invalid("Group subscripts are not supported: "@ + t))
                } else {
                    match super::pattern::range_names(parts) {
                        None => Err(PatternFailure::Invalid("Invalid range: "@ + t)),
                        Some(cands) => match collect_list(hs, cands, depth + 1, (Set::empty(), Seq::empty(), 10000nat)) {
                            Err(e) => Err(PatternFailure::Invalid(e)),
                            Ok(st) => range_result(hs, t, st),
                        },
                    }
                },
                None => if has_wildcard(t) {
                    let rx = seq!['^'] + super::pattern::glob_regex_body(t) + seq!['$'];
                    match crate::patterns::regex_compile_error(rx) {
                        Some(_) => Err(PatternFailure::Invalid(t)),
                        None => Ok(matching_hosts(hs, rx)),
                    }
                } else if group_index(gs, t) is Some {
                    Ok(group_hosts(hs, gs, t))
                } else if host_index(hs, t) is Some {
                    Ok(set![t])
                } else {
                    Err(PatternFailure::Invalid(no_match_message(t)))
                },
            }
        }
    }
}

/// The hosts a range pattern selects once its names are expanded: the hosts
/// found, and those that the candidates with wildcards match; none at all is
/// an error.
pub open spec fn range_result(hs: Seq<Host>, t: Seq<char>, st: RangeState) -> Result<Set<Seq<char>>, PatternFailure> {
    let found = if st.1.len() == 0 {
        Ok(st.0)
    } else {
        match crate::patterns::regex_compile_error(glob_alternation(st.1)) {
            Some(_) => Err(PatternFailure::Invalid(t)),
            None => Ok(st.0.union(matching_hosts(hs, glob_alternation(st.1)))),
        }
    };
    match found {
        Err(e) => Err(e),
        Ok(f) => if f == Set::<Seq<char>>::empty() {
            Err(PatternFailure::Invalid(no_match_message(t)))
        } else {
            Ok(f)
        },
    }
}

/// The hosts that the elements of a compound pattern select, in order: a
/// plain element adds its hosts, `&` keeps only its hosts, `!` removes its hosts.
pub open spec fn combine(hs: Seq<Host>, gs: Seq<Group>, files: LimitFiles, parts: Seq<Seq<char>>, depth: int) -> Result<Set<Seq<char>>, PatternFailure>
    decreases fuel(depth), 2int, parts.len(),
{
    if parts.len() == 0 || depth > 20 {
        Ok(Set::empty())
    } else {
        match combine(hs, gs, files, parts.drop_last(), depth) {
            Err(e) => Err(e),
            Ok(acc) => {
                let t = crate::text::trim_ws(parts.last());
                if t.len() == 0 {
                    Ok(acc)
                } else if t[0] == '&' {
                    match resolve(hs, gs, files, t.drop_first(), depth + 1) {
                        Err(e) => Err(e),
                        Ok(s) => Ok(acc.intersect(s)),
                    }
                } else if t[0] == '!' {
                    match resolve(hs, gs, files, t.drop_first(), depth + 1) {
                        Err(e) => Err(e),
                        Ok(s) => Ok(acc.difference(s)),
                    }
                } else {
                    match resolve(hs, gs, files, t, depth + 1) {
                        Err(e) => Err(e),
                        Ok(s) => Ok(acc.union(s)),
                    }
                }
            },
        }
    }
}

/// Whether a line of a limit file holds a pattern: it is not blank and does
/// not start with `#`.
pub open spec fn is_pattern_line(t: Seq<char>) -> bool {
    t.len() != 0 && t[0] != '#'
}

/// The hosts the lines of a limit file select, and how many lines hold a
/// pattern.
pub open spec fn limit_lines(hs: Seq<Host>, gs: Seq<Group>, files: LimitFiles, lines: Seq<Seq<char>>, depth: int) -> Result<(Set<Seq<char>>, nat), PatternFailure>
    decreases fuel(depth), 2int, lines.len(),
{
    if lines.len() == 0 || depth > 20 {
        Ok((Set::empty(), 0nat))
    } else {
        match limit_lines(hs, gs, files, lines.drop_last(), depth) {
            Err(e) => Err(e),
            Ok(acc) => {
                let t = crate::text::trim_ws(lines.last());
                if !is_pattern_line(t) {
                    Ok(acc)
                } else {
                    match resolve(hs, gs, files, t, depth + 1) {
                        Err(e) => Err(e),
                        Ok(s) => Ok((acc.0.union(s), acc.1 + 1)),
                    }
                }
            },
        }
    }
}

/// The hosts a limit file selects: the union of its lines' patterns.
pub open spec fn limit_file(hs: Seq<Host>, gs: Seq<Group>, files: LimitFiles, path: Seq<char>, depth: int) -> Result<Set<Seq<char>>, PatternFailure>
    decreases fuel(depth), 3int, 0int,
{
    match limit_file_content(files, path) {
        None => Err(PatternFailure::Unread(path)),
        Some(Err(e)) => Err(PatternFailure::Invalid("Cannot read limit file "@ + path + ": "@ + e)),
        Some(Ok(content)) => match limit_lines(hs, gs, files, crate::text::text_lines(content), depth) {
            Err(e) => Err(e),
            Ok(acc) => if acc.1 == 0 {
                Err(PatternFailure::Invalid("Limit file contains no host patterns: "@ + path))
            } else {
                Ok(acc.0)
            },
        },
    }
}

} // verus!

verus! {

use super::pattern::{bracket_depth, pattern_parts};
use crate::text::{trim_ws, trim_start_ws, trim_end_ws, is_whitespace};

/// A text that neither starts nor ends with white space.
pub open spec fn unpadded(s: Seq<char>) -> bool {
    s.len() > 0 && !is_whitespace(s[0]) && !is_whitespace(s.last())
}

proof fn lemma_parts_nonempty(s: Seq<char>)
    ensures
        pattern_parts(s).len() >= 1,
    decreases s.len(),
{
    if s.len() > 0 {
        lemma_parts_nonempty(s.drop_last());
    }
}

/// One element of a host pattern: it holds no `:` outside brackets, and it
/// closes every bracket it opens (ranges such as `web[01:03]` included).
pub open spec fn single_element(s: Seq<char>) -> bool {
    bracket_depth(s) == 0 && pattern_parts(s) == seq![s]
}

/// Text after a prefix that leaves no bracket open is split as on its own,
/// its first element joining the prefix's last one.
proof fn lemma_parts_concat(x: Seq<char>, c: Seq<char>)
    requires
        bracket_depth(x) == 0,
    ensures
        bracket_depth(x + c) == bracket_depth(c),
        pattern_parts(x + c) == pattern_parts(x).drop_last() + seq![pattern_parts(x).last() + pattern_parts(c)[0]]
            + pattern_parts(c).drop_first(),
    decreases c.len(),
{
    lemma_parts_nonempty(x);
    lemma_parts_nonempty(c);
    if c.len() == 0 {
        assert(x + c =~= x);
        assert(pattern_parts(c) =~= seq![Seq::<char>::empty()]);
        assert(pattern_parts(x).last() + Seq::<char>::empty() =~= pattern_parts(x).last());
        assert(pattern_parts(x).drop_last() + seq![pattern_parts(x).last()] =~= pattern_parts(x));
        assert(seq![Seq::<char>::empty()].drop_first() =~= Seq::<Seq<char>>::empty());
    } else {
        let c0 = c.drop_last();
        let ch = c.last();
        lemma_parts_concat(x, c0);
        lemma_parts_nonempty(c0);
        lemma_parts_nonempty(x + c0);
        assert((x + c).drop_last() =~= x + c0);
        assert((x + c).last() == ch);
        let px = pattern_parts(x);
        let pc0 = pattern_parts(c0);
        let pxc0 = pattern_parts(x + c0);
        if ch == ':' && bracket_depth(c0) == 0 {
            assert(pattern_parts(c) == pc0.push(Seq::empty()));
            assert(pattern_parts(x + c) == pxc0.push(Seq::empty()));
            assert(pattern_parts(c)[0] == pc0[0]);
            assert(pattern_parts(c).drop_first() =~= pc0.drop_first().push(Seq::empty()));
            assert(pattern_parts(x + c) =~= px.drop_last() + seq![px.last() + pattern_parts(c)[0]]
                + pattern_parts(c).drop_first());
        } else {
            assert(pattern_parts(c) == pc0.update(pc0.len() - 1, pc0.last().push(ch)));
            assert(pattern_parts(x + c) == pxc0.update(pxc0.len() - 1, pxc0.last().push(ch)));
            if pc0.len() == 1 {
                assert(pattern_parts(c)[0] == pc0[0].push(ch));
                assert(px.last() + pc0[0].push(ch) =~= (px.last() + pc0[0]).push(ch));
                assert(pattern_parts(c).drop_first() =~= Seq::<Seq<char>>::empty());
                assert(pc0.drop_first() =~= Seq::<Seq<char>>::empty());
            } else {
                assert(pattern_parts(c)[0] == pc0[0]);
                assert(pattern_parts(c).drop_first() =~= pc0.drop_first().update(pc0.len() - 2, pc0.last().push(ch)));
            }
            assert(pattern_parts(x + c) =~= px.drop_last() + seq![px.last() + pattern_parts(c)[0]]
                + pattern_parts(c).drop_first());
        }
    }
}

/// The elements of `a:c` for single elements `a` and `c`.
proof fn lemma_two_elements(a: Seq<char>, c: Seq<char>)
    requires
        single_element(a),
        single_element(c),
    ensures
        pattern_parts(a + seq![':'] + c) == seq![a, c],
{
    let ac = a + seq![':'];
    assert(ac.drop_last() =~= a);
    assert(ac.last() == ':');
    assert(pattern_parts(ac) =~= seq![a, Seq::<char>::empty()]);
    assert(bracket_depth(ac) == 0);
    lemma_parts_concat(ac, c);
    assert(seq![a, Seq::<char>::empty()].drop_last() + seq![Seq::<char>::empty() + c] + seq![c].drop_first() =~= seq![a, c]);
}

/// A `&` or `!` before a single element leaves it single.
proof fn lemma_marked_element(m: char, b: Seq<char>)
    requires
        single_element(b),
        m != ':' && m != '[' && m != ']',
    ensures
        single_element(seq![m] + b),
{
    let x = seq![m];
    let e = Seq::<char>::empty();
    assert(x.drop_last() =~= e);
    assert(x.last() == m);
    assert(pattern_parts(e) == seq![e]);
    assert(bracket_depth(e) == 0);
    assert(seq![e].last().push(m) =~= seq![m]);
    assert(pattern_parts(x) =~= seq![seq![m]]);
    assert(bracket_depth(x) == 0);
    lemma_parts_concat(x, b);
    assert(seq![seq![m]].drop_last() + seq![seq![m] + b] + seq![b].drop_first() =~= seq![seq![m] + b]);
}

/// An unpadded text is its own trim.
proof fn lemma_unpadded_trim(s: Seq<char>)
    requires
        unpadded(s),
    ensures
        trim_ws(s) == s,
{
    assert(trim_start_ws(s) == s);
    assert(trim_end_ws(s) == s);
}

/// The elements and trims of a two-element compound pattern.
proof fn lemma_compound(a: Seq<char>, c: Seq<char>)
    requires
        single_element(a),
        single_element(c),
        unpadded(a),
        unpadded(c),
    ensures
        trim_ws(a + seq![':'] + c) == a + seq![':'] + c,
        pattern_parts(a + seq![':'] + c) == seq![a, c],
        a + seq![':'] + c != "all"@,
        a + seq![':'] + c != "*"@,
{
    let p = a + seq![':'] + c;
    lemma_two_elements(a, c);
    assert(p[0] == a[0]);
    assert(p.last() == c.last());
    lemma_unpadded_trim(p);
    assert(p.len() >= 3);
    reveal_strlit("all");
    reveal_strlit("*");
    if p == "all"@ {
        assert(p[a.len() as int] == ':');
        assert("all"@[a.len() as int] != ':');
    }
    if p == "*"@ {
        assert(p.len() == 1);
    }
}

/// A two-element compound pattern resolves its elements in order, the first
/// one alone.
proof fn lemma_combine_two(hs: Seq<Host>, gs: Seq<Group>, files: LimitFiles, a: Seq<char>, c: Seq<char>, depth: int)
    requires
        0 <= depth <= 20,
        trim_ws(a + seq![':'] + c) == a + seq![':'] + c,
        pattern_parts(a + seq![':'] + c) == seq![a, c],
        a + seq![':'] + c != "all"@,
        a + seq![':'] + c != "*"@,
        trim_ws(a) == a,
        trim_ws(c) == c,
        a.len() > 0,
        a[0] != '&' && a[0] != '!',
    ensures
        resolve(hs, gs, files, a + seq![':'] + c, depth) == match resolve(hs, gs, files, a, depth + 1) {
            Err(e) => Err(e),
            Ok(x) => combine_step(hs, gs, files, x, c, depth),
        },
{
    let p = a + seq![':'] + c;
    assert(p.len() > 0);
    assert(resolve(hs, gs, files, p, depth) == combine(hs, gs, files, seq![a, c], depth));
    assert(seq![a, c].drop_last() =~= seq![a]);
    assert(seq![a].drop_last() =~= Seq::<Seq<char>>::empty());
    assert(combine(hs, gs, files, Seq::<Seq<char>>::empty(), depth) == Ok::<Set<Seq<char>>, PatternFailure>(Set::empty()));
    match resolve(hs, gs, files, a, depth + 1) {
        Err(e) => {
            assert(combine(hs, gs, files, seq![a], depth) == Err::<Set<Seq<char>>, PatternFailure>(e));
        },
        Ok(x) => {
            assert(Set::<Seq<char>>::empty().union(x) =~= x);
            assert(combine(hs, gs, files, seq![a], depth) == Ok::<Set<Seq<char>>, PatternFailure>(x));
        },
    }
}

/// One element after the hosts `acc`, as `combine` takes it.
pub open spec fn combine_step(hs: Seq<Host>, gs: Seq<Group>, files: LimitFiles, acc: Set<Seq<char>>, el: Seq<char>, depth: int) -> Result<Set<Seq<char>>, PatternFailure> {
    let t = trim_ws(el);
    if t.len() == 0 {
        Ok(acc)
    } else if t[0] == '&' {
        match resolve(hs, gs, files, t.drop_first(), depth + 1) {
            Err(e) => Err(e),
            Ok(s) => Ok(acc.intersect(s)),
        }
    } else if t[0] == '!' {
        match resolve(hs, gs, files, t.drop_first(), depth + 1) {
            Err(e) => Err(e),
            Ok(s) => Ok(acc.difference(s)),
        }
    } else {
        match resolve(hs, gs, files, t, depth + 1) {
            Err(e) => Err(e),
            Ok(s) => Ok(acc.union(s)),
        }
    }
}

/// For single pattern elements `a` and `b` (no `:` outside brackets, every
/// bracket closed, ranges such as `web[01:03]` included) that neither start
/// nor end with white space, where `a` starts with neither `&` nor `!`, the
/// compound pattern `a:&b` selects the hosts that both `a` and `b` select
/// (each resolved one level deeper); when either fails, the first failure
/// is the answer.
pub proof fn law_pattern_intersection(hs: Seq<Host>, gs: Seq<Group>, files: LimitFiles, a: Seq<char>, b: Seq<char>, depth: int)
    requires
        0 <= depth <= 20,
        single_element(a),
        single_element(b),
        unpadded(a),
        unpadded(b),
        a[0] != '&' && a[0] != '!',
    ensures
        resolve(hs, gs, files, a + ":&"@ + b, depth) == match resolve(hs, gs, files, a, depth + 1) {
            Err(e) => Err(e),
            Ok(x) => match resolve(hs, gs, files, b, depth + 1) {
                Err(e) => Err(e),
                Ok(y) => Ok(x.intersect(y)),
            },
        },
{
    let c = seq!['&'] + b;
    reveal_strlit(":&");
    assert(a + ":&"@ + b =~= a + seq![':'] + c);
    assert(c.drop_first() =~= b);
    lemma_marked_element('&', b);
    assert(c[0] == '&');
    assert(c.last() == b.last());
    lemma_compound(a, c);
    lemma_unpadded_trim(a);
    lemma_unpadded_trim(c);
    lemma_combine_two(hs, gs, files, a, c, depth);
}

/// For patterns `a` and `b` as in `law_pattern_intersection`, `a:!b` selects
/// the hosts of `a` that `b` does not select.
pub proof fn law_pattern_exclusion(hs: Seq<Host>, gs: Seq<Group>, files: LimitFiles, a: Seq<char>, b: Seq<char>, depth: int)
    requires
        0 <= depth <= 20,
        single_element(a),
        single_element(b),
        unpadded(a),
        unpadded(b),
        a[0] != '&' && a[0] != '!',
    ensures
        resolve(hs, gs, files, a + ":!"@ + b, depth) == match resolve(hs, gs, files, a, depth + 1) {
            Err(e) => Err(e),
            Ok(x) => match resolve(hs, gs, files, b, depth + 1) {
                Err(e) => Err(e),
                Ok(y) => Ok(x.difference(y)),
            },
        },
{
    let c = seq!['!'] + b;
    reveal_strlit(":!");
    assert(a + ":!"@ + b =~= a + seq![':'] + c);
    assert(c.drop_first() =~= b);
    lemma_marked_element('!', b);
    assert(c[0] == '!');
    assert(c.last() == b.last());
    lemma_compound(a, c);
    lemma_unpadded_trim(a);
    lemma_unpadded_trim(c);
    lemma_combine_two(hs, gs, files, a, c, depth);
}

/// For patterns `a` and `b` as in `law_pattern_intersection`, where `b`
/// also starts with neither `&` nor `!`, `a:b` selects the hosts that
/// either selects.
pub proof fn law_pattern_union(hs: Seq<Host>, gs: Seq<Group>, files: LimitFiles, a: Seq<char>, b: Seq<char>, depth: int)
    requires
        0 <= depth <= 20,
        single_element(a),
        single_element(b),
        unpadded(a),
        unpadded(b),
        a[0] != '&' && a[0] != '!',
        b[0] != '&' && b[0] != '!',
    ensures
        resolve(hs, gs, files, a + ":"@ + b, depth) == match resolve(hs, gs, files, a, depth + 1) {
            Err(e) => Err(e),
            Ok(x) => match resolve(hs, gs, files, b, depth + 1) {
                Err(e) => Err(e),
                Ok(y) => Ok(x.union(y)),
            },
        },
{
    reveal_strlit(":");
    assert(a + ":"@ + b =~= a + seq![':'] + b);
    lemma_compound(a, b);
    lemma_unpadded_trim(a);
    lemma_unpadded_trim(b);
    lemma_combine_two(hs, gs, files, a, b, depth);
}


/// A pattern that resolves at depth `e` resolves the same way at any
/// shallower depth `d`: depth only ever adds the nesting-limit failure.
proof fn lemma_resolve_shallower(hs: Seq<Host>, gs: Seq<Group>, files: LimitFiles, p: Seq<char>, d: int, e: int)
    requires
        0 <= d <= e,
        resolve(hs, gs, files, p, e) is Ok,
    ensures
        resolve(hs, gs, files, p, d) == resolve(hs, gs, files, p, e),
    decreases fuel(e), 4int, 0int,
{
    let t = trim_ws(p);
    if t.len() == 0 || t == "all"@ || t == "*"@ {
    } else if pattern_parts(t).len() > 1 {
        lemma_combine_shallower(hs, gs, files, pattern_parts(t), d, e);
    } else if t[0] == '@' {
        lemma_limit_file_shallower(hs, gs, files, t.drop_first(), d, e);
    } else if t[0] == '~' {
    } else {
        match super::pattern::range_parts(t) {
            Some(parts) => {
                if !(group_index(gs, parts.0) is Some) {
                    match super::pattern::range_names(parts) {
                        Some(cands) => {
                            lemma_collect_list_shallower(hs, cands, d + 1, e + 1, (Set::empty(), Seq::empty(), 10000nat));
                        },
                        None => {},
                    }
                }
            },
            None => {},
        }
    }
}

proof fn lemma_combine_shallower(hs: Seq<Host>, gs: Seq<Group>, files: LimitFiles, parts: Seq<Seq<char>>, d: int, e: int)
    requires
        0 <= d <= e <= 20,
        combine(hs, gs, files, parts, e) is Ok,
    ensures
        combine(hs, gs, files, parts, d) == combine(hs, gs, files, parts, e),
    decreases fuel(e), 2int, parts.len(),
{
    if parts.len() > 0 {
        lemma_combine_shallower(hs, gs, files, parts.drop_last(), d, e);
        let t = trim_ws(parts.last());
        if t.len() == 0 {
        } else if t[0] == '&' || t[0] == '!' {
            lemma_resolve_shallower(hs, gs, files, t.drop_first(), d + 1, e + 1);
        } else {
            lemma_resolve_shallower(hs, gs, files, t, d + 1, e + 1);
        }
    }
}

proof fn lemma_limit_file_shallower(hs: Seq<Host>, gs: Seq<Group>, files: LimitFiles, path: Seq<char>, d: int, e: int)
    requires
        0 <= d <= e <= 20,
        limit_file(hs, gs, files, path, e) is Ok,
    ensures
        limit_file(hs, gs, files, path, d) == limit_file(hs, gs, files, path, e),
    decreases fuel(e), 3int, 0int,
{
    match limit_file_content(files, path) {
        Some(Ok(content)) => {
            lemma_limit_lines_shallower(hs, gs, files, crate::text::text_lines(content), d, e);
        },
        _ => {},
    }
}

proof fn lemma_limit_lines_shallower(hs: Seq<Host>, gs: Seq<Group>, files: LimitFiles, lines: Seq<Seq<char>>, d: int, e: int)
    requires
        0 <= d <= e <= 20,
        limit_lines(hs, gs, files, lines, e) is Ok,
    ensures
        limit_lines(hs, gs, files, lines, d) == limit_lines(hs, gs, files, lines, e),
    decreases fuel(e), 2int, lines.len(),
{
    if lines.len() > 0 {
        lemma_limit_lines_shallower(hs, gs, files, lines.drop_last(), d, e);
        let t = trim_ws(lines.last());
        if is_pattern_line(t) {
            lemma_resolve_shallower(hs, gs, files, t, d + 1, e + 1);
        }
    }
}

proof fn lemma_collect_list_shallower(hs: Seq<Host>, cs: Seq<Seq<char>>, d: int, e: int, st: RangeState)
    requires
        0 <= d <= e,
        collect_list(hs, cs, e, st) is Ok,
    ensures
        collect_list(hs, cs, d, st) == collect_list(hs, cs, e, st),
    decreases fuel(e), 1int, cs.len(),
{
    if cs.len() > 0 {
        lemma_collect_list_shallower(hs, cs.drop_last(), d, e, st);
        let s2 = collect_list(hs, cs.drop_last(), e, st)->Ok_0;
        lemma_collect_one_shallower(hs, cs.last(), d, e, s2);
    }
}

proof fn lemma_collect_one_shallower(hs: Seq<Host>, c: Seq<char>, d: int, e: int, st: RangeState)
    requires
        0 <= d <= e,
        collect_one(hs, c, e, st) is Ok,
    ensures
        collect_one(hs, c, d, st) == collect_one(hs, c, e, st),
    decreases fuel(e), 0int, 0int,
{
    if st.2 > 0 {
        let st1 = (st.0, st.1, (st.2 - 1) as nat);
        match super::pattern::range_parts(c) {
            Some(parts) => match super::pattern::range_names(parts) {
                Some(nested) => {
                    lemma_collect_list_shallower(hs, nested, d + 1, e + 1, st1);
                },
                None => {},
            },
            None => {},
        }
    }
}

/// What a pattern selects when it resolves: the hosts, or none on failure.
pub open spec fn selected(hs: Seq<Host>, gs: Seq<Group>, files: LimitFiles, p: Seq<char>) -> Set<Seq<char>> {
    match resolve(hs, gs, files, p, 0) {
        Ok(s) => s,
        Err(_) => Set::empty(),
    }
}

/// Whether a pattern resolves one level below the top, so that the nesting
/// limit does not decide it when it stands as an element of a compound pattern.
pub open spec fn resolves_nested(hs: Seq<Host>, gs: Seq<Group>, files: LimitFiles, p: Seq<char>) -> bool {
    resolve(hs, gs, files, p, 1) is Ok
}

/// A white-space character is none of the characters that patterns treat
/// specially.
proof fn lemma_ws_plain(c: char)
    requires
        is_whitespace(c),
    ensures
        c != ':' && c != '[' && c != ']' && c != '&' && c != '!',
{
}

/// Text whose characters are all white space.
pub open spec fn all_ws(w: Seq<char>) -> bool {
    forall|k: int| 0 <= k < w.len() ==> is_whitespace(#[trigger] w[k])
}

proof fn lemma_ws_parts(w: Seq<char>)
    requires
        all_ws(w),
    ensures
        bracket_depth(w) == 0,
        pattern_parts(w) == seq![w],
    decreases w.len(),
{
    if w.len() > 0 {
        let w0 = w.drop_last();
        assert(all_ws(w0)) by {
            assert forall|k: int| 0 <= k < w0.len() implies is_whitespace(#[trigger] w0[k]) by {
                assert(w0[k] == w[k]);
            }
        }
        lemma_ws_parts(w0);
        lemma_ws_plain(w[w.len() - 1]);
        assert(w0.push(w.last()) =~= w);
        assert(seq![w0].update(0, w0.push(w.last())) =~= seq![w]);
    }
}

/// Appending white space keeps the bracket depth and extends the last element.
proof fn lemma_parts_append_ws(x: Seq<char>, w: Seq<char>)
    requires
        all_ws(w),
    ensures
        bracket_depth(x + w) == bracket_depth(x),
        pattern_parts(x + w) == pattern_parts(x).update(pattern_parts(x).len() - 1, pattern_parts(x).last() + w),
    decreases w.len(),
{
    lemma_parts_nonempty(x);
    if w.len() == 0 {
        assert(x + w =~= x);
        assert(pattern_parts(x).last() + w =~= pattern_parts(x).last());
        assert(pattern_parts(x).update(pattern_parts(x).len() - 1, pattern_parts(x).last()) =~= pattern_parts(x));
    } else {
        let w0 = w.drop_last();
        assert(all_ws(w0)) by {
            assert forall|k: int| 0 <= k < w0.len() implies is_whitespace(#[trigger] w0[k]) by {
                assert(w0[k] == w[k]);
            }
        }
        lemma_parts_append_ws(x, w0);
        let l = w.last();
        lemma_ws_plain(w[w.len() - 1]);
        assert((x + w).drop_last() =~= x + w0);
        assert((x + w).last() == l);
        lemma_parts_nonempty(x + w0);
        let p = pattern_parts(x);
        assert(p.last() + w =~= (p.last() + w0).push(l));
        assert(pattern_parts(x + w) =~= p.update(p.len() - 1, p.last() + w));
    }
}

/// Stripping leading white space: the stripped text follows white space.
proof fn lemma_trim_start_shape(s: Seq<char>)
    ensures
        trim_start_ws(s).len() <= s.len(),
        trim_start_ws(s) == s.skip(s.len() - trim_start_ws(s).len()),
        all_ws(s.take(s.len() - trim_start_ws(s).len())),
        trim_start_ws(s).len() == 0 || !is_whitespace(trim_start_ws(s)[0]),
    decreases s.len(),
{
    if s.len() > 0 && is_whitespace(s[0]) {
        lemma_trim_start_shape(s.drop_first());
        let t = trim_start_ws(s);
        let k = s.len() - t.len();
        assert(s.skip(k) =~= s.drop_first().skip(s.drop_first().len() - t.len()));
        assert forall|m: int| 0 <= m < k implies is_whitespace(#[trigger] s.take(k)[m]) by {
            if m > 0 {
                assert(s.take(k)[m] == s.drop_first().take(k - 1)[m - 1]);
            }
        }
    } else {
        assert(s.skip(0) =~= s);
    }
}

/// Stripping trailing white space: the stripped text is followed by white space.
proof fn lemma_trim_end_shape(s: Seq<char>)
    ensures
        trim_end_ws(s).len() <= s.len(),
        trim_end_ws(s) == s.take(trim_end_ws(s).len() as int),
        all_ws(s.skip(trim_end_ws(s).len() as int)),
        trim_end_ws(s).len() == 0 || !is_whitespace(trim_end_ws(s).last()),
    decreases s.len(),
{
    if s.len() > 0 && is_whitespace(s.last()) {
        lemma_trim_end_shape(s.drop_last());
        let t = trim_end_ws(s);
        let k = t.len() as int;
        assert(s.take(k) =~= s.drop_last().take(k));
        assert forall|m: int| 0 <= m < s.len() - k implies is_whitespace(#[trigger] s.skip(k)[m]) by {
            if m < s.len() - k - 1 {
                assert(s.skip(k)[m] == s.drop_last().skip(k)[m]);
            }
        }
    } else {
        assert(s.take(s.len() as int) =~= s);
        assert(s.skip(s.len() as int) =~= Seq::<char>::empty());
    }
}

/// A text that starts with a character other than white space keeps it.
proof fn lemma_trim_start_join(a: Seq<char>, r: Seq<char>)
    requires
        r.len() > 0,
        !is_whitespace(r[0]),
    ensures
        trim_start_ws(a + r) == trim_start_ws(a) + r,
    decreases a.len(),
{
    if a.len() == 0 {
        assert(a + r =~= r);
        assert(trim_start_ws(a) + r =~= r);
    } else {
        assert((a + r)[0] == a[0]);
        if is_whitespace(a[0]) {
            assert((a + r).drop_first() =~= a.drop_first() + r);
            lemma_trim_start_join(a.drop_first(), r);
        }
    }
}

/// A text that ends with a character other than white space keeps it.
proof fn lemma_trim_end_join(l: Seq<char>, b: Seq<char>)
    requires
        l.len() > 0,
        !is_whitespace(l.last()),
    ensures
        trim_end_ws(l + b) == l + trim_end_ws(b),
    decreases b.len(),
{
    if b.len() == 0 {
        assert(l + b =~= l);
        assert(l + trim_end_ws(b) =~= l);
    } else {
        assert((l + b).last() == b.last());
        if is_whitespace(b.last()) {
            assert((l + b).drop_last() =~= l + b.drop_last());
            lemma_trim_end_join(l, b.drop_last());
        }
    }
}

/// Trimming, after stripping either end first, gives the same text; the
/// trimmed text is its own trim and neither starts nor ends with white space.
proof fn lemma_trim_core(b: Seq<char>)
    ensures
        trim_ws(trim_start_ws(b)) == trim_ws(b),
        trim_ws(trim_end_ws(b)) == trim_ws(b),
        trim_ws(trim_ws(b)) == trim_ws(b),
        trim_ws(b).len() == 0 || (!is_whitespace(trim_ws(b)[0]) && !is_whitespace(trim_ws(b).last())),
{
    let ts = trim_start_ws(b);
    let te = trim_end_ws(b);
    lemma_trim_start_shape(b);
    lemma_trim_end_shape(b);
    // Stripping the start of what has no leading white space changes nothing.
    assert(trim_start_ws(ts) == ts);
    let i = b.len() - ts.len();
    let j = te.len() as int;
    lemma_trim_end_shape(ts);
    lemma_trim_start_shape(te);
    let core = trim_ws(b);
    if ts.len() == 0 {
        // All white space: stripping either end leaves nothing.
        assert(all_ws(b)) by {
            assert(b.take(i) =~= b);
        }
        assert(te.len() == 0) by {
            if te.len() > 0 {
                assert(te.last() == b[j - 1]);
                assert(b.take(i)[j - 1] == b[j - 1]);
            }
        }
        assert(trim_start_ws(te) == te);
    } else {
        // b[i] is the first character that is not white space, b[j - 1] the last.
        assert(b[i] == ts[0]);
        assert(te.len() > 0) by {
            if te.len() == 0 {
                assert(b.skip(0)[i] == b[i]);
            }
        }
        assert(b[j - 1] == te.last());
        assert(i < j) by {
            if i >= j {
                assert(b.skip(j)[i - j] == b[i]);
            }
            if i < j - 1 {
            }
        }
        let mid = b.subrange(i, j);
        // trim_end(ts) == mid
        lemma_trim_end_unique(ts, j - i);
        assert(ts.take(j - i) =~= mid);
        // trim_start(te) == mid
        lemma_trim_start_unique(te, i);
        assert(te.skip(i) =~= mid);
        assert(mid[0] == b[i]);
        assert(mid.last() == b[j - 1]);
        assert(trim_start_ws(mid) == mid);
        assert(trim_end_ws(mid) == mid);
    }
}

proof fn lemma_trim_end_unique(s: Seq<char>, k: int)
    requires
        0 < k <= s.len(),
        all_ws(s.skip(k)),
        !is_whitespace(s[k - 1]),
    ensures
        trim_end_ws(s) == s.take(k),
    decreases s.len(),
{
    if s.len() > k {
        assert(s.last() == s.skip(k)[s.len() - k - 1]);
        let s0 = s.drop_last();
        assert(all_ws(s0.skip(k))) by {
            assert forall|m: int| 0 <= m < s0.skip(k).len() implies is_whitespace(#[trigger] s0.skip(k)[m]) by {
                assert(s0.skip(k)[m] == s.skip(k)[m]);
            }
        }
        lemma_trim_end_unique(s0, k);
        assert(s0.take(k) =~= s.take(k));
    } else {
        assert(s.take(k) =~= s);
    }
}

proof fn lemma_trim_start_unique(s: Seq<char>, k: int)
    requires
        0 <= k < s.len(),
        all_ws(s.take(k)),
        !is_whitespace(s[k]),
    ensures
        trim_start_ws(s) == s.skip(k),
    decreases k,
{
    if k > 0 {
        assert(s[0] == s.take(k)[0]);
        let s1 = s.drop_first();
        assert(all_ws(s1.take(k - 1))) by {
            assert forall|m: int| 0 <= m < k - 1 implies is_whitespace(#[trigger] s1.take(k - 1)[m]) by {
                assert(s1.take(k - 1)[m] == s.take(k)[m + 1]);
            }
        }
        lemma_trim_start_unique(s1, k - 1);
        assert(s1.skip(k - 1) =~= s.skip(k));
    } else {
        assert(s.skip(0) =~= s);
    }
}


/// Stripping white space from either end of a single element leaves a
/// single element.
proof fn lemma_single_trims(a: Seq<char>)
    requires
        single_element(a),
    ensures
        single_element(trim_start_ws(a)),
        single_element(trim_end_ws(a)),
{
    lemma_trim_start_shape(a);
    lemma_trim_end_shape(a);
    let a1 = trim_start_ws(a);
    let w = a.take(a.len() - a1.len());
    assert(a =~= w + a1);
    lemma_ws_parts(w);
    lemma_parts_concat(w, a1);
    lemma_parts_nonempty(a1);
    let q = pattern_parts(a1);
    assert(seq![w].drop_last() + seq![w + q[0]] + q.drop_first() == seq![a]);
    assert((seq![w].drop_last() + seq![w + q[0]] + q.drop_first()).len() == 1 + q.drop_first().len());
    assert(q.len() == 1);
    let lhs = seq![w].drop_last() + seq![w + q[0]] + q.drop_first();
    assert(lhs =~= seq![w + q[0]]);
    assert(lhs[0] == seq![a][0]);
    assert(w + q[0] == a);
    assert(q[0] =~= (w + q[0]).skip(w.len() as int));
    assert(a1 =~= a.skip(w.len() as int));
    assert(q =~= seq![a1]);
    let c1 = trim_end_ws(a);
    let v = a.skip(c1.len() as int);
    assert(a =~= c1 + v);
    lemma_parts_append_ws(c1, v);
    lemma_parts_nonempty(c1);
    let r = pattern_parts(c1);
    assert(r.update(r.len() - 1, r.last() + v).len() == r.len());
    assert(r.len() == 1);
    assert(r.update(0, r[0] + v)[0] == r[0] + v);
    assert(r[0] + v == a);
    assert(r[0] =~= (r[0] + v).take(r[0].len() as int));
    assert(r[0].len() == c1.len());
    assert(c1 =~= a.take(c1.len() as int));
    assert(r =~= seq![c1]);
}

/// A pattern resolves as its trimmed text does, below the nesting limit.
proof fn lemma_resolve_trim(hs: Seq<Host>, gs: Seq<Group>, files: LimitFiles, p: Seq<char>, d: int)
    requires
        d <= 20,
    ensures
        resolve(hs, gs, files, p, d) == resolve(hs, gs, files, trim_ws(p), d),
{
    lemma_trim_core(p);
}

/// The first element of a compound pattern stands alone; neither
/// starts with `&` or `!` once trimmed.
pub open spec fn leads_plain(a: Seq<char>) -> bool {
    trim_ws(a).len() > 0 ==> trim_ws(a)[0] != '&' && trim_ws(a)[0] != '!'
}

/// `a:c` for single elements, white space around them allowed: the first
/// element is resolved, then the second is taken as `combine` takes it.
proof fn lemma_padded_compound(hs: Seq<Host>, gs: Seq<Group>, files: LimitFiles, a: Seq<char>, c: Seq<char>, d: int)
    requires
        0 <= d <= 19,
        single_element(a),
        single_element(c),
        leads_plain(a),
    ensures
        resolve(hs, gs, files, a + seq![':'] + c, d) == match resolve(hs, gs, files, a, d + 1) {
            Err(e) => Err(e),
            Ok(x) => combine_step(hs, gs, files, x, c, d),
        },
{
    let p = a + seq![':'] + c;
    let a1 = trim_start_ws(a);
    let c1 = trim_end_ws(c);
    lemma_trim_start_join(a, seq![':'] + c);
    assert(p =~= a + (seq![':'] + c));
    assert(trim_start_ws(p) == a1 + (seq![':'] + c));
    lemma_trim_end_join(a1 + seq![':'], c);
    assert(a1 + (seq![':'] + c) =~= (a1 + seq![':']) + c);
    let q = a1 + seq![':'] + c1;
    assert(trim_ws(p) == q);
    lemma_single_trims(a);
    lemma_single_trims(c);
    lemma_two_elements(a1, c1);
    assert(q[a1.len() as int] == ':');
    reveal_strlit("all");
    reveal_strlit("*");
    assert(q != "all"@) by {
        if q == "all"@ {
            assert("all"@[a1.len() as int] != ':');
        }
    }
    assert(q != "*"@) by {
        if q == "*"@ {
            assert("*"@[a1.len() as int] != ':');
        }
    }
    assert(resolve(hs, gs, files, p, d) == combine(hs, gs, files, seq![a1, c1], d));
    assert(seq![a1, c1].drop_last() =~= seq![a1]);
    assert(seq![a1].drop_last() =~= Seq::<Seq<char>>::empty());
    lemma_trim_core(a);
    lemma_trim_core(c);
    assert(trim_ws(a1) == trim_ws(a));
    assert(trim_ws(c1) == trim_ws(c));
    let t = trim_ws(a);
    lemma_resolve_trim(hs, gs, files, a, d + 1);
    assert(combine(hs, gs, files, Seq::<Seq<char>>::empty(), d) == Ok::<Set<Seq<char>>, PatternFailure>(Set::empty()));
    if t.len() == 0 {
        assert(combine(hs, gs, files, seq![a1], d) == Ok::<Set<Seq<char>>, PatternFailure>(Set::empty()));
    } else {
        match resolve(hs, gs, files, t, d + 1) {
            Err(e) => {
                assert(combine(hs, gs, files, seq![a1], d) == Err::<Set<Seq<char>>, PatternFailure>(e));
            },
            Ok(x) => {
                assert(Set::<Seq<char>>::empty().union(x) =~= x);
                assert(combine(hs, gs, files, seq![a1], d) == Ok::<Set<Seq<char>>, PatternFailure>(x));
            },
        }
    }
}

/// Selecting `a:b`, where `a` and `b` are single elements (ranges such as
/// `web[01:03]` included, white space around them allowed), neither starting
/// with `&` or `!`, and both resolve as elements: the hosts that either
/// selects.
pub proof fn law_selection_union(hs: Seq<Host>, gs: Seq<Group>, files: LimitFiles, a: Seq<char>, b: Seq<char>)
    requires
        single_element(a),
        single_element(b),
        leads_plain(a),
        leads_plain(b),
        resolves_nested(hs, gs, files, a),
        resolves_nested(hs, gs, files, b),
    ensures
        resolve(hs, gs, files, a, 0) is Ok,
        resolve(hs, gs, files, b, 0) is Ok,
        resolve(hs, gs, files, a + ":"@ + b, 0) is Ok,
        selected(hs, gs, files, a + ":"@ + b) == selected(hs, gs, files, a).union(selected(hs, gs, files, b)),
{
    reveal_strlit(":");
    assert(a + ":"@ + b =~= a + seq![':'] + b);
    lemma_padded_compound(hs, gs, files, a, b, 0);
    lemma_trim_core(b);
    lemma_resolve_trim(hs, gs, files, b, 1);
    lemma_resolve_shallower(hs, gs, files, a, 0, 1);
    lemma_resolve_shallower(hs, gs, files, b, 0, 1);
    let x = resolve(hs, gs, files, a, 1)->Ok_0;
    if trim_ws(b).len() == 0 {
        assert(resolve(hs, gs, files, trim_ws(b), 1) == Ok::<Set<Seq<char>>, PatternFailure>(Set::empty()));
        assert(x.union(Set::<Seq<char>>::empty()) =~= x);
    }
}

/// The trimmed text of `m` followed by `b`, for `m` not white space.
proof fn lemma_marked_trim(hs: Seq<Host>, gs: Seq<Group>, files: LimitFiles, m: char, b: Seq<char>)
    requires
        !is_whitespace(m),
    ensures
        trim_ws(seq![m] + b).len() > 0,
        trim_ws(seq![m] + b)[0] == m,
        resolve(hs, gs, files, trim_ws(seq![m] + b).drop_first(), 1) == resolve(hs, gs, files, b, 1),
{
    let c = seq![m] + b;
    assert(c[0] == m);
    assert(trim_start_ws(c) == c);
    lemma_trim_end_join(seq![m], b);
    let t = seq![m] + trim_end_ws(b);
    assert(trim_ws(c) == t);
    assert(t.drop_first() =~= trim_end_ws(b));
    lemma_trim_core(b);
    lemma_resolve_trim(hs, gs, files, trim_end_ws(b), 1);
    lemma_resolve_trim(hs, gs, files, b, 1);
}

/// Selecting `a:&b` for elements `a` and `b` as in `law_selection_union`
/// (`b` may start with `&` or `!`): the hosts that both select.
pub proof fn law_selection_intersection(hs: Seq<Host>, gs: Seq<Group>, files: LimitFiles, a: Seq<char>, b: Seq<char>)
    requires
        single_element(a),
        single_element(b),
        leads_plain(a),
        resolves_nested(hs, gs, files, a),
        resolves_nested(hs, gs, files, b),
    ensures
        resolve(hs, gs, files, a, 0) is Ok,
        resolve(hs, gs, files, b, 0) is Ok,
        resolve(hs, gs, files, a + ":&"@ + b, 0) is Ok,
        selected(hs, gs, files, a + ":&"@ + b) == selected(hs, gs, files, a).intersect(selected(hs, gs, files, b)),
{
    let c = seq!['&'] + b;
    reveal_strlit(":&");
    assert(a + ":&"@ + b =~= a + seq![':'] + c);
    lemma_marked_element('&', b);
    lemma_padded_compound(hs, gs, files, a, c, 0);
    lemma_marked_trim(hs, gs, files, '&', b);
    lemma_resolve_shallower(hs, gs, files, a, 0, 1);
    lemma_resolve_shallower(hs, gs, files, b, 0, 1);
}

/// Selecting `a:!b` for elements `a` and `b` as in
/// `law_selection_intersection`: the hosts of `a` that `b` does not select.
pub proof fn law_selection_exclusion(hs: Seq<Host>, gs: Seq<Group>, files: LimitFiles, a: Seq<char>, b: Seq<char>)
    requires
        single_element(a),
        single_element(b),
        leads_plain(a),
        resolves_nested(hs, gs, files, a),
        resolves_nested(hs, gs, files, b),
    ensures
        resolve(hs, gs, files, a, 0) is Ok,
        resolve(hs, gs, files, b, 0) is Ok,
        resolve(hs, gs, files, a + ":!"@ + b, 0) is Ok,
        selected(hs, gs, files, a + ":!"@ + b) == selected(hs, gs, files, a).difference(selected(hs, gs, files, b)),
{
    let c = seq!['!'] + b;
    reveal_strlit(":!");
    assert(a + ":!"@ + b =~= a + seq![':'] + c);
    lemma_marked_element('!', b);
    lemma_padded_compound(hs, gs, files, a, c, 0);
    lemma_marked_trim(hs, gs, files, '!', b);
    lemma_resolve_shallower(hs, gs, files, a, 0, 1);
    lemma_resolve_shallower(hs, gs, files, b, 0, 1);
}

} // verus!
