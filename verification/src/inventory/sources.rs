//! What the files of an inventory hold: which format a file is in, and the
//! variables of `group_vars` and `host_vars` files.
use vstd::prelude::*;
use super::graph::find_group;
use super::group::{Group, empty_group};
use super::host::VarValue;
use super::{find_host, host_index, Inventory, InventoryError};
use super::graph::group_index;
use crate::assoc::{entries, merged};
use crate::text::{chars_of, has_prefix, has_suffix, str_equal, str_to_lowercase, text_lines, trim_ws, lowercase};

verus! {

broadcast use vstd::seq_lib::group_seq_properties;

/// The formats of inventory files.
#[derive(Debug, Clone, Copy, PartialEq, Eq, Structural)]
pub enum InventoryFormat {
    Yaml,
    Json,
    Ini,
}

/// The first line that is neither blank nor a `#` comment, if any.
pub open spec fn first_pattern_line(lines: Seq<Seq<char>>) -> Option<Seq<char>>
    decreases lines.len(),
{
    if lines.len() == 0 {
        None
    } else {
        let t = trim_ws(lines[0]);
        if t.len() != 0 && t[0] != '#' {
            Some(lines[0])
        } else {
            first_pattern_line(lines.drop_first())
        }
    }
}

/// The format of an inventory file by its contents: `{` opens JSON; a first
/// line in brackets without `{` is an INI section, other brackets JSON; a
/// first line with `:` and no `=` is YAML; anything else is INI.
pub open spec fn content_format(content: Seq<char>) -> InventoryFormat {
    let trimmed = trim_ws(content);
    let first = match first_pattern_line(text_lines(trimmed)) {
        Some(l) => l,
        None => trimmed,
    };
    if trimmed.len() > 0 && trimmed[0] == '{' {
        InventoryFormat::Json
    } else if first.len() > 0 && first[0] == '[' {
        if first.last() == ']' && !first.contains('{') {
            InventoryFormat::Ini
        } else {
            InventoryFormat::Json
        }
    } else if first.contains(':') && !first.contains('=') {
        InventoryFormat::Yaml
    } else {
        InventoryFormat::Ini
    }
}

/// The format of an inventory file: by its extension (`yml`, `yaml`,
/// `json`, `ini`, in any case), else by its contents.
pub open spec fn file_format(extension: Seq<char>, content: Seq<char>) -> InventoryFormat {
    let e = lowercase(extension);
    if e == "yml"@ || e == "yaml"@ {
        InventoryFormat::Yaml
    } else if e == "json"@ {
        InventoryFormat::Json
    } else if e == "ini"@ {
        InventoryFormat::Ini
    } else {
        content_format(content)
    }
}

fn contains_char(s: &[char], c: char) -> (r: bool)
    ensures
        r == s@.contains(c),
{
    let mut i: usize = 0;
    while i < s.len()
        invariant
            i <= s@.len(),
            forall|k: int| 0 <= k < i ==> s@[k] != c,
        decreases s@.len() - i,
    {
        if s[i] == c {
            return true;
        }
        i = i + 1;
    }
    false
}

/// The position of the first line that is neither blank nor a comment.
fn first_pattern_index(lines: &Vec<Vec<char>>) -> (r: Option<usize>)
    ensures
        match first_pattern_line(lines@.map_values(|l: Vec<char>| l@)) {
            Some(l) => r is Some && r.unwrap() < lines@.len() && lines@[r.unwrap() as int]@ == l,
            None => r is None,
        },
{
    let ghost ls = lines@.map_values(|l: Vec<char>| l@);
    let mut i: usize = 0;
    proof {
        assert(ls.skip(0) =~= ls);
    }
    while i < lines.len()
        invariant
            i <= lines@.len(),
            ls == lines@.map_values(|l: Vec<char>| l@),
            first_pattern_line(ls) == first_pattern_line(ls.skip(i as int)),
        decreases lines@.len() - i,
    {
        proof {
            assert(ls.skip(i as int).drop_first() =~= ls.skip(i + 1));
            assert(ls.skip(i as int)[0] == lines@[i as int]@);
        }
        let t = crate::text::trim(lines[i].as_slice());
        if t.len() != 0 && t[0] != '#' {
            return Some(i);
        }
        i = i + 1;
    }
    None
}

/// The format of an inventory file with this extension and content.
pub fn detect_format(extension: &str, content: &str) -> (f: InventoryFormat)
    ensures
        f == file_format(extension@, content@),
{
    let e = str_to_lowercase(extension);
    if str_equal(e.as_str(), "yml") || str_equal(e.as_str(), "yaml") {
        return InventoryFormat::Yaml;
    }
    if str_equal(e.as_str(), "json") {
        return InventoryFormat::Json;
    }
    if str_equal(e.as_str(), "ini") {
        return InventoryFormat::Ini;
    }
    let cs = chars_of(content);
    let trimmed = crate::text::trim(&cs);
    let lines = crate::text::lines_of(&trimmed);
    let ghost ls = lines@.map_values(|l: Vec<char>| l@);
    let first: Vec<char> = match first_pattern_index(&lines) {
        Some(k) => lines[k].clone(),
        None => trimmed.clone(),
    };
    proof {
        assert(first@ == match first_pattern_line(ls) {
            Some(l) => l,
            None => trimmed@,
        });
    }
    if trimmed.len() > 0 && trimmed[0] == '{' {
        return InventoryFormat::Json;
    }
    let n = first.len();
    if n > 0 && first[0] == '[' {
        if first[n - 1] == ']' && !contains_char(&first, '{') {
            return InventoryFormat::Ini;
        }
        return InventoryFormat::Json;
    }
    if contains_char(&first, ':') && !contains_char(&first, '=') {
        return InventoryFormat::Yaml;
    }
    InventoryFormat::Ini
}

impl Inventory {
    /// Merges the variables of a `group_vars` entry into the group of that
    /// name; when there is none, `create` makes it (a file does, a directory
    /// does not).
    pub fn merge_group_vars(&mut self, group: &str, vars: &Vec<(String, VarValue)>, create: bool)
        ensures
            final(self).hosts_view() == old(self).hosts_view(),
            match group_index(old(self).groups_view(), group@) {
                Some(i) => final(self).groups_view().len() == old(self).groups_view().len()
                    && (forall|k: int| 0 <= k < old(self).groups_view().len() && k != i ==> #[trigger] final(self).groups_view()[k] == old(self).groups_view()[k])
                    && entries(final(self).groups_view()[i].vars@) == merged(entries(old(self).groups_view()[i].vars@), entries(vars@))
                    && final(self).groups_view()[i].name == old(self).groups_view()[i].name
                    && final(self).groups_view()[i].hosts == old(self).groups_view()[i].hosts
                    && final(self).groups_view()[i].children == old(self).groups_view()[i].children
                    && final(self).groups_view()[i].parents == old(self).groups_view()[i].parents,
                None => if create {
                    &&& final(self).groups_view().len() == old(self).groups_view().len() + 1
                    &&& final(self).groups_view().drop_last() == old(self).groups_view()
                    &&& final(self).groups_view().last().name@ == group@
                    &&& final(self).groups_view().last().hosts@.len() == 0
                    &&& final(self).groups_view().last().children@.len() == 0
                    &&& final(self).groups_view().last().parents@.len() == 0
                    &&& entries(final(self).groups_view().last().vars@) == merged(Seq::empty(), entries(vars@))
                } else {
                    final(self).groups_view() == old(self).groups_view()
                },
            },
    {
        match find_group(&self.groups, group) {
            Some(i) => {
                let ghost before = self.groups@;
                self.groups[i].merge_vars(vars);
                proof {
                    assert(forall|k: int| 0 <= k < before.len() && k != i ==> #[trigger] self.groups@[k] == before[k]);
                }
            },
            None => {
                if create {
                    let mut g = Group::new(group);
                    proof {
                        assert(entries(g.vars@) =~= Seq::<(Seq<char>, VarValue)>::empty());
                    }
                    g.merge_vars(vars);
                    let ghost before = self.groups@;
                    self.groups.push(g);
                    proof {
                        assert(self.groups@.drop_last() =~= before);
                    }
                }
            },
        }
    }

    /// Merges the variables of a `host_vars` entry into the host of that
    /// name, when there is one.
    pub fn merge_host_vars(&mut self, host: &str, vars: &Vec<(String, VarValue)>)
        ensures
            final(self).groups_view() == old(self).groups_view(),
            match host_index(old(self).hosts_view(), host@) {
                Some(i) => final(self).hosts_view().len() == old(self).hosts_view().len()
                    && (forall|k: int| 0 <= k < old(self).hosts_view().len() && k != i ==> #[trigger] final(self).hosts_view()[k] == old(self).hosts_view()[k])
                    && entries(final(self).hosts_view()[i].vars@) == merged(entries(old(self).hosts_view()[i].vars@), entries(vars@))
                    && super::host::same_settings(final(self).hosts_view()[i], old(self).hosts_view()[i])
                    && final(self).hosts_view()[i].groups == old(self).hosts_view()[i].groups,
                None => final(self).hosts_view() == old(self).hosts_view(),
            },
    {
        match find_host(&self.hosts, host) {
            Some(i) => {
                let ghost before = self.hosts@;
                self.hosts[i].merge_vars(vars);
                proof {
                    assert(forall|k: int| 0 <= k < before.len() && k != i ==> #[trigger] self.hosts@[k] == before[k]);
                }
            },
            None => {},
        }
    }

    /// Finishes loading: checks that no group is its own descendant, then
    /// recomputes every group's parents from the children.
    pub fn finish_loading(&mut self) -> (r: Result<(), InventoryError>)
        ensures
            super::graph::has_cycle(old(self).groups_view()) ==> (r matches Err(InventoryError::CircularDependency(_)))
                && final(self).groups_view() == old(self).groups_view(),
            !super::graph::has_cycle(old(self).groups_view()) ==> r is Ok && super::graph::same_but_parents(
                final(self).groups_view(),
                old(self).groups_view(),
            ) && super::graph::parents_computed(final(self).groups_view()),
            final(self).hosts_view() == old(self).hosts_view(),
    {
        self.validate_group_graph()?;
        super::graph::compute_group_parents(&mut self.groups);
        Ok(())
    }
}

} // verus!
