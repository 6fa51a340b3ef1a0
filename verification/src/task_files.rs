//! Including task files: where an included file is looked for, and the check
//! that keeps it inside the directory it is included from.
use vstd::prelude::*;
use crate::modules::python::{joined_path};
use crate::text::{concat3, copy_str, has_prefix, split_char, views};

verus! {

broadcast use vstd::seq_lib::group_seq_properties;

/// An included path that escapes the directory it is included from.
#[derive(Debug, Clone)]
pub struct PathTraversalError {
    /// The path asked for.
    pub requested_path: String,
    /// The directory it had to stay in.
    pub base_path: String,
}

impl PathTraversalError {
    /// The error's message.
    pub fn message(&self) -> (r: String)
        ensures
            r@ == "Path traversal detected: '"@ + self.requested_path@ + "' escapes base directory '"@
                + self.base_path@ + "'"@,
    {
        let m = concat3("Path traversal detected: '", self.requested_path.as_str(), "' escapes base directory '");
        concat3(m.as_str(), self.base_path.as_str(), "'")
    }
}

/// The components of a path as `Path::components` gives them on Unix: `/` for
/// the root of an absolute path, `.` for a relative path that begins with
/// it, then the names between separators, without empty names and `.`.
pub open spec fn path_components(p: Seq<char>) -> Seq<Seq<char>> {
    let absolute = p.len() > 0 && p[0] == '/';
    let root: Seq<Seq<char>> = if absolute { seq!["/"@] } else { Seq::empty() };
    let cur: Seq<Seq<char>> = if !absolute && (p == "."@ || has_prefix(p, "./"@)) { seq!["."@] } else { Seq::empty() };
    root + cur + split_char(p, '/').filter(|c: Seq<char>| c.len() > 0 && c != "."@)
}

/// Whether the components of `base` begin the components of `p`, as `Path::starts_with` decides.
pub open spec fn path_starts_with(p: Seq<char>, base: Seq<char>) -> bool {
    let a = path_components(p);
    let b = path_components(base);
    b.len() <= a.len() && a.take(b.len() as int) == b
}

/// The components of a path.
pub fn components(p: &str) -> (r: Vec<String>)
    ensures
        views(r@) == path_components(p@),
{
    let cs = crate::text::chars_of(p);
    let absolute = cs.len() > 0 && cs[0] == '/';
    let mut out: Vec<String> = Vec::new();
    if absolute {
        out.push(copy_str("/"));
    }
    let starts_dot = crate::text::chars_equal(&cs, ".") || crate::text::starts_with(&cs, "./");
    if !absolute && starts_dot {
        out.push(copy_str("."));
    }
    let ghost head = views(out@);
    proof {
        reveal_strlit("/");
        reveal_strlit(".");
        if absolute {
            assert(head =~= seq!["/"@]);
        } else if starts_dot {
            assert(head =~= seq!["."@]);
        } else {
            assert(head =~= Seq::<Seq<char>>::empty());
        }
    }
    let pieces = crate::inventory::pattern::split_on_char(p, '/');
    let ghost pred = |c: Seq<char>| c.len() > 0 && c != "."@;
    let mut i: usize = 0;
    proof {
        assert(views(pieces@.take(0)) =~= Seq::<Seq<char>>::empty());
    }
    while i < pieces.len()
        invariant
            i <= pieces@.len(),
            pred == (|c: Seq<char>| c.len() > 0 && c != "."@),
            views(out@) == head + views(pieces@.take(i as int)).filter(pred),
        decreases pieces@.len() - i,
    {
        let ghost before = views(out@);
        proof {
            assert(views(pieces@.take(i + 1)) =~= views(pieces@.take(i as int)).push(pieces@[i as int]@));
            views(pieces@.take(i as int)).lemma_filter_push(pieces@[i as int]@, pred);
        }
        let pc = crate::text::chars_of(pieces[i].as_str());
        if pc.len() > 0 && !crate::text::chars_equal(&pc, ".") {
            out.push(pieces[i].clone());
            proof {
                assert(pred(pieces@[i as int]@));
                assert(views(out@) =~= before.push(pieces@[i as int]@));
            }
        } else {
            proof {
                assert(!pred(pieces@[i as int]@));
            }
        }
        i = i + 1;
    }
    proof {
        assert(pieces@.take(pieces@.len() as int) =~= pieces@);
    }
    out
}

/// Whether a path lies under a base directory, component by component.
pub fn path_within(p: &str, base: &str) -> (r: bool)
    ensures
        r == path_starts_with(p@, base@),
{
    let a = components(p);
    let b = components(base);
    if b.len() > a.len() {
        return false;
    }
    let mut i: usize = 0;
    while i < b.len()
        invariant
            i <= b@.len() <= a@.len(),
            views(a@) == path_components(p@),
            views(b@) == path_components(base@),
            forall|k: int| 0 <= k < i ==> a@[k]@ == b@[k]@,
        decreases b@.len() - i,
    {
        if !crate::text::str_equal(a[i].as_str(), b[i].as_str()) {
            proof {
                assert(views(a@).take(b@.len() as int)[i as int] != views(b@)[i as int]);
            }
            return false;
        }
        i = i + 1;
    }
    proof {
        assert(views(a@).take(b@.len() as int) =~= views(b@));
    }
    true
}

/// Loads task files included from a base directory.
pub struct TaskIncluder {
    base_path: String,
}

impl TaskIncluder {
    /// The directory files are included from.
    pub closed spec fn base_view(&self) -> Seq<char> {
        self.base_path@
    }

    /// An includer for files under `base_path`.
    pub fn new(base_path: &str) -> (t: TaskIncluder)
        ensures
            t.base_view() == base_path@,
    {
        TaskIncluder { base_path: copy_str(base_path) }
    }

    /// The directory files are included from.
    pub fn base_path(&self) -> (r: &str)
        ensures
            r@ == self.base_view(),
    {
        self.base_path.as_str()
    }

    /// Where an included file is looked for: an absolute path as it is, a
    /// relative one under the base directory.
    pub fn candidate_path(&self, file: &str) -> (r: String)
        ensures
            r@ == joined_path(self.base_view(), file@),
    {
        crate::modules::python::join_path(self.base_path.as_str(), file)
    }

    /// Accepts a resolved path only when it lies under the resolved base
    /// directory; otherwise names the file asked for and the base directory.
    pub fn check_within_base(&self, file: &str, resolved: &str, resolved_base: &str) -> (r: Result<(), PathTraversalError>)
        ensures
            path_starts_with(resolved@, resolved_base@) ==> r is Ok,
            !path_starts_with(resolved@, resolved_base@) ==> (r matches Err(e) && e.requested_path@ == file@
                && e.base_path@ == self.base_view()),
    {
        if path_within(resolved, resolved_base) {
            Ok(())
        } else {
            Err(PathTraversalError { requested_path: copy_str(file), base_path: self.base_path.clone() })
        }
    }
}

/// The file an `include_vars` task loads: its `file` argument, when the
/// task's module is `include_vars` and that argument is a string.
pub open spec fn include_vars_file(module_name: Seq<char>, args: crate::inventory::data::Data) -> Option<Seq<char>> {
    if module_name == "include_vars"@ {
        match crate::inventory::data::map_entries(args) {
            Some(m) => match crate::inventory::data::map_get(m, "file"@) {
                Some(crate::inventory::data::Data::Str(f)) => Some(f@),
                _ => None,
            },
            None => None,
        }
    } else {
        None
    }
}

/// The file an `include_vars` task loads, from the task's module name and
/// its arguments.
pub fn extract_include_vars(module_name: &str, args: &crate::inventory::data::Data) -> (r: Option<String>)
    ensures
        crate::inventory::host::opt_view(r) == include_vars_file(module_name@, *args),
{
    if !crate::text::str_equal(module_name, "include_vars") {
        return None;
    }
    match args {
        crate::inventory::data::Data::Mapping(m, _) => match crate::inventory::data::find_entry(m, "file") {
            Some(crate::inventory::data::Data::Str(f)) => Some(copy_str(f.as_str())),
            _ => None,
        },
        _ => None,
    }
}

} // verus!
