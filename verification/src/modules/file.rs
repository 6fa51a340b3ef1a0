//! File and directory state: the states a path can be asked to be in, SELinux
//! contexts, what a probe of a remote path reports, and the attribute changes
//! that bring a remote path to the requested mode and ownership.
use vstd::prelude::*;
use vstd::string::StringExecFns;
use crate::inventory::host::opt_view;
use crate::numbers::{digit_char, signed_literal};
use crate::text::{
    trim_start_char, trim_start_matches, chars_of, concat2, concat3, copy_str, lines_of, push_char, split_words, str_equal,
    str_to_lowercase, string_of, text_lines, trim, trim_ws, lowercase, words,
};
use super::{ModuleClassification, ModuleError, ModuleResult};

verus! {

/// Desired state for a file or directory.
#[derive(Debug, Clone, Copy, PartialEq, Eq, Structural)]
pub enum FileState {
    /// The file exists.
    File,
    /// The directory exists.
    Directory,
    /// A symbolic link exists.
    Link,
    /// A hard link exists.
    Hard,
    /// The path does not exist.
    Absent,
    /// Only the attributes are updated.
    Touch,
}

/// The state an already lowercased word names, if any.
pub open spec fn file_state_named(lower: Seq<char>) -> Option<FileState> {
    if lower == "file"@ {
        Some(FileState::File)
    } else if lower == "directory"@ || lower == "dir"@ {
        Some(FileState::Directory)
    } else if lower == "link"@ || lower == "symlink"@ {
        Some(FileState::Link)
    } else if lower == "hard"@ || lower == "hardlink"@ {
        Some(FileState::Hard)
    } else if lower == "absent"@ {
        Some(FileState::Absent)
    } else if lower == "touch"@ {
        Some(FileState::Touch)
    } else {
        None
    }
}

impl FileState {
    /// Parses a state name, ignoring case.
    pub fn from_str(s: &str) -> (r: ModuleResult<FileState>)
        ensures
            match file_state_named(lowercase(s@)) {
                Some(st) => r == Ok::<FileState, ModuleError>(st),
                None => r matches Err(ModuleError::InvalidParameter(m))
                    && m@ == "Invalid state '"@ + s@ + "'. Valid states: file, directory, link, hard, absent, touch"@,
            },
    {
        let lower = str_to_lowercase(s);
        let l = lower.as_str();
        if str_equal(l, "file") {
            Ok(FileState::File)
        } else if str_equal(l, "directory") || str_equal(l, "dir") {
            Ok(FileState::Directory)
        } else if str_equal(l, "link") || str_equal(l, "symlink") {
            Ok(FileState::Link)
        } else if str_equal(l, "hard") || str_equal(l, "hardlink") {
            Ok(FileState::Hard)
        } else if str_equal(l, "absent") {
            Ok(FileState::Absent)
        } else if str_equal(l, "touch") {
            Ok(FileState::Touch)
        } else {
            Err(ModuleError::InvalidParameter(
                concat3("Invalid state '", s, "'. Valid states: file, directory, link, hard, absent, touch"),
            ))
        }
    }
}

/// SELinux context parameters.
#[derive(Debug, Clone, Default)]
pub struct SelinuxContext {
    /// SELinux user.
    pub seuser: Option<String>,
    /// SELinux role.
    pub serole: Option<String>,
    /// SELinux type.
    pub setype: Option<String>,
    /// SELinux level or range.
    pub selevel: Option<String>,
}

/// A part of an SELinux context, `_` when it is not given.
pub open spec fn context_part(o: Option<String>) -> Seq<char> {
    match o {
        Some(s) => s@,
        None => "_"@,
    }
}

/// The text of an optional part, or `_`.
fn part_or_default(o: &Option<String>) -> (r: String)
    ensures
        r@ == context_part(*o),
{
    match o {
        Some(s) => s.clone(),
        None => copy_str("_"),
    }
}

impl SelinuxContext {
    /// Whether any part is given.
    pub fn is_set(&self) -> (r: bool)
        ensures
            r == (self.seuser is Some || self.serole is Some || self.setype is Some || self.selevel is Some),
    {
        self.seuser.is_some() || self.serole.is_some() || self.setype.is_some() || self.selevel.is_some()
    }

    /// The context as `user:role:type:level`, `_` standing for a part that is
    /// not given; `None` when no part is.
    pub fn to_context_string(&self) -> (r: Option<String>)
        ensures
            !(self.seuser is Some || self.serole is Some || self.setype is Some || self.selevel is Some) ==> r is None,
            (self.seuser is Some || self.serole is Some || self.setype is Some || self.selevel is Some) ==> (r matches Some(s)
                && s@ == context_part(self.seuser) + ":"@ + context_part(self.serole) + ":"@ + context_part(self.setype)
                + ":"@ + context_part(self.selevel)),
    {
        if !self.is_set() {
            return None;
        }
        let mut out = part_or_default(&self.seuser);
        out.append(":");
        let role = part_or_default(&self.serole);
        out.append(role.as_str());
        out.append(":");
        let ty = part_or_default(&self.setype);
        out.append(ty.as_str());
        out.append(":");
        let level = part_or_default(&self.selevel);
        out.append(level.as_str());
        Some(out)
    }
}

/// What a path currently is on the target, with the attributes the module manages.
#[derive(Debug, Clone, PartialEq)]
pub struct RemoteEntry {
    /// What the path is; `None` when it does not exist.
    pub state: Option<FileState>,
    /// Permission bits in octal, as `stat` prints them.
    pub mode: Option<String>,
    /// Owning user.
    pub owner: Option<String>,
    /// Owning group.
    pub group: Option<String>,
    /// Target of a symbolic link.
    pub link_target: Option<String>,
}

/// The kind line of a probe: its first line, trimmed, or `absent` when there is none.
pub open spec fn probe_kind(ls: Seq<Seq<char>>) -> Seq<char> {
    if ls.len() > 0 {
        trim_ws(ls[0])
    } else {
        "absent"@
    }
}

/// The attributes of a probe: the words of its third line.
pub open spec fn probe_attributes(ls: Seq<Seq<char>>) -> Seq<Seq<char>> {
    if ls.len() > 2 {
        words(ls[2])
    } else {
        Seq::empty()
    }
}

/// The `i`-th word, if there is one.
pub open spec fn nth_word(ws: Seq<Seq<char>>, i: int) -> Option<Seq<char>> {
    if 0 <= i < ws.len() {
        Some(ws[i])
    } else {
        None
    }
}

/// What a probe's output says of a path: line one is the kind, line two the
/// link target (blank when not a link), line three `mode owner group`.
pub open spec fn probed_entry(e: RemoteEntry, stdout: Seq<char>) -> bool {
    let ls = text_lines(stdout);
    let kind = probe_kind(ls);
    let attrs = probe_attributes(ls);
    &&& e.state == if kind == "link"@ {
        Some(FileState::Link)
    } else if kind == "directory"@ {
        Some(FileState::Directory)
    } else if kind == "file"@ {
        Some(FileState::File)
    } else {
        None
    }
    &&& opt_view(e.link_target) == if ls.len() > 1 && trim_ws(ls[1]).len() > 0 {
        Some(trim_ws(ls[1]))
    } else {
        None
    }
    &&& opt_view(e.mode) == nth_word(attrs, 0)
    &&& opt_view(e.owner) == nth_word(attrs, 1)
    &&& opt_view(e.group) == nth_word(attrs, 2)
}

/// The `i`-th word as a string, if there is one.
fn nth_word_string(ws: &Vec<Vec<char>>, i: usize) -> (r: Option<String>)
    ensures
        opt_view(r) == nth_word(ws@.map_values(|w: Vec<char>| w@), i as int),
{
    if i < ws.len() {
        Some(string_of(&ws[i]))
    } else {
        None
    }
}

/// Module for file and directory management.
pub struct FileModule;

impl FileModule {
    /// The module's name.
    pub fn name(&self) -> (r: &'static str)
        ensures
            r@ == "file"@,
    {
        "file"
    }

    /// What the module does.
    pub fn description(&self) -> (r: &'static str)
        ensures
            r@ == "Manage file and directory state"@,
    {
        "Manage file and directory state"
    }

    /// File work is done by the transport itself.
    pub fn classification(&self) -> (r: ModuleClassification)
        ensures
            r == ModuleClassification::NativeTransport,
    {
        ModuleClassification::NativeTransport
    }

    /// The parameters the module cannot run without.
    pub fn required_params(&self) -> (r: &'static [&'static str])
        ensures
            r@.len() == 1,
            r@[0]@ == "path"@,
    {
        &["path"]
    }

    /// Reads the output of the probe of a remote path.
    pub fn parse_remote_entry(stdout: &str) -> (e: RemoteEntry)
        ensures
            probed_entry(e, stdout@),
    {
        let cs = chars_of(stdout);
        let ls = lines_of(&cs);
        let ghost lv = ls@.map_values(|l: Vec<char>| l@);
        let kind: Vec<char> = if ls.len() > 0 { trim(&ls[0]) } else { chars_of("absent") };
        let link_target = if ls.len() > 1 {
            let t = trim(&ls[1]);
            if t.len() > 0 { Some(string_of(&t)) } else { None }
        } else {
            None
        };
        let attrs: Vec<Vec<char>> = if ls.len() > 2 { split_words(&ls[2]) } else { Vec::new() };
        proof {
            assert(lv.len() == ls@.len());
            if ls@.len() > 0 {
                assert(lv[0] == ls@[0]@);
            }
            if ls@.len() > 1 {
                assert(lv[1] == ls@[1]@);
            }
            if ls@.len() > 2 {
                assert(lv[2] == ls@[2]@);
            } else {
                assert(attrs@.map_values(|w: Vec<char>| w@) =~= Seq::<Seq<char>>::empty());
            }
        }
        let state = if crate::text::chars_equal(&kind, "link") {
            Some(FileState::Link)
        } else if crate::text::chars_equal(&kind, "directory") {
            Some(FileState::Directory)
        } else if crate::text::chars_equal(&kind, "file") {
            Some(FileState::File)
        } else {
            None
        };
        RemoteEntry {
            state,
            mode: nth_word_string(&attrs, 0),
            owner: nth_word_string(&attrs, 1),
            group: nth_word_string(&attrs, 2),
            link_target,
        }
    }

    /// Reads a timestamp given as seconds since the epoch or as an ISO 8601
    /// date and time.
    pub fn parse_timestamp(value: &str) -> (r: ModuleResult<i64>)
        ensures
            match signed_literal(value@) {
                Some(v) if i64::MIN <= v <= i64::MAX => r == Ok::<i64, ModuleError>(v as i64),
                _ => match crate::datetime::iso_epoch(value@) {
                    Some(t) => r == Ok::<i64, ModuleError>(t as i64),
                    None => r matches Err(ModuleError::InvalidParameter(m)) && m@ == timestamp_error(value@),
                },
            },
    {
        let cs = chars_of(value);
        match crate::numbers::parse_i64(&cs) {
            Some(v) => Ok(v),
            None => match crate::datetime::parse_iso_epoch(value) {
                Some(t) => Ok(t),
                None => Err(ModuleError::InvalidParameter(
                    concat3("Invalid timestamp '", value, "'. Use epoch seconds or ISO 8601 format."),
                )),
            },
        }
    }
}

/// The message for a timestamp that does not parse.
pub open spec fn timestamp_error(value: Seq<char>) -> Seq<char> {
    "Invalid timestamp '"@ + value + "'. Use epoch seconds or ISO 8601 format."@
}

/// The octal digits of a number, without leading zeros (`0` for zero).
pub open spec fn octal(n: nat) -> Seq<char>
    decreases n,
{
    if n < 8 {
        seq![digit_char(n)]
    } else {
        octal(n / 8).push(digit_char(n % 8))
    }
}

/// Appends the octal digits of `n`.
fn push_octal(out: &mut String, n: u32)
    ensures
        final(out)@ == old(out)@ + octal(n as nat),
    decreases n,
{
    if n < 8 {
        push_char(out, (48u8 + (n as u8)) as char);
        proof {
            assert(octal(n as nat) =~= seq![digit_char(n as nat)]);
        }
    } else {
        push_octal(out, n / 8);
        push_char(out, (48u8 + ((n % 8) as u8)) as char);
        proof {
            assert(old(out)@ + octal(n as nat) =~= old(out)@ + octal((n / 8) as nat) + seq![digit_char((n % 8) as nat)]);
        }
    }
}

/// The `chmod` argument that gives a path the requested mode, or `None` when
/// the current mode (as `stat` prints it, without leading zeros) already is it.
pub open spec fn mode_change(current: Option<Seq<char>>, mode: u32) -> Option<Seq<char>> {
    let requested = octal((mode % 4096) as nat);
    let now = match current {
        Some(c) => c,
        None => Seq::empty(),
    };
    if trim_start_char(now, '0') != trim_start_char(requested, '0') {
        Some(requested)
    } else {
        None
    }
}

/// The `chown` argument that gives a path the requested ownership, or `None`
/// when neither the requested owner nor the requested group differs.
pub open spec fn ownership_change(
    owner: Option<Seq<char>>,
    group: Option<Seq<char>>,
    current_owner: Option<Seq<char>>,
    current_group: Option<Seq<char>>,
) -> Option<Seq<char>> {
    let owner_differs = owner is Some && current_owner != owner;
    let group_differs = group is Some && current_group != group;
    if owner_differs || group_differs {
        match (owner, group) {
            (Some(o), Some(g)) => Some(o + ":"@ + g),
            (Some(o), None) => Some(o),
            (None, Some(g)) => Some(":"@ + g),
            (None, None) => None,
        }
    } else {
        None
    }
}

/// Whether an optional string equals a given one.
fn opt_equals(o: &Option<String>, s: &str) -> (r: bool)
    ensures
        r == (opt_view(*o) == Some(s@)),
{
    match o {
        Some(v) => str_equal(v.as_str(), s),
        None => false,
    }
}

/// The attribute changes that bring a remote path to the requested mode and
/// ownership: the `chmod` argument and the `chown` argument, each `None` when
/// nothing needs changing.
pub fn attribute_changes(
    mode: Option<u32>,
    owner: Option<&str>,
    group: Option<&str>,
    entry: &RemoteEntry,
) -> (r: (Option<String>, Option<String>))
    ensures
        opt_view(r.0) == match mode {
            Some(m) => mode_change(opt_view(entry.mode), m),
            None => None,
        },
        opt_view(r.1) == ownership_change(
            match owner {
                Some(o) => Some(o@),
                None => None,
            },
            match group {
                Some(g) => Some(g@),
                None => None,
            },
            opt_view(entry.owner),
            opt_view(entry.group),
        ),
{
    let chmod = match mode {
        Some(m) => {
            let mut requested = String::new();
            push_octal(&mut requested, m % 4096);
            let now: Vec<char> = match &entry.mode {
                Some(c) => chars_of(c.as_str()),
                None => Vec::new(),
            };
            let rq = chars_of(requested.as_str());
            let a = trim_start_matches(&now, '0');
            let b = trim_start_matches(&rq, '0');
            proof {
                assert(requested@ =~= octal((m % 4096) as nat));
            }
            if crate::text::chars_equal(&a, string_of(&b).as_str()) {
                None
            } else {
                Some(requested)
            }
        },
        None => None,
    };
    let owner_differs = match owner {
        Some(o) => !opt_equals(&entry.owner, o),
        None => false,
    };
    let group_differs = match group {
        Some(g) => !opt_equals(&entry.group, g),
        None => false,
    };
    let chown = if owner_differs || group_differs {
        match (owner, group) {
            (Some(o), Some(g)) => Some(concat3(o, ":", g)),
            (Some(o), None) => Some(copy_str(o)),
            (None, Some(g)) => Some(concat2(":", g)),
            (None, None) => None,
        }
    } else {
        None
    };
    (chmod, chown)
}

/// Asking for the mode and ownership a path already has changes nothing.
pub proof fn current_attributes_need_no_change(mode: u32, owner: Option<Seq<char>>, group: Option<Seq<char>>)
    ensures
        mode_change(Some(octal((mode % 4096) as nat)), mode) is None,
        ownership_change(owner, group, owner, group) is None,
{
}

} // verus!
