//! What the file module does on a remote target: which settings it refuses
//! there, the shell commands it sends for each state, and its reports.
use vstd::prelude::*;
use crate::inventory::data::Data;
use crate::inventory::host::opt_view;
use crate::modules::params::{bool_param_or, param_value, ModuleParams, ParamExt};
use crate::text::{chars_of, concat2, concat3, copy_str, trim, trim_ws, string_of};
use super::file::{attribute_changes, mode_change, ownership_change, FileState, RemoteEntry};
use super::file_plan::{failure_is, FileFailure};
use super::{escape_shell_word, shell_escaped, ModuleError, ModuleResult};

verus! {

/// A command sent to the target, with the text its failure is reported
/// with (followed by `: ` and the trimmed error output).
#[derive(Debug, Clone)]
pub struct RemoteCommand {
    /// The shell command.
    pub command: String,
    /// What a failure is reported as.
    pub failure: String,
}

/// The views of commands: each command with its failure text.
pub open spec fn commands_view(v: Seq<RemoteCommand>) -> Seq<(Seq<char>, Seq<char>)> {
    v.map_values(|c: RemoteCommand| (c.command@, c.failure@))
}

/// How the report of a remote run is decided once its commands have run.
#[derive(Debug, Clone, Copy, PartialEq, Eq, Structural)]
pub enum RemoteDone {
    /// A directory: created, attributes updated, or already right.
    Directory,
    /// A file: touched, attributes updated, or already right.
    File,
    /// A link already right: attributes updated, or nothing to do.
    Link,
}

/// The plan of a remote file run.
#[derive(Debug, Clone)]
pub struct RemotePlan {
    /// Commands to send first, in order; the first failure ends the run.
    pub commands: Vec<RemoteCommand>,
    /// Whether the path is probed again after those commands.
    pub reprobe: bool,
    /// Whether mode and ownership are then applied (see `attribute_commands`).
    pub attributes: bool,
    /// Whether the commands changed the path (created or touched it).
    pub changed: bool,
    /// The report, when the plan decides it.
    pub report: Option<(bool, String)>,
    /// How the report is decided otherwise.
    pub done: RemoteDone,
}

/// The view of a remote plan.
pub type RemotePlanView = (Seq<(Seq<char>, Seq<char>)>, bool, bool, bool, Option<(bool, Seq<char>)>, RemoteDone);

/// The view of a remote plan.
pub open spec fn remote_plan_view(p: RemotePlan) -> RemotePlanView {
    (
        commands_view(p.commands@),
        p.reprobe,
        p.attributes,
        p.changed,
        match p.report {
            Some((c, m)) => Some((c, m@)),
            None => None,
        },
        p.done,
    )
}

/// The settings the remote file run cannot honour.
pub open spec fn remote_unsupported_keys() -> Seq<Seq<char>> {
    seq!["access_time"@, "modification_time"@, "seuser"@, "serole"@, "setype"@, "selevel"@]
}

/// The first of `keys` that the parameters hold, if any.
pub open spec fn first_present(p: Seq<(String, Data)>, keys: Seq<Seq<char>>) -> Option<Seq<char>>
    decreases keys.len(),
{
    if keys.len() == 0 {
        None
    } else if param_value(p, keys[0]) is Some {
        Some(keys[0])
    } else {
        first_present(p, keys.drop_first())
    }
}

/// Why a remote file run refuses its parameters, if it does: explicit times
/// or a SELinux context, `follow: false`, or `recurse` with attributes.
pub open spec fn remote_refusal_spec(p: Seq<(String, Data)>, has_attributes: bool) -> Option<Seq<char>> {
    match first_present(p, remote_unsupported_keys()) {
        Some(k) => Some("file: '"@ + k + "' is not implemented for remote targets"@),
        None => if !bool_param_or(p, "follow"@, true) {
            Some("file: follow=false is not implemented for remote targets"@)
        } else if bool_param_or(p, "recurse"@, false) && has_attributes {
            Some("file: recursive attribute changes are not implemented for remote targets"@)
        } else {
            None
        },
    }
}

/// Refuses the settings a remote file run cannot honour; `has_attributes`
/// says whether a mode, owner or group is requested.
pub fn remote_refusal(params: &ModuleParams, has_attributes: bool) -> (r: ModuleResult<()>)
    ensures
        match remote_refusal_spec(params@, has_attributes) {
            Some(m) => r matches Err(ModuleError::Unsupported(x)) && x@ == m,
            None => r is Ok,
        },
{
    let keys: [&str; 6] = ["access_time", "modification_time", "seuser", "serole", "setype", "selevel"];
    let ghost ks = remote_unsupported_keys();
    proof {
        reveal_strlit("access_time");
        reveal_strlit("modification_time");
        reveal_strlit("seuser");
        reveal_strlit("serole");
        reveal_strlit("setype");
        reveal_strlit("selevel");
        assert(keys@.map_values(|k: &str| k@) =~= ks);
        assert(ks.skip(0) =~= ks);
    }
    let mut i: usize = 0;
    while i < 6
        invariant
            i <= 6,
            ks == remote_unsupported_keys(),
            keys@.map_values(|k: &str| k@) == ks,
            first_present(params@, ks) == first_present(params@, ks.skip(i as int)),
        decreases 6 - i,
    {
        let k = keys[i];
        proof {
            assert(keys@.map_values(|k: &str| k@)[i as int] == k@);
            assert(ks.skip(i as int)[0] == k@);
            assert(ks.skip(i as int).drop_first() =~= ks.skip(i + 1));
        }
        match crate::modules::params::find_param(params, k) {
            Some(_) => {
                return Err(ModuleError::Unsupported(concat3("file: '", k, "' is not implemented for remote targets")));
            },
            None => {},
        }
        i = i + 1;
    }
    proof {
        assert(ks.skip(6) =~= Seq::<Seq<char>>::empty());
    }
    if !params.get_bool_or("follow", true) {
        return Err(ModuleError::Unsupported(copy_str("file: follow=false is not implemented for remote targets")));
    }
    if params.get_bool_or("recurse", false) && has_attributes {
        return Err(ModuleError::Unsupported(
            copy_str("file: recursive attribute changes are not implemented for remote targets"),
        ));
    }
    Ok(())
}

/// The link kind a state names in reports.
pub open spec fn link_kind(state: FileState) -> Seq<char> {
    if state is Link {
        "symbolic link"@
    } else {
        "hard link"@
    }
}

/// A plan that only reports.
pub open spec fn remote_report(changed: bool, m: Seq<char>, done: RemoteDone) -> RemotePlanView {
    (Seq::empty(), false, false, false, Some((changed, m)), done)
}

/// What a remote file run does, given the path, the requested state (and the
/// word it was named by), what the probe found, the requested mode and
/// ownership, `src`, `force`, and whether this is check mode.
///
/// `absent` removes with `rm -rf`; `directory` creates with `mkdir -p`, then
/// probes again and applies the attributes; `file` only manages an existing
/// file or link and `touch` touches; `link` and `hard` keep a link that
/// already points to `src` (applying its attributes), refuse to replace
/// anything but a link without `force`, and otherwise link with `ln -sfn` or
/// `ln -f`. Check mode sends nothing.
pub open spec fn remote_plan_spec(
    path: Seq<char>,
    state: FileState,
    state_word: Seq<char>,
    entry: RemoteEntry,
    mode: Option<u32>,
    owner: Option<Seq<char>>,
    group: Option<Seq<char>>,
    src: Option<Seq<char>>,
    force: bool,
    check_mode: bool,
) -> Result<RemotePlanView, (FileFailure, Seq<char>)> {
    let q = shell_escaped(path, false);
    let quoted = "'"@ + path + "'"@;
    match state {
        FileState::Absent => if entry.state is None {
            Ok(remote_report(false, "Path "@ + quoted + " already absent"@, RemoteDone::File))
        } else if check_mode {
            Ok(remote_report(true, "Would remove "@ + quoted, RemoteDone::File))
        } else {
            Ok((
                seq![("rm -rf "@ + q, "Failed to remove "@ + quoted)],
                false,
                false,
                true,
                Some((true, "Removed "@ + quoted)),
                RemoteDone::File,
            ))
        },
        FileState::Directory => {
            let exists = entry.state == Some(FileState::Directory);
            if check_mode {
                if exists {
                    Ok(remote_report(false, "Directory "@ + quoted + " already exists"@, RemoteDone::Directory))
                } else {
                    Ok(remote_report(true, "Would create directory "@ + quoted, RemoteDone::Directory))
                }
            } else if exists {
                Ok((Seq::empty(), false, true, false, None, RemoteDone::Directory))
            } else {
                Ok((
                    seq![("mkdir -p "@ + q, "Failed to create directory "@ + quoted)],
                    true,
                    true,
                    true,
                    None,
                    RemoteDone::Directory,
                ))
            }
        },
        FileState::File | FileState::Touch => {
            let exists = entry.state == Some(FileState::File) || entry.state == Some(FileState::Link);
            if check_mode {
                if state is Touch || !exists {
                    Ok(remote_report(
                        true,
                        "Would "@ + (if exists { "touch"@ } else { "create"@ }) + " "@ + quoted,
                        RemoteDone::File,
                    ))
                } else {
                    Ok(remote_report(false, "File "@ + quoted + " already exists"@, RemoteDone::File))
                }
            } else if state is File && !exists {
                Err((FileFailure::Failed, "Path "@ + quoted + " does not exist on the target; use state=touch to create it"@))
            } else if state is Touch {
                Ok((
                    seq![("touch "@ + q, "Failed to touch "@ + quoted)],
                    true,
                    true,
                    true,
                    None,
                    RemoteDone::File,
                ))
            } else {
                Ok((Seq::empty(), false, true, false, None, RemoteDone::File))
            }
        },
        FileState::Link | FileState::Hard => match src {
            None => Err((FileFailure::Missing, "src is required when state is "@ + state_word)),
            Some(s) => {
                let already = state is Link && entry.state == Some(FileState::Link) && opt_view(entry.link_target)
                    == Some(s);
                if already {
                    if check_mode {
                        let differs = (match mode {
                            Some(m) => mode_change(opt_view(entry.mode), m),
                            None => None,
                        }) is Some || ownership_change(owner, group, opt_view(entry.owner), opt_view(entry.group))
                            is Some;
                        if differs {
                            Ok(remote_report(true, "Would update attributes on link "@ + quoted, RemoteDone::Link))
                        } else {
                            Ok(remote_report(false, "Link "@ + quoted + " already correct"@, RemoteDone::Link))
                        }
                    } else {
                        Ok((Seq::empty(), false, true, false, None, RemoteDone::Link))
                    }
                } else if entry.state is Some && !force && entry.state != Some(FileState::Link) {
                    Err((FileFailure::Failed, "Path "@ + quoted + " exists and is not a link; use force=true to replace it"@))
                } else {
                    let target = " "@ + quoted + " -> '"@ + s + "'"@;
                    if check_mode {
                        Ok(remote_report(true, "Would create "@ + link_kind(state) + target, RemoteDone::Link))
                    } else {
                        let qs = shell_escaped(s, false);
                        let cmd = if state is Link { "ln -sfn "@ + qs + " "@ + q } else { "ln -f "@ + qs + " "@ + q };
                        Ok((
                            seq![(cmd, "Failed to create link "@ + quoted)],
                            false,
                            false,
                            true,
                            Some((true, "Created "@ + link_kind(state) + target)),
                            RemoteDone::Link,
                        ))
                    }
                }
            },
        },
    }
}

/// A command with its failure text.
fn command(c: String, failure: String) -> (r: RemoteCommand)
    ensures
        (r.command@, r.failure@) == (c@, failure@),
{
    RemoteCommand { command: c, failure }
}

/// `<a><b><c><d><e>`.
fn concat5(a: &str, b: &str, c: &str, d: &str, e: &str) -> (r: String)
    ensures
        r@ == a@ + b@ + c@ + d@ + e@,
{
    let head = concat3(a, b, c);
    concat3(head.as_str(), d, e)
}

/// A plan that only reports.
fn report_plan(changed: bool, m: String, done: RemoteDone) -> (r: RemotePlan)
    ensures
        remote_plan_view(r) == remote_report(changed, m@, done),
{
    let r = RemotePlan { commands: Vec::new(), reprobe: false, attributes: false, changed: false, report: Some((changed, m)), done };
    proof {
        assert(commands_view(r.commands@) =~= Seq::empty());
    }
    r
}

/// A plan of one command.
fn one_command(
    c: RemoteCommand,
    reprobe: bool,
    attributes: bool,
    report: Option<(bool, String)>,
    done: RemoteDone,
) -> (r: RemotePlan)
    ensures
        remote_plan_view(r) == (
            seq![(c.command@, c.failure@)],
            reprobe,
            attributes,
            true,
            match report {
                Some((x, m)) => Some((x, m@)),
                None => None,
            },
            done,
        ),
{
    let r = RemotePlan { commands: vec![c], reprobe, attributes, changed: true, report, done };
    proof {
        assert(commands_view(r.commands@) =~= seq![(c.command@, c.failure@)]);
    }
    r
}

/// A plan that only applies the attributes.
fn attributes_only(done: RemoteDone) -> (r: RemotePlan)
    ensures
        remote_plan_view(r) == (Seq::<(Seq<char>, Seq<char>)>::empty(), false, true, false, None::<(bool, Seq<char>)>, done),
{
    let r = RemotePlan { commands: Vec::new(), reprobe: false, attributes: true, changed: false, report: None, done };
    proof {
        assert(commands_view(r.commands@) =~= Seq::empty());
    }
    r
}

/// Decides what a remote file run sends; see `remote_plan_spec`.
pub fn remote_plan(
    path: &str,
    state: FileState,
    state_word: &str,
    entry: &RemoteEntry,
    mode: Option<u32>,
    owner: Option<&str>,
    group: Option<&str>,
    src: Option<&str>,
    force: bool,
    check_mode: bool,
) -> (r: ModuleResult<RemotePlan>)
    ensures
        match remote_plan_spec(
            path@,
            state,
            state_word@,
            *entry,
            mode,
            match owner {
                Some(o) => Some(o@),
                None => None,
            },
            match group {
                Some(g) => Some(g@),
                None => None,
            },
            match src {
                Some(s) => Some(s@),
                None => None,
            },
            force,
            check_mode,
        ) {
            Ok(v) => r matches Ok(p) && remote_plan_view(p) == v,
            Err((k, m)) => r is Err && failure_is(r->Err_0, k, m),
        },
{
    let q = escape_shell_word(path, false);
    let quoted = concat3("'", path, "'");
    let qp = quoted.as_str();
    match state {
        FileState::Absent => if entry.state.is_none() {
            Ok(report_plan(false, concat3("Path ", qp, " already absent"), RemoteDone::File))
        } else if check_mode {
            Ok(report_plan(true, concat2("Would remove ", qp), RemoteDone::File))
        } else {
            Ok(one_command(
                command(concat2("rm -rf ", q.as_str()), concat2("Failed to remove ", qp)),
                false,
                false,
                Some((true, concat2("Removed ", qp))),
                RemoteDone::File,
            ))
        },
        FileState::Directory => {
            let exists = entry.state == Some(FileState::Directory);
            if check_mode {
                if exists {
                    Ok(report_plan(false, concat3("Directory ", qp, " already exists"), RemoteDone::Directory))
                } else {
                    Ok(report_plan(true, concat2("Would create directory ", qp), RemoteDone::Directory))
                }
            } else if exists {
                Ok(attributes_only(RemoteDone::Directory))
            } else {
                Ok(one_command(
                    command(concat2("mkdir -p ", q.as_str()), concat2("Failed to create directory ", qp)),
                    true,
                    true,
                    None,
                    RemoteDone::Directory,
                ))
            }
        },
        FileState::File | FileState::Touch => {
            let exists = entry.state == Some(FileState::File) || entry.state == Some(FileState::Link);
            let touch = state == FileState::Touch;
            if check_mode {
                if touch || !exists {
                    let verb = if exists { "touch" } else { "create" };
                    Ok(report_plan(true, concat3(concat2("Would ", verb).as_str(), " ", qp), RemoteDone::File))
                } else {
                    Ok(report_plan(false, concat3("File ", qp, " already exists"), RemoteDone::File))
                }
            } else if !touch && !exists {
                Err(ModuleError::ExecutionFailed(
                    concat3("Path ", qp, " does not exist on the target; use state=touch to create it"),
                ))
            } else if touch {
                Ok(one_command(
                    command(concat2("touch ", q.as_str()), concat2("Failed to touch ", qp)),
                    true,
                    true,
                    None,
                    RemoteDone::File,
                ))
            } else {
                Ok(attributes_only(RemoteDone::File))
            }
        },
        FileState::Link | FileState::Hard => match src {
            None => Err(ModuleError::MissingParameter(concat2("src is required when state is ", state_word))),
            Some(s) => {
                let is_link = state == FileState::Link;
                let already = is_link && entry.state == Some(FileState::Link) && match &entry.link_target {
                    Some(t) => crate::text::str_equal(t.as_str(), s),
                    None => false,
                };
                if already {
                    if check_mode {
                        let (chmod, chown) = attribute_changes(mode, owner, group, entry);
                        if chmod.is_some() || chown.is_some() {
                            Ok(report_plan(true, concat2("Would update attributes on link ", qp), RemoteDone::Link))
                        } else {
                            Ok(report_plan(false, concat3("Link ", qp, " already correct"), RemoteDone::Link))
                        }
                    } else {
                        Ok(attributes_only(RemoteDone::Link))
                    }
                } else if entry.state.is_some() && !force && entry.state != Some(FileState::Link) {
                    Err(ModuleError::ExecutionFailed(
                        concat3("Path ", qp, " exists and is not a link; use force=true to replace it"),
                    ))
                } else {
                    let kind = if is_link { "symbolic link" } else { "hard link" };
                    let target = concat5(" ", qp, " -> '", s, "'");
                    if check_mode {
                        Ok(report_plan(true, concat3("Would create ", kind, target.as_str()), RemoteDone::Link))
                    } else {
                        let qs = escape_shell_word(s, false);
                        let cmd = if is_link {
                            concat3(concat2("ln -sfn ", qs.as_str()).as_str(), " ", q.as_str())
                        } else {
                            concat3(concat2("ln -f ", qs.as_str()).as_str(), " ", q.as_str())
                        };
                        Ok(one_command(
                            command(cmd, concat2("Failed to create link ", qp)),
                            false,
                            false,
                            Some((true, concat3("Created ", kind, target.as_str()))),
                            RemoteDone::Link,
                        ))
                    }
                }
            },
        },
    }
}

/// The mode and ownership commands for a path, from what its probe found:
/// `chmod` when the mode differs, then `chown` when the owner or group does.
pub open spec fn attribute_commands_spec(
    path: Seq<char>,
    mode: Option<u32>,
    owner: Option<Seq<char>>,
    group: Option<Seq<char>>,
    entry: RemoteEntry,
) -> Seq<(Seq<char>, Seq<char>)> {
    let q = shell_escaped(path, false);
    let chmod: Seq<(Seq<char>, Seq<char>)> = match (match mode {
        Some(m) => mode_change(opt_view(entry.mode), m),
        None => None,
    }) {
        Some(a) => seq![("chmod "@ + a + " "@ + q, "Failed to set mode"@)],
        None => Seq::empty(),
    };
    let chown: Seq<(Seq<char>, Seq<char>)> = match ownership_change(
        owner,
        group,
        opt_view(entry.owner),
        opt_view(entry.group),
    ) {
        Some(a) => seq![("chown "@ + shell_escaped(a, false) + " "@ + q, "Failed to set ownership"@)],
        None => Seq::empty(),
    };
    chmod + chown
}

/// The mode and ownership commands for a path; see `attribute_commands_spec`.
pub fn attribute_commands(
    path: &str,
    mode: Option<u32>,
    owner: Option<&str>,
    group: Option<&str>,
    entry: &RemoteEntry,
) -> (r: Vec<RemoteCommand>)
    ensures
        commands_view(r@) == attribute_commands_spec(
            path@,
            mode,
            match owner {
                Some(o) => Some(o@),
                None => None,
            },
            match group {
                Some(g) => Some(g@),
                None => None,
            },
            *entry,
        ),
{
    let q = escape_shell_word(path, false);
    let (chmod, chown) = attribute_changes(mode, owner, group, entry);
    let mut r: Vec<RemoteCommand> = Vec::new();
    match chmod {
        Some(a) => {
            r.push(command(concat3(concat2("chmod ", a.as_str()).as_str(), " ", q.as_str()), copy_str("Failed to set mode")));
        },
        None => {},
    }
    let ghost first = commands_view(r@);
    match chown {
        Some(a) => {
            let qa = escape_shell_word(a.as_str(), false);
            r.push(command(concat3(concat2("chown ", qa.as_str()).as_str(), " ", q.as_str()), copy_str("Failed to set ownership")));
        },
        None => {},
    }
    proof {
        assert(commands_view(r@) =~= attribute_commands_spec(
            path@,
            mode,
            match owner {
                Some(o) => Some(o@),
                None => None,
            },
            match group {
                Some(g) => Some(g@),
                None => None,
            },
            *entry,
        ));
    }
    r
}

/// The error of a failed command: its failure text, `: `, and the trimmed
/// error output.
pub fn command_failure(failure: &str, stderr: &str) -> (e: ModuleError)
    ensures
        e matches ModuleError::ExecutionFailed(m) && m@ == failure@ + ": "@ + trim_ws(stderr@),
{
    let t = string_of(&trim(chars_of(stderr).as_slice()));
    ModuleError::ExecutionFailed(concat3(failure, ": ", t.as_str()))
}

/// The report of a remote run once its commands have run, given whether
/// they changed the path and whether the attributes changed.
pub open spec fn remote_done_spec(done: RemoteDone, path: Seq<char>, changed: bool, attrs_changed: bool) -> (bool, Seq<char>) {
    let quoted = "'"@ + path + "'"@;
    match done {
        RemoteDone::Directory => if changed {
            (true, "Created directory "@ + quoted)
        } else if attrs_changed {
            (true, "Updated attributes on directory "@ + quoted)
        } else {
            (false, "Directory "@ + quoted + " already exists with correct attributes"@)
        },
        RemoteDone::File => if changed {
            (true, "Touched "@ + quoted)
        } else if attrs_changed {
            (true, "Updated attributes on "@ + quoted)
        } else {
            (false, "File "@ + quoted + " already exists with correct attributes"@)
        },
        RemoteDone::Link => if attrs_changed {
            (true, "Updated attributes on link "@ + quoted)
        } else {
            (false, "Link "@ + quoted + " already correct"@)
        },
    }
}

/// Reports a remote run once its commands have run.
pub fn remote_done_report(done: RemoteDone, path: &str, changed: bool, attrs_changed: bool) -> (r: (bool, String))
    ensures
        (r.0, r.1@) == remote_done_spec(done, path@, changed, attrs_changed),
{
    let quoted = concat3("'", path, "'");
    let qp = quoted.as_str();
    match done {
        RemoteDone::Directory => if changed {
            (true, concat2("Created directory ", qp))
        } else if attrs_changed {
            (true, concat2("Updated attributes on directory ", qp))
        } else {
            (false, concat3("Directory ", qp, " already exists with correct attributes"))
        },
        RemoteDone::File => if changed {
            (true, concat2("Touched ", qp))
        } else if attrs_changed {
            (true, concat2("Updated attributes on ", qp))
        } else {
            (false, concat3("File ", qp, " already exists with correct attributes"))
        },
        RemoteDone::Link => if attrs_changed {
            (true, concat2("Updated attributes on link ", qp))
        } else {
            (false, concat3("Link ", qp, " already correct"))
        },
    }
}

/// Check mode sends no command to the target, whatever the state and what
/// the probe found.
pub proof fn law_remote_check_mode_sends_nothing(
    path: Seq<char>,
    state: FileState,
    state_word: Seq<char>,
    entry: RemoteEntry,
    mode: Option<u32>,
    owner: Option<Seq<char>>,
    group: Option<Seq<char>>,
    src: Option<Seq<char>>,
    force: bool,
)
    ensures
        remote_plan_spec(path, state, state_word, entry, mode, owner, group, src, force, true) matches Ok(v)
            ==> v.0.len() == 0 && !v.2,
{
}

} // verus!
