//! What the file module does on the control node: from the requested state
//! and what was found at the path, the steps to take and the report.
use vstd::prelude::*;
use crate::text::{concat3, copy_str};
use super::file::FileState;
use super::{ModuleError, ModuleResult};

verus! {

/// The requested settings a file run decides on.
#[derive(Debug, Clone)]
pub struct FilePlanParams {
    /// The path as given.
    pub path: String,
    /// The path the run acts on, once links are followed, as it is displayed.
    pub target: String,
    /// Source of a link.
    pub src: Option<String>,
    /// Requested permission bits.
    pub mode: Option<u32>,
    /// Whether attributes also reach a directory's contents.
    pub recurse: bool,
    /// Whether a link may replace what stands at the path.
    pub force: bool,
    /// Whether links at the path are followed.
    pub follow: bool,
    /// Whether an access or modification time is requested.
    pub sets_times: bool,
    /// Whether a SELinux context is requested.
    pub selinux_set: bool,
}

/// What was found at the path before the run.
#[derive(Debug, Clone, Copy)]
pub struct FileFacts {
    /// The path itself is a symbolic link.
    pub is_symlink: bool,
    /// The path exists, links followed.
    pub exists: bool,
    /// The path is a directory, links followed.
    pub is_dir: bool,
    /// The path is a regular file, links followed.
    pub is_file: bool,
    /// Applying the requested attributes would change something.
    pub attributes_differ: bool,
    /// The same, leaving the mode out (a link's own mode is never changed).
    pub attributes_differ_without_mode: bool,
    /// The link at the path points to `src`.
    pub link_points_to_src: bool,
    /// `src` exists.
    pub src_exists: bool,
    /// The path and `src` are the same file (same device and inode).
    pub same_file_as_src: bool,
    /// A directory walked for recursive SELinux updates holds a link.
    pub symlink_inside: bool,
}

/// One step of a file run on the control node.
#[derive(Debug, Clone, Copy, PartialEq, Eq, Structural)]
pub enum FileStep {
    /// Remove the path, a directory with its contents.
    Remove,
    /// Create the directory and its parents, with the requested mode.
    CreateDirectory,
    /// Create an empty file, and its parents, with the requested mode.
    CreateFile,
    /// Remove what stands at the path so that a link can take its place.
    ClearDestination,
    /// Create the symbolic link to `src`, and its parents.
    Symlink,
    /// Create the hard link to `src`, and its parents.
    HardLink,
    /// Apply the requested mode, owner, group, times and SELinux context.
    SetAttributes,
    /// Apply them to the directory's contents too.
    SetAttributesRecursive,
    /// Touch the file: create it, or set the requested times or the current time.
    Touch,
}

/// The plan of a file run.
#[derive(Debug, Clone)]
pub struct FilePlan {
    /// The steps, in order.
    pub steps: Vec<FileStep>,
    /// Whether the steps create the path.
    pub created: bool,
    /// Whether something changed, and the message, when the plan decides it;
    /// otherwise `file_done_report` decides once the steps have run.
    pub report: Option<(bool, String)>,
    /// The diff of a check-mode removal: what stands at the path, and `absent`.
    pub diff: Option<(String, String)>,
}

/// The view of a plan: steps, creation, report and diff.
pub type FilePlanView = (Seq<FileStep>, bool, Option<(bool, Seq<char>)>, Option<(Seq<char>, Seq<char>)>);

/// The view of a plan.
pub open spec fn plan_view(p: FilePlan) -> FilePlanView {
    (
        p.steps@,
        p.created,
        match p.report {
            Some((c, m)) => Some((c, m@)),
            None => None,
        },
        match p.diff {
            Some((a, b)) => Some((a@, b@)),
            None => None,
        },
    )
}

/// An error by kind (missing parameter, failed run, unsupported request) and message.
pub enum FileFailure {
    Missing,
    Failed,
    Unsupported,
}

/// Whether an error is of this kind, with this message.
pub open spec fn failure_is(e: ModuleError, kind: FileFailure, m: Seq<char>) -> bool {
    match kind {
        FileFailure::Missing => e matches ModuleError::MissingParameter(x) && x@ == m,
        FileFailure::Failed => e matches ModuleError::ExecutionFailed(x) && x@ == m,
        FileFailure::Unsupported => e matches ModuleError::Unsupported(x) && x@ == m,
    }
}

/// How a state is printed for debugging.
pub open spec fn state_debug(s: FileState) -> Seq<char> {
    match s {
        FileState::File => "File"@,
        FileState::Directory => "Directory"@,
        FileState::Link => "Link"@,
        FileState::Hard => "Hard"@,
        FileState::Absent => "Absent"@,
        FileState::Touch => "Touch"@,
    }
}

/// A decided report with no steps.
pub open spec fn only_report(changed: bool, m: Seq<char>) -> FilePlanView {
    (Seq::empty(), false, Some((changed, m)), None)
}

/// What a file run does, given the requested state, what the path currently
/// is (`None` when nothing is there), the requested settings and what was
/// found, in check mode or not.
///
/// Without following links, a link at the path takes no timestamps, touch or
/// SELinux context, and a recursive SELinux update may not meet links. Then:
/// `absent` removes what is there; `directory` and `file` create the path
/// when nothing is there (and refuse something of another kind) and apply the
/// attributes, `directory` also to the contents when `recurse` is set; `link`
/// and `hard` need `src`, keep a link that is already right, and replace
/// something else only with `force`; `touch` touches and applies the
/// attributes. Check mode takes no step and reports what would be done.
pub open spec fn file_plan_spec(
    state: FileState,
    current: Option<FileState>,
    p: FilePlanParams,
    f: FileFacts,
    check_mode: bool,
) -> Result<FilePlanView, (FileFailure, Seq<char>)> {
    let path = p.path@;
    let target = p.target@;
    let manages = state is File || state is Directory || state is Touch;
    if !p.follow && manages && f.is_symlink && (p.sets_times || state is Touch || p.selinux_set) {
        Err((FileFailure::Unsupported, "Timestamp and SELinux updates on symbolic links require follow=true"@))
    } else if !p.follow && manages && state is Directory && p.recurse && p.selinux_set && f.exists && f.symlink_inside {
        Err((FileFailure::Unsupported, "Recursive SELinux updates containing symbolic links require follow=true"@))
    } else {
        match state {
            FileState::Absent => match current {
                None => Ok(only_report(false, "Path '"@ + path + "' already absent"@)),
                Some(c) => if check_mode {
                    Ok((Seq::empty(), false, Some((true, "Would remove '"@ + path + "'"@)), Some((
                        "Some("@ + state_debug(c) + ")"@,
                        "absent"@,
                    ))))
                } else {
                    Ok((seq![FileStep::Remove], false, Some((true, "Removed '"@ + path + "'"@)), None))
                },
            },
            FileState::Directory => if check_mode {
                if current == Some(FileState::Directory) {
                    if f.attributes_differ {
                        Ok(only_report(true, "Would update attributes on '"@ + path + "'"@))
                    } else {
                        Ok(only_report(false, "Directory '"@ + path + "' already exists"@))
                    }
                } else {
                    Ok(only_report(true, "Would create directory '"@ + path + "'"@))
                }
            } else if f.exists && !f.is_dir {
                Err((FileFailure::Failed, "Path '"@ + target + "' exists but is not a directory"@))
            } else {
                let create: Seq<FileStep> = if f.exists { Seq::empty() } else { seq![FileStep::CreateDirectory] };
                let rec: Seq<FileStep> = if p.recurse { seq![FileStep::SetAttributesRecursive] } else { Seq::empty() };
                Ok((create + seq![FileStep::SetAttributes] + rec, !f.exists, None, None))
            },
            FileState::File => if check_mode {
                if current == Some(FileState::File) || (!p.follow && current == Some(FileState::Link)) {
                    let differ = if current == Some(FileState::Link) {
                        f.attributes_differ_without_mode
                    } else {
                        f.attributes_differ
                    };
                    if differ {
                        Ok(only_report(true, "Would update attributes on '"@ + path + "'"@))
                    } else {
                        Ok(only_report(false, "File '"@ + path + "' already exists"@))
                    }
                } else {
                    Ok(only_report(true, "Would create file '"@ + path + "'"@))
                }
            } else if !p.follow && f.is_symlink {
                Ok((seq![FileStep::SetAttributes], false, None, None))
            } else if f.exists && !f.is_file {
                Err((FileFailure::Failed, "Path '"@ + target + "' exists but is not a file"@))
            } else {
                let create: Seq<FileStep> = if f.exists { Seq::empty() } else { seq![FileStep::CreateFile] };
                Ok((create + seq![FileStep::SetAttributes], !f.exists, None, None))
            },
            FileState::Link => match p.src {
                None => Err((FileFailure::Missing, "src is required for symlinks"@)),
                Some(src) => {
                    let done = "Symlink '"@ + path + "' already points to '"@ + src@ + "'"@;
                    let made = "Created symlink '"@ + path + "' -> '"@ + src@ + "'"@;
                    if check_mode {
                        if current == Some(FileState::Link) && f.link_points_to_src {
                            Ok(only_report(false, done))
                        } else {
                            Ok(only_report(true, "Would create symlink '"@ + path + "' -> '"@ + src@ + "'"@))
                        }
                    } else if f.is_symlink {
                        if f.link_points_to_src {
                            Ok(only_report(false, done))
                        } else if p.force {
                            Ok((seq![FileStep::ClearDestination, FileStep::Symlink], true, Some((true, made)), None))
                        } else {
                            Err((FileFailure::Failed, "Symlink '"@ + target + "' already exists with different target"@))
                        }
                    } else if f.exists {
                        if p.force {
                            Ok((seq![FileStep::ClearDestination, FileStep::Symlink], true, Some((true, made)), None))
                        } else {
                            Err((FileFailure::Failed, "Path '"@ + target + "' already exists and is not a symlink"@))
                        }
                    } else {
                        Ok((seq![FileStep::Symlink], true, Some((true, made)), None))
                    }
                },
            },
            FileState::Hard => match p.src {
                None => Err((FileFailure::Missing, "src is required for hard links"@)),
                Some(src) => {
                    let made = "Created hard link '"@ + path + "' -> '"@ + src@ + "'"@;
                    if check_mode {
                        Ok(only_report(true, "Would create hard link '"@ + path + "' -> '"@ + src@ + "'"@))
                    } else if !f.src_exists {
                        Err((FileFailure::Failed, "Source '"@ + src@ + "' does not exist"@))
                    } else if f.exists {
                        if f.same_file_as_src {
                            Ok(only_report(false, "Hard link '"@ + path + "' already exists"@))
                        } else if p.force {
                            Ok((seq![FileStep::ClearDestination, FileStep::HardLink], true, Some((true, made)), None))
                        } else {
                            Err((FileFailure::Failed, "Path '"@ + target + "' already exists"@))
                        }
                    } else {
                        Ok((seq![FileStep::HardLink], true, Some((true, made)), None))
                    }
                },
            },
            FileState::Touch => if check_mode {
                if f.exists {
                    Ok(only_report(true, "Would update timestamps on '"@ + path + "'"@))
                } else {
                    Ok(only_report(true, "Would create file '"@ + path + "'"@))
                }
            } else {
                Ok((seq![FileStep::Touch, FileStep::SetAttributes], !f.exists, Some((true, "Touched '"@ + path + "'"@)), None))
            },
        }
    }
}

/// A plan of no steps with a decided report.
fn report_only(changed: bool, m: String) -> (r: FilePlan)
    ensures
        plan_view(r) == only_report(changed, m@),
{
    let r = FilePlan { steps: Vec::new(), created: false, report: Some((changed, m)), diff: None };
    proof {
        assert(plan_view(r).0 =~= Seq::<FileStep>::empty());
    }
    r
}

/// A plan of these steps with a decided report.
fn steps_with(steps: Vec<FileStep>, created: bool, changed: bool, m: String) -> (r: FilePlan)
    ensures
        plan_view(r) == (steps@, created, Some((changed, m@)), None::<(Seq<char>, Seq<char>)>),
{
    FilePlan { steps, created, report: Some((changed, m)), diff: None }
}

/// `<a><b><c><d><e>`.
fn concat5(a: &str, b: &str, c: &str, d: &str, e: &str) -> (r: String)
    ensures
        r@ == a@ + b@ + c@ + d@ + e@,
{
    let head = concat3(a, b, c);
    concat3(head.as_str(), d, e)
}

/// How a state is printed for debugging.
fn state_debug_name(s: FileState) -> (r: &'static str)
    ensures
        r@ == state_debug(s),
{
    match s {
        FileState::File => "File",
        FileState::Directory => "Directory",
        FileState::Link => "Link",
        FileState::Hard => "Hard",
        FileState::Absent => "Absent",
        FileState::Touch => "Touch",
    }
}

/// Decides what a file run does; see `file_plan_spec`.
pub fn file_plan(
    state: FileState,
    current: Option<FileState>,
    params: &FilePlanParams,
    facts: &FileFacts,
    check_mode: bool,
) -> (r: ModuleResult<FilePlan>)
    ensures
        match file_plan_spec(state, current, *params, *facts, check_mode) {
            Ok(v) => r matches Ok(q) && plan_view(q) == v,
            Err((k, m)) => r is Err && failure_is(r->Err_0, k, m),
        },
{
    let path = params.path.as_str();
    let target = params.target.as_str();
    let f = facts;
    let manages = match state {
        FileState::File | FileState::Directory | FileState::Touch => true,
        _ => false,
    };
    let is_touch = match state {
        FileState::Touch => true,
        _ => false,
    };
    let is_dir_state = match state {
        FileState::Directory => true,
        _ => false,
    };
    if !params.follow && manages && f.is_symlink && (params.sets_times || is_touch || params.selinux_set) {
        return Err(ModuleError::Unsupported(copy_str("Timestamp and SELinux updates on symbolic links require follow=true")));
    }
    if !params.follow && manages && is_dir_state && params.recurse && params.selinux_set && f.exists && f.symlink_inside {
        return Err(ModuleError::Unsupported(
            copy_str("Recursive SELinux updates containing symbolic links require follow=true"),
        ));
    }
    match state {
        FileState::Absent => match current {
            None => Ok(report_only(false, concat3("Path '", path, "' already absent"))),
            Some(c) => if check_mode {
                let before = concat3("Some(", state_debug_name(c), ")");
                let r = FilePlan {
                    steps: Vec::new(),
                    created: false,
                    report: Some((true, concat3("Would remove '", path, "'"))),
                    diff: Some((before, copy_str("absent"))),
                };
                proof {
                    assert(plan_view(r).0 =~= Seq::<FileStep>::empty());
                }
                Ok(r)
            } else {
                Ok(steps_with(vec![FileStep::Remove], false, true, concat3("Removed '", path, "'")))
            },
        },
        FileState::Directory => if check_mode {
            if current == Some(FileState::Directory) {
                if f.attributes_differ {
                    Ok(report_only(true, concat3("Would update attributes on '", path, "'")))
                } else {
                    Ok(report_only(false, concat3("Directory '", path, "' already exists")))
                }
            } else {
                Ok(report_only(true, concat3("Would create directory '", path, "'")))
            }
        } else if f.exists && !f.is_dir {
            Err(ModuleError::ExecutionFailed(concat3("Path '", target, "' exists but is not a directory")))
        } else {
            let mut steps: Vec<FileStep> = Vec::new();
            if !f.exists {
                steps.push(FileStep::CreateDirectory);
            }
            steps.push(FileStep::SetAttributes);
            if params.recurse {
                steps.push(FileStep::SetAttributesRecursive);
            }
            let r = FilePlan { steps, created: !f.exists, report: None, diff: None };
            proof {
                let create: Seq<FileStep> = if f.exists { Seq::empty() } else { seq![FileStep::CreateDirectory] };
                let rec: Seq<FileStep> = if params.recurse { seq![FileStep::SetAttributesRecursive] } else { Seq::empty() };
                assert(r.steps@ =~= create + seq![FileStep::SetAttributes] + rec);
            }
            Ok(r)
        },
        FileState::File => if check_mode {
            let on_link = current == Some(FileState::Link);
            if current == Some(FileState::File) || (!params.follow && on_link) {
                let differ = if on_link { f.attributes_differ_without_mode } else { f.attributes_differ };
                if differ {
                    Ok(report_only(true, concat3("Would update attributes on '", path, "'")))
                } else {
                    Ok(report_only(false, concat3("File '", path, "' already exists")))
                }
            } else {
                Ok(report_only(true, concat3("Would create file '", path, "'")))
            }
        } else if !params.follow && f.is_symlink {
            Ok(FilePlan { steps: vec![FileStep::SetAttributes], created: false, report: None, diff: None })
        } else if f.exists && !f.is_file {
            Err(ModuleError::ExecutionFailed(concat3("Path '", target, "' exists but is not a file")))
        } else {
            let mut steps: Vec<FileStep> = Vec::new();
            if !f.exists {
                steps.push(FileStep::CreateFile);
            }
            steps.push(FileStep::SetAttributes);
            let r = FilePlan { steps, created: !f.exists, report: None, diff: None };
            proof {
                let create: Seq<FileStep> = if f.exists { Seq::empty() } else { seq![FileStep::CreateFile] };
                assert(r.steps@ =~= create + seq![FileStep::SetAttributes]);
            }
            Ok(r)
        },
        FileState::Link => match &params.src {
            None => Err(ModuleError::MissingParameter(copy_str("src is required for symlinks"))),
            Some(src) => {
                let src = src.as_str();
                if check_mode {
                    if current == Some(FileState::Link) && f.link_points_to_src {
                        Ok(report_only(false, concat5("Symlink '", path, "' already points to '", src, "'")))
                    } else {
                        Ok(report_only(true, concat5("Would create symlink '", path, "' -> '", src, "'")))
                    }
                } else if f.is_symlink {
                    if f.link_points_to_src {
                        Ok(report_only(false, concat5("Symlink '", path, "' already points to '", src, "'")))
                    } else if params.force {
                        Ok(steps_with(
                            vec![FileStep::ClearDestination, FileStep::Symlink],
                            true,
                            true,
                            concat5("Created symlink '", path, "' -> '", src, "'"),
                        ))
                    } else {
                        Err(ModuleError::ExecutionFailed(
                            concat3("Symlink '", target, "' already exists with different target"),
                        ))
                    }
                } else if f.exists {
                    if params.force {
                        Ok(steps_with(
                            vec![FileStep::ClearDestination, FileStep::Symlink],
                            true,
                            true,
                            concat5("Created symlink '", path, "' -> '", src, "'"),
                        ))
                    } else {
                        Err(ModuleError::ExecutionFailed(
                            concat3("Path '", target, "' already exists and is not a symlink"),
                        ))
                    }
                } else {
                    Ok(steps_with(vec![FileStep::Symlink], true, true, concat5("Created symlink '", path, "' -> '", src, "'")))
                }
            },
        },
        FileState::Hard => match &params.src {
            None => Err(ModuleError::MissingParameter(copy_str("src is required for hard links"))),
            Some(src) => {
                let src = src.as_str();
                if check_mode {
                    Ok(report_only(true, concat5("Would create hard link '", path, "' -> '", src, "'")))
                } else if !f.src_exists {
                    Err(ModuleError::ExecutionFailed(concat3("Source '", src, "' does not exist")))
                } else if f.exists {
                    if f.same_file_as_src {
                        Ok(report_only(false, concat3("Hard link '", path, "' already exists")))
                    } else if params.force {
                        Ok(steps_with(
                            vec![FileStep::ClearDestination, FileStep::HardLink],
                            true,
                            true,
                            concat5("Created hard link '", path, "' -> '", src, "'"),
                        ))
                    } else {
                        Err(ModuleError::ExecutionFailed(concat3("Path '", target, "' already exists")))
                    }
                } else {
                    Ok(steps_with(vec![FileStep::HardLink], true, true, concat5("Created hard link '", path, "' -> '", src, "'")))
                }
            },
        },
        FileState::Touch => if check_mode {
            if f.exists {
                Ok(report_only(true, concat3("Would update timestamps on '", path, "'")))
            } else {
                Ok(report_only(true, concat3("Would create file '", path, "'")))
            }
        } else {
            Ok(steps_with(vec![FileStep::Touch, FileStep::SetAttributes], !f.exists, true, concat3("Touched '", path, "'")))
        },
    }
}

/// The report of a `directory` or `file` run once its steps have run: a
/// created path, changed attributes, or nothing to do.
pub open spec fn file_done_spec(state: FileState, path: Seq<char>, created: bool, attrs_changed: bool) -> (bool, Seq<char>) {
    if state is Directory {
        if created {
            (true, "Created directory '"@ + path + "'"@)
        } else if attrs_changed {
            (true, "Updated attributes on directory '"@ + path + "'"@)
        } else {
            (false, "Directory '"@ + path + "' already exists with correct attributes"@)
        }
    } else if created {
        (true, "Created file '"@ + path + "'"@)
    } else if attrs_changed {
        (true, "Updated attributes on file '"@ + path + "'"@)
    } else {
        (false, "File '"@ + path + "' already exists with correct attributes"@)
    }
}

/// Reports a `directory` or `file` run once its steps have run.
pub fn file_done_report(state: FileState, path: &str, created: bool, attrs_changed: bool) -> (r: (bool, String))
    ensures
        (r.0, r.1@) == file_done_spec(state, path@, created, attrs_changed),
{
    match state {
        FileState::Directory => if created {
            (true, concat3("Created directory '", path, "'"))
        } else if attrs_changed {
            (true, concat3("Updated attributes on directory '", path, "'"))
        } else {
            (false, concat3("Directory '", path, "' already exists with correct attributes"))
        },
        _ => if created {
            (true, concat3("Created file '", path, "'"))
        } else if attrs_changed {
            (true, concat3("Updated attributes on file '", path, "'"))
        } else {
            (false, concat3("File '", path, "' already exists with correct attributes"))
        },
    }
}

/// Check mode takes no step on the path, whatever the state and what was found.
pub proof fn law_file_check_mode_takes_no_step(
    state: FileState,
    current: Option<FileState>,
    p: FilePlanParams,
    f: FileFacts,
)
    ensures
        file_plan_spec(state, current, p, f, true) matches Ok(v) ==> v.0.len() == 0,
{
}

/// Outside check mode, a directory run on a path that is a directory or does
/// not exist creates the directory exactly when it is missing, always applies
/// the requested attributes to it, and applies them to its contents too
/// exactly when `recurse` is asked for. It is refused only where, without
/// `follow`, a symbolic link stands in the way of the requested times or
/// SELinux context.
pub proof fn law_directory_recurse_reaches_contents(current: Option<FileState>, p: FilePlanParams, f: FileFacts)
    requires
        !f.exists || f.is_dir,
    ensures
        match file_plan_spec(FileState::Directory, current, p, f, false) {
            Ok(v) => (v.0.contains(FileStep::SetAttributesRecursive) <==> p.recurse)
                && v.0.contains(FileStep::SetAttributes)
                && (v.0.contains(FileStep::CreateDirectory) <==> !f.exists)
                && v.1 == !f.exists,
            Err(_) => !p.follow && ((f.is_symlink && (p.sets_times || p.selinux_set)) || (p.recurse
                && p.selinux_set && f.exists && f.symlink_inside)),
        },
{
    if let Ok(v) = file_plan_spec(FileState::Directory, current, p, f, false) {
        let s = v.0;
        let create: Seq<FileStep> = if f.exists { Seq::empty() } else { seq![FileStep::CreateDirectory] };
        let rec: Seq<FileStep> = if p.recurse { seq![FileStep::SetAttributesRecursive] } else { Seq::empty() };
        assert(s == create + seq![FileStep::SetAttributes] + rec);
        assert(s[create.len() as int] == FileStep::SetAttributes);
        if p.recurse {
            assert(s[s.len() - 1] == FileStep::SetAttributesRecursive);
        } else {
            assert forall|i: int| 0 <= i < s.len() implies s[i] != FileStep::SetAttributesRecursive by {
                if i < create.len() {
                    assert(s[i] == create[i]);
                }
            }
        }
        if !f.exists {
            assert(s[0] == FileStep::CreateDirectory);
        } else {
            assert forall|i: int| 0 <= i < s.len() implies s[i] != FileStep::CreateDirectory by {
                if i > 0 && p.recurse {
                    assert(s[i] == rec[i - 1]);
                }
            }
        }
    }
}

/// Outside check mode, an `absent` run removes the path exactly when
/// something stands there, and then reports a change; when nothing does, it
/// takes no step and reports none.
pub proof fn law_file_absent_removes_what_exists(current: Option<FileState>, p: FilePlanParams, f: FileFacts)
    ensures
        match file_plan_spec(FileState::Absent, current, p, f, false) {
            Ok(v) => v.0 == (if current is Some { seq![FileStep::Remove] } else { Seq::empty() }) && v.2 is Some
                && v.2->Some_0.0 == (current is Some),
            Err(_) => false,
        },
{
}

/// Outside check mode, a link run clears what stands at the path only when
/// `force` is asked for, and on a free path it only makes the link.
pub proof fn law_file_link_clears_only_with_force(state: FileState, current: Option<FileState>, p: FilePlanParams, f: FileFacts)
    requires
        state is Link || state is Hard,
    ensures
        (file_plan_spec(state, current, p, f, false) matches Ok(v) && v.0.contains(FileStep::ClearDestination))
            ==> p.force,
        p.src is Some && !f.exists && !f.is_symlink && state is Link ==> match file_plan_spec(state, current, p, f, false) {
            Ok(v) => v.0 == seq![FileStep::Symlink] && v.1,
            Err(_) => false,
        },
        p.src is Some && !f.exists && f.src_exists && state is Hard ==> match file_plan_spec(state, current, p, f, false) {
            Ok(v) => v.0 == seq![FileStep::HardLink] && v.1,
            Err(_) => false,
        },
{
    if let Ok(v) = file_plan_spec(state, current, p, f, false) {
        if !p.force {
            assert forall|i: int| 0 <= i < v.0.len() implies v.0[i] != FileStep::ClearDestination by {}
        }
    }
}

} // verus!
