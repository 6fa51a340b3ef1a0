//! Copying files to a destination: where a copy goes, and what the module
//! does and reports once it knows what is on the target.
use vstd::prelude::*;
use super::{ModuleClassification, ModuleError, ModuleResult};
use crate::modules::python::joined_path;
use crate::task_files::path_components;
use crate::text::{concat2, concat3, copy_str};

verus! {

/// Module for copying files.
pub struct CopyModule;

impl CopyModule {
    /// The module's name.
    pub fn name(&self) -> (r: &'static str)
        ensures
            r@ == "copy"@,
    {
        "copy"
    }

    /// What the module does.
    pub fn description(&self) -> (r: &'static str)
        ensures
            r@ == "Copy files to a destination"@,
    {
        "Copy files to a destination"
    }

    /// Transfers are done by the transport itself.
    pub fn classification(&self) -> (r: ModuleClassification)
        ensures
            r == ModuleClassification::NativeTransport,
    {
        ModuleClassification::NativeTransport
    }

    /// The module has no parameter it cannot run without.
    pub fn required_params(&self) -> (r: &'static [&'static str])
        ensures
            r@.len() == 0,
    {
        &[]
    }
}

/// The last component of a path when it is a name, as `Path::file_name` gives it.
pub open spec fn file_name_of(p: Seq<char>) -> Option<Seq<char>> {
    let c = path_components(p);
    if c.len() > 0 && c.last() != "/"@ && c.last() != "."@ && c.last() != ".."@ {
        Some(c.last())
    } else {
        None
    }
}

/// The last component of a path when it is a name.
pub fn file_name(p: &str) -> (r: Option<String>)
    ensures
        crate::inventory::host::opt_view(r) == file_name_of(p@),
{
    let comps = crate::task_files::components(p);
    let n = comps.len();
    proof {
        if n > 0 {
            assert(crate::text::views(comps@).last() == comps@[n - 1]@);
        }
    }
    if n > 0 && !crate::text::str_equal(comps[n - 1].as_str(), "/") && !crate::text::str_equal(
        comps[n - 1].as_str(),
        ".",
    ) && !crate::text::str_equal(comps[n - 1].as_str(), "..") {
        Some(comps[n - 1].clone())
    } else {
        None
    }
}

/// The parameters a copy needs: a source or a content, and a destination.
pub fn validate_params(has_src: bool, has_content: bool, has_dest: bool) -> (r: ModuleResult<()>)
    ensures
        (!has_src && !has_content) ==> (r matches Err(ModuleError::MissingParameter(m))
            && m@ == "Either 'src' or 'content' must be provided"@),
        (has_src || has_content) && !has_dest ==> (r matches Err(ModuleError::MissingParameter(m)) && m@ == "dest"@),
        (has_src || has_content) && has_dest ==> r is Ok,
{
    if !has_src && !has_content {
        return Err(ModuleError::MissingParameter(copy_str("Either 'src' or 'content' must be provided")));
    }
    if !has_dest {
        return Err(ModuleError::MissingParameter(copy_str("dest")));
    }
    Ok(())
}

/// How the source of a copy is named in messages: `(content)` for given
/// content, which wins over a source file; the source file's path otherwise,
/// when that file exists.
pub fn source_display(src: Option<&str>, content_given: bool, src_exists: bool) -> (r: ModuleResult<String>)
    ensures
        content_given ==> (r matches Ok(d) && d@ == "(content)"@),
        !content_given ==> match src {
            Some(s) => if src_exists {
                r matches Ok(d) && d@ == s@
            } else {
                r matches Err(ModuleError::ExecutionFailed(m)) && m@ == "Source file '"@ + s@ + "' does not exist"@
            },
            None => r matches Err(ModuleError::MissingParameter(m)) && m@ == "Either 'src' or 'content' must be provided"@,
        },
{
    if content_given {
        Ok(copy_str("(content)"))
    } else {
        match src {
            Some(s) => if src_exists {
                Ok(copy_str(s))
            } else {
                Err(ModuleError::ExecutionFailed(concat3("Source file '", s, "' does not exist")))
            },
            None => Err(ModuleError::MissingParameter(copy_str("Either 'src' or 'content' must be provided"))),
        }
    }
}

/// Where a copy goes: into a destination directory under the source file's
/// name, otherwise to the destination itself. Content cannot go into a
/// directory, having no name of its own.
pub fn copy_destination(src: Option<&str>, dest: &str, dest_is_dir: bool) -> (r: ModuleResult<String>)
    ensures
        !dest_is_dir ==> (r matches Ok(d) && d@ == dest@),
        dest_is_dir ==> match src {
            Some(s) => match file_name_of(s@) {
                Some(n) => r matches Ok(d) && d@ == joined_path(dest@, n),
                None => r matches Err(ModuleError::InvalidParameter(m)) && m@ == "Cannot determine filename from source"@,
            },
            None => r matches Err(ModuleError::InvalidParameter(m))
                && m@ == "Cannot copy content to a directory without specifying filename"@,
        },
{
    if !dest_is_dir {
        return Ok(copy_str(dest));
    }
    match src {
        Some(s) => match file_name(s) {
            Some(n) => Ok(crate::modules::python::join_path(dest, n.as_str())),
            None => Err(ModuleError::InvalidParameter(copy_str("Cannot determine filename from source"))),
        },
        None => Err(ModuleError::InvalidParameter(
            copy_str("Cannot copy content to a directory without specifying filename"),
        )),
    }
}

/// What a copy comes to, once it is known whether the content differs.
#[derive(Debug, Clone, Copy, PartialEq, Eq, Structural)]
pub enum CopyOutcome {
    /// Nothing to do.
    UpToDate,
    /// Only the permissions differ.
    PermissionsOnly,
    /// The content must be copied.
    Copy,
}

/// Decides a copy: copy when the content differs; otherwise change the
/// permissions when a mode is asked for and the destination exists with
/// other permission bits; otherwise nothing.
pub fn copy_outcome(needs_copy: bool, mode: Option<u32>, current_mode: Option<u32>) -> (r: CopyOutcome)
    ensures
        needs_copy ==> r == CopyOutcome::Copy,
        !needs_copy ==> r == (match (mode, current_mode) {
            (Some(m), Some(c)) => if c != m { CopyOutcome::PermissionsOnly } else { CopyOutcome::UpToDate },
            _ => CopyOutcome::UpToDate,
        }),
{
    if needs_copy {
        return CopyOutcome::Copy;
    }
    match (mode, current_mode) {
        (Some(m), Some(c)) => if c != m {
            CopyOutcome::PermissionsOnly
        } else {
            CopyOutcome::UpToDate
        },
        _ => CopyOutcome::UpToDate,
    }
}

/// What the module reports for an outcome, and whether it changed anything.
pub fn copy_report(outcome: CopyOutcome, check_mode: bool, source: &str, dest: &str) -> (r: (bool, String))
    ensures
        r.0 == (outcome != CopyOutcome::UpToDate),
        r.1@ == match outcome {
            CopyOutcome::UpToDate => "File '"@ + dest@ + "' is already up to date"@,
            CopyOutcome::PermissionsOnly => if check_mode {
                "Would change permissions on '"@ + dest@ + "'"@
            } else {
                "Changed permissions on '"@ + dest@ + "'"@
            },
            CopyOutcome::Copy => if check_mode {
                "Would copy "@ + source@ + " to '"@ + dest@ + "'"@
            } else {
                "Copied "@ + source@ + " to '"@ + dest@ + "'"@
            },
        },
{
    match outcome {
        CopyOutcome::UpToDate => (false, concat3("File '", dest, "' is already up to date")),
        CopyOutcome::PermissionsOnly => if check_mode {
            (true, concat3("Would change permissions on '", dest, "'"))
        } else {
            (true, concat3("Changed permissions on '", dest, "'"))
        },
        CopyOutcome::Copy => {
            let head = if check_mode { concat2("Would copy ", source) } else { concat2("Copied ", source) };
            (true, concat3(head.as_str(), " to '", concat2(dest, "'").as_str()))
        },
    }
}

/// One step of a copy run on the control node.
#[derive(Debug, Clone, Copy, PartialEq, Eq, Structural)]
pub enum CopyAction {
    /// Copy the destination to its backup path (see `backup_path`).
    Backup,
    /// Create the destination's parent directories.
    CreateParent,
    /// Write the content, or copy the source, to the destination.
    Write,
    /// Give the destination this mode unless it already has it.
    EnsureMode(u32),
}

/// The steps a copy run takes. Check mode takes none, and neither does a
/// destination that is up to date. When only the permissions differ, the
/// mode is set. Otherwise: a backup of an existing destination when one is
/// asked for, the parent directories when they are missing, the write, and
/// then the mode when one is given.
pub open spec fn copy_steps(
    outcome: CopyOutcome,
    check_mode: bool,
    backup: bool,
    target_exists: bool,
    parent_exists: bool,
    mode: Option<u32>,
) -> Seq<CopyAction> {
    let mode_step: Seq<CopyAction> = match mode {
        Some(m) => seq![CopyAction::EnsureMode(m)],
        None => Seq::empty(),
    };
    if check_mode {
        Seq::empty()
    } else {
        match outcome {
            CopyOutcome::UpToDate => Seq::empty(),
            CopyOutcome::PermissionsOnly => mode_step,
            CopyOutcome::Copy => {
                let b: Seq<CopyAction> = if backup && target_exists { seq![CopyAction::Backup] } else { Seq::empty() };
                let p: Seq<CopyAction> = if !parent_exists { seq![CopyAction::CreateParent] } else { Seq::empty() };
                b + p + seq![CopyAction::Write] + mode_step
            },
        }
    }
}

/// The steps a copy run takes; nothing at all in check mode.
pub fn copy_actions(
    outcome: CopyOutcome,
    check_mode: bool,
    backup: bool,
    target_exists: bool,
    parent_exists: bool,
    mode: Option<u32>,
) -> (r: Vec<CopyAction>)
    ensures
        r@ == copy_steps(outcome, check_mode, backup, target_exists, parent_exists, mode),
        check_mode ==> r@.len() == 0,
{
    let mut r: Vec<CopyAction> = Vec::new();
    if check_mode {
        return r;
    }
    match outcome {
        CopyOutcome::UpToDate => {},
        CopyOutcome::PermissionsOnly => {
            if let Some(m) = mode {
                r.push(CopyAction::EnsureMode(m));
            }
        },
        CopyOutcome::Copy => {
            if backup && target_exists {
                r.push(CopyAction::Backup);
            }
            if !parent_exists {
                r.push(CopyAction::CreateParent);
            }
            r.push(CopyAction::Write);
            if let Some(m) = mode {
                r.push(CopyAction::EnsureMode(m));
            }
        },
    }
    proof {
        assert(r@ =~= copy_steps(outcome, check_mode, backup, target_exists, parent_exists, mode));
    }
    r
}

/// Whether the write step may copy a source file over the destination: an
/// existing read-only destination is only overwritten with `force` (given
/// content is always written).
pub fn write_permission(from_src: bool, target_exists: bool, read_only: bool, force: bool, target: &str) -> (r: ModuleResult<()>)
    ensures
        (from_src && target_exists && read_only && !force) ==> (r matches Err(ModuleError::PermissionDenied(m))
            && m@ == "Destination '"@ + target@ + "' is read-only and force is not set"@),
        !(from_src && target_exists && read_only && !force) ==> r is Ok,
{
    if from_src && target_exists && read_only && !force {
        return Err(ModuleError::PermissionDenied(concat3("Destination '", target, "' is read-only and force is not set")));
    }
    Ok(())
}

/// Where the backup of a destination goes: its path with the suffix added.
pub fn backup_path(target: &str, suffix: &str) -> (r: String)
    ensures
        r@ == target@ + suffix@,
{
    concat2(target, suffix)
}

} // verus!
