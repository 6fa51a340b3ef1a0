//! Python package management with pip: package states, the module's
//! description and the choice of the pip executable.
use vstd::prelude::*;
use crate::text::{
    chars_of, concat2, concat3, copy_str, has_prefix, join, joined, lowercase, str_equal, str_to_lowercase, starts_with,
    sub_chars, views,
};
use super::packages::{lemma_selected_by_flag, lemma_selected_none_or_all, with_flag, clause, distribute, drop_last_char, push_clause, selected, sentence, PackagePlan, PlanSlot};
use super::{ModuleClassification, ModuleError, ModuleResult, ParallelizationHint};

verus! {

/// Desired state for a package.
#[derive(Debug, Clone, PartialEq, Eq, Structural)]
pub enum PipState {
    /// The package is installed.
    Present,
    /// The package is not installed.
    Absent,
    /// The package is installed at its newest version.
    Latest,
}

/// The state named by an already lowercased word, if any.
pub open spec fn pip_state_named(lower: Seq<char>) -> Option<PipState> {
    if lower == "present"@ || lower == "installed"@ {
        Some(PipState::Present)
    } else if lower == "absent"@ || lower == "removed"@ {
        Some(PipState::Absent)
    } else if lower == "latest"@ {
        Some(PipState::Latest)
    } else {
        None
    }
}

impl PipState {
    /// Parses a state name, ignoring case.
    pub fn from_str(s: &str) -> (r: ModuleResult<PipState>)
        ensures
            match pip_state_named(lowercase(s@)) {
                Some(st) => r == Ok::<PipState, ModuleError>(st),
                None => r matches Err(ModuleError::InvalidParameter(m))
                    && m@ == "Invalid state '"@ + s@ + "'. Valid states: present, absent, latest"@,
            },
    {
        let lower = str_to_lowercase(s);
        let l = lower.as_str();
        if str_equal(l, "present") || str_equal(l, "installed") {
            Ok(PipState::Present)
        } else if str_equal(l, "absent") || str_equal(l, "removed") {
            Ok(PipState::Absent)
        } else if str_equal(l, "latest") {
            Ok(PipState::Latest)
        } else {
            Err(ModuleError::InvalidParameter(
                concat3("Invalid state '", s, "'. Valid states: present, absent, latest"),
            ))
        }
    }
}

/// Module for pip package management.
pub struct PipModule;

impl PipModule {
    /// The module's name.
    pub fn name(&self) -> (r: &'static str)
        ensures
            r@ == "pip"@,
    {
        "pip"
    }

    /// What the module does.
    pub fn description(&self) -> (r: &'static str)
        ensures
            r@ == "Manage Python packages with pip"@,
    {
        "Manage Python packages with pip"
    }

    /// pip runs commands on the target.
    pub fn classification(&self) -> (r: ModuleClassification)
        ensures
            r == ModuleClassification::RemoteCommand,
    {
        ModuleClassification::RemoteCommand
    }

    /// pip may run on all hosts at once.
    pub fn parallelization_hint(&self) -> (r: ParallelizationHint)
        ensures
            r == ParallelizationHint::FullyParallel,
    {
        ParallelizationHint::FullyParallel
    }

    /// No single parameter is required: either `name` or `requirements` is.
    pub fn required_params(&self) -> (r: &'static [&'static str])
        ensures
            r@.len() == 0,
    {
        &[]
    }

    /// The pip executable to run: the one of the virtualenv when one is
    /// given, else the configured executable, else `pip3`.
    pub fn pip_command(executable: Option<&str>, virtualenv: Option<&str>) -> (r: String)
        ensures
            r@ == match virtualenv {
                Some(venv) => venv@ + "/bin/pip"@,
                None => match executable {
                    Some(e) => e@,
                    None => "pip3"@,
                },
            },
    {
        match virtualenv {
            Some(venv) => concat2(venv, "/bin/pip"),
            None => match executable {
                Some(e) => copy_str(e),
                None => copy_str("pip3"),
            },
        }
    }

    /// Parameters are valid when `name` or `requirements` is given.
    pub fn validate_params(has_name: bool, has_requirements: bool) -> (r: ModuleResult<()>)
        ensures
            (has_name || has_requirements) <==> r is Ok,
            !(has_name || has_requirements) ==> (r matches Err(ModuleError::MissingParameter(m))
                && m@ == "Either 'name' or 'requirements' must be provided"@),
    {
        if !has_name && !has_requirements {
            return Err(ModuleError::MissingParameter(
                copy_str("Either 'name' or 'requirements' must be provided"),
            ));
        }
        Ok(())
    }
}


/// Where pip puts a package, given whether it is installed: `latest` always
/// installs (with `--upgrade`).
pub open spec fn pip_slot(state: PipState, installed: bool) -> PlanSlot {
    match state {
        PipState::Present => if installed { PlanSlot::Keep } else { PlanSlot::Install },
        PipState::Absent => if installed { PlanSlot::Remove } else { PlanSlot::Keep },
        PipState::Latest => PlanSlot::Install,
    }
}

/// The slots of all packages.
pub open spec fn pip_slots(state: PipState, installed: Seq<bool>) -> Seq<PlanSlot> {
    installed.map_values(|b: bool| pip_slot(state, b))
}

/// The arguments of one pip run.
pub open spec fn arg_views(v: Seq<String>) -> Seq<Seq<char>> {
    views(v)
}

/// `install` (with `--upgrade` for `latest`) and the packages.
pub open spec fn pip_install_spec(state: PipState, packages: Seq<String>) -> Seq<Seq<char>> {
    (if state is Latest { seq!["install"@, "--upgrade"@] } else { seq!["install"@] }) + views(packages)
}

/// `uninstall -y` and the packages.
pub open spec fn pip_uninstall_spec(packages: Seq<String>) -> Seq<Seq<char>> {
    seq!["uninstall"@, "-y"@] + views(packages)
}

/// The message of a check-mode run over packages.
pub open spec fn pip_would_message(p: PackagePlan, venv_created: bool) -> Seq<char> {
    sentence(
        (if venv_created { "Would create virtualenv. "@ } else { Seq::empty() }) + clause("Would install: "@, p.to_install@)
            + clause("Would remove: "@, p.to_remove@),
    )
}

/// The message of a run over packages that changed something.
pub open spec fn pip_done_message(p: PackagePlan, venv_created: bool) -> Seq<char> {
    sentence(
        (if venv_created { "Virtualenv created. "@ } else { Seq::empty() }) + clause("Installed: "@, p.to_install@)
            + clause("Removed: "@, p.to_remove@),
    )
}

/// Whether a text holds another.
pub open spec fn holds_text(s: Seq<char>, t: Seq<char>) -> bool {
    exists|i: int| 0 <= i <= s.len() - t.len() && #[trigger] s.subrange(i, i + t.len()) == t
}

/// Whether `s` holds `t`.
fn text_holds(s: &str, t: &str) -> (r: bool)
    ensures
        r == holds_text(s@, t@),
{
    let cs = chars_of(s);
    let n = cs.len();
    let m = chars_of(t).len();
    if m > n {
        return false;
    }
    let mut i: usize = 0;
    loop
        invariant
            cs@ == s@,
            n == s@.len(),
            m == t@.len(),
            m <= n,
            i <= n - m,
            forall|j: int| 0 <= j < i ==> #[trigger] s@.subrange(j, j + m) != t@,
        decreases n - m - i,
    {
        let rest = sub_chars(cs.as_slice(), i, n);
        proof {
            assert(rest@.take(m as int) =~= s@.subrange(i as int, i + m));
        }
        if starts_with(rest.as_slice(), t) {
            return true;
        }
        if i == n - m {
            return false;
        }
        i = i + 1;
    }
}

impl PipModule {
    /// Splits the packages by what the run must do with them, given whether
    /// each is installed.
    pub fn plan(packages: &[String], state: PipState, installed: &[bool]) -> (p: PackagePlan)
        requires
            packages@.len() == installed@.len(),
        ensures
            p.to_install@ == selected(packages@, pip_slots(state, installed@), PlanSlot::Install),
            p.to_remove@ == selected(packages@, pip_slots(state, installed@), PlanSlot::Remove),
            p.to_upgrade@ == selected(packages@, pip_slots(state, installed@), PlanSlot::Upgrade),
            p.already_ok@ == selected(packages@, pip_slots(state, installed@), PlanSlot::Keep),
    {
        let mut slots: Vec<PlanSlot> = Vec::new();
        let mut i: usize = 0;
        while i < installed.len()
            invariant
                i <= installed@.len(),
                slots@ =~= pip_slots(state, installed@.take(i as int)),
            decreases installed@.len() - i,
        {
            let b = installed[i];
            let slot = match state {
                PipState::Present => if b { PlanSlot::Keep } else { PlanSlot::Install },
                PipState::Absent => if b { PlanSlot::Remove } else { PlanSlot::Keep },
                PipState::Latest => PlanSlot::Install,
            };
            slots.push(slot);
            i = i + 1;
            proof {
                assert(installed@.take(i as int) =~= installed@.take(i - 1).push(b));
            }
        }
        proof {
            assert(installed@.take(installed@.len() as int) =~= installed@);
        }
        distribute(packages, slots.as_slice())
    }

    /// The arguments that ask pip whether a package is installed: `show` and the package.
    pub fn pip_show_command(package: &str) -> (r: Vec<String>)
        ensures
            views(r@) == seq!["show"@, package@],
    {
        let r = vec![copy_str("show"), copy_str(package)];
        proof {
            assert(views(r@) =~= seq!["show"@, package@]);
        }
        r
    }

    /// The arguments that install packages: `install`, `--upgrade` for
    /// `latest`, then the packages.
    pub fn install_args(state: PipState, packages: &[String]) -> (r: Vec<String>)
        ensures
            views(r@) == pip_install_spec(state, packages@),
    {
        let mut r: Vec<String> = vec![copy_str("install")];
        if state == PipState::Latest {
            r.push(copy_str("--upgrade"));
        }
        let ghost head = views(r@);
        push_all(&mut r, packages);
        proof {
            assert(head =~= (if state is Latest { seq!["install"@, "--upgrade"@] } else { seq!["install"@] }));
        }
        r
    }

    /// The arguments that remove packages: `uninstall -y`, then the packages.
    pub fn uninstall_args(packages: &[String]) -> (r: Vec<String>)
        ensures
            views(r@) == pip_uninstall_spec(packages@),
    {
        let mut r: Vec<String> = vec![copy_str("uninstall"), copy_str("-y")];
        let ghost head = views(r@);
        push_all(&mut r, packages);
        proof {
            assert(head =~= seq!["uninstall"@, "-y"@]);
        }
        r
    }

    /// The arguments that install from a requirements file: `install`,
    /// `--upgrade` for `latest`, `-r` and the file; `absent` is refused.
    pub fn requirements_args(state: PipState, requirements: &str) -> (r: ModuleResult<Vec<String>>)
        ensures
            state is Absent ==> (r matches Err(ModuleError::InvalidParameter(m))
                && m@ == "state=absent is not supported with requirements parameter"@),
            !(state is Absent) ==> (r matches Ok(v) && views(v@) == (if state is Latest {
                seq!["install"@, "--upgrade"@]
            } else {
                seq!["install"@]
            }) + seq!["-r"@, requirements@]),
    {
        if state == PipState::Absent {
            return Err(ModuleError::InvalidParameter(copy_str("state=absent is not supported with requirements parameter")));
        }
        let mut r: Vec<String> = vec![copy_str("install")];
        if state == PipState::Latest {
            r.push(copy_str("--upgrade"));
        }
        r.push(copy_str("-r"));
        r.push(copy_str(requirements));
        proof {
            assert(views(r@) =~= (if state is Latest {
                seq!["install"@, "--upgrade"@]
            } else {
                seq!["install"@]
            }) + seq!["-r"@, requirements@]);
        }
        Ok(r)
    }

    /// The report of a check-mode run over packages.
    pub fn check_report(plan: &PackagePlan, venv_created: bool) -> (r: (bool, String))
        ensures
            (plan.to_install@.len() == 0 && plan.to_remove@.len() == 0 && !venv_created) ==> !r.0 && r.1@
                == "All packages already in desired state: "@ + joined(views(plan.already_ok@), ", "@),
            !(plan.to_install@.len() == 0 && plan.to_remove@.len() == 0 && !venv_created) ==> r.0 && r.1@
                == pip_would_message(*plan, venv_created),
    {
        if plan.to_install.len() == 0 && plan.to_remove.len() == 0 && !venv_created {
            let list = join(plan.already_ok.as_slice(), ", ");
            return (false, concat2("All packages already in desired state: ", list.as_str()));
        }
        let mut msg = String::new();
        if venv_created {
            msg.append("Would create virtualenv. ");
        }
        push_clause(&mut msg, "Would install: ", plan.to_install.as_slice());
        push_clause(&mut msg, "Would remove: ", plan.to_remove.as_slice());
        proof {
            reveal_strlit(". ");
            reveal_strlit("Would create virtualenv. ");
        }
        (true, drop_last_char(&msg))
    }

    /// The report of a run over packages whose commands all succeeded.
    pub fn done_report(plan: &PackagePlan, venv_created: bool) -> (r: (bool, String))
        ensures
            r.0 == (venv_created || plan.to_install@.len() > 0 || plan.to_remove@.len() > 0),
            !r.0 ==> r.1@ == "All packages already in desired state"@,
            r.0 ==> r.1@ == pip_done_message(*plan, venv_created),
    {
        if plan.to_install.len() == 0 && plan.to_remove.len() == 0 && !venv_created {
            return (false, copy_str("All packages already in desired state"));
        }
        let mut msg = String::new();
        if venv_created {
            msg.append("Virtualenv created. ");
        }
        push_clause(&mut msg, "Installed: ", plan.to_install.as_slice());
        push_clause(&mut msg, "Removed: ", plan.to_remove.as_slice());
        proof {
            reveal_strlit(". ");
            reveal_strlit("Virtualenv created. ");
        }
        (true, drop_last_char(&msg))
    }

    /// The report of a check-mode run over a requirements file.
    pub fn requirements_check_report(requirements: &str, venv_created: bool) -> (r: String)
        ensures
            r@ == (if venv_created { "Would create virtualenv. "@ } else { Seq::empty() })
                + "Would install packages from requirements file: "@ + requirements@,
    {
        let tail = concat2("Would install packages from requirements file: ", requirements);
        if venv_created {
            concat2("Would create virtualenv. ", tail.as_str())
        } else {
            tail
        }
    }

    /// The report of a run over a requirements file whose install succeeded:
    /// something changed unless pip said every requirement was already
    /// satisfied and no virtualenv was created.
    pub fn requirements_done_report(requirements: &str, stdout: &str, venv_created: bool) -> (r: (bool, String))
        ensures
            r.0 == (!holds_text(stdout@, "Requirement already satisfied"@) || venv_created),
            r.0 ==> r.1@ == "Installed packages from requirements file: "@ + requirements@,
            !r.0 ==> r.1@ == "All requirements already satisfied"@,
    {
        let changed = !text_holds(stdout, "Requirement already satisfied");
        if changed || venv_created {
            (true, concat2("Installed packages from requirements file: ", requirements))
        } else {
            (false, copy_str("All requirements already satisfied"))
        }
    }

    /// The error of a failed pip run: what failed, then the error output, or
    /// the standard output when there is no error output.
    pub fn failure(what: &str, stdout: &str, stderr: &str) -> (e: ModuleError)
        ensures
            e matches ModuleError::ExecutionFailed(m) && m@ == what@ + ": "@ + (if stderr@.len() == 0 {
                stdout@
            } else {
                stderr@
            }),
    {
        let detail = if chars_of(stderr).len() == 0 { stdout } else { stderr };
        ModuleError::ExecutionFailed(concat3(what, ": ", detail))
    }
}

/// Appends copies of the strings.
fn push_all(out: &mut Vec<String>, items: &[String])
    ensures
        views(final(out)@) == views(old(out)@) + views(items@),
{
    let ghost start = views(out@);
    let mut i: usize = 0;
    while i < items.len()
        invariant
            i <= items@.len(),
            views(out@) == start + views(items@.take(i as int)),
        decreases items@.len() - i,
    {
        let ghost before = views(out@);
        out.push(items[i].clone());
        i = i + 1;
        proof {
            assert(views(out@) =~= before.push(items@[i - 1]@));
            assert(views(items@.take(i as int)) =~= views(items@.take(i - 1)).push(items@[i - 1]@));
        }
    }
    proof {
        assert(items@.take(items@.len() as int) =~= items@);
    }
}

/// What a plan does with each package follows from whether it is installed:
/// with `absent`, exactly the installed packages are removed and the missing
/// ones are left alone; with `present`, exactly the missing packages are
/// installed and the installed ones are left alone; with `latest`, every
/// package is installed, whether or not it already is.
/// No package is put on any other list.
pub proof fn law_pip_plan_by_installed(pkgs: Seq<String>, installed: Seq<bool>, state: PipState)
    requires
        pkgs.len() == installed.len(),
    ensures
        state is Absent ==> selected(pkgs, pip_slots(state, installed), PlanSlot::Remove) == with_flag(pkgs, installed, true)
            && selected(pkgs, pip_slots(state, installed), PlanSlot::Keep) == with_flag(pkgs, installed, false)
            && selected(pkgs, pip_slots(state, installed), PlanSlot::Install).len() == 0
            && selected(pkgs, pip_slots(state, installed), PlanSlot::Upgrade).len() == 0,
        state is Present ==> selected(pkgs, pip_slots(state, installed), PlanSlot::Install) == with_flag(pkgs, installed, false)
            && selected(pkgs, pip_slots(state, installed), PlanSlot::Keep) == with_flag(pkgs, installed, true)
            && selected(pkgs, pip_slots(state, installed), PlanSlot::Remove).len() == 0
            && selected(pkgs, pip_slots(state, installed), PlanSlot::Upgrade).len() == 0,
        state is Latest ==> selected(pkgs, pip_slots(state, installed), PlanSlot::Install) == pkgs
            && selected(pkgs, pip_slots(state, installed), PlanSlot::Remove).len() == 0
            && selected(pkgs, pip_slots(state, installed), PlanSlot::Upgrade).len() == 0
            && selected(pkgs, pip_slots(state, installed), PlanSlot::Keep).len() == 0,
{
    let slots = pip_slots(state, installed);
    assert forall|i: int| 0 <= i < slots.len() implies #[trigger] slots[i] == pip_slot(state, installed[i]) by {}
    match state {
        PipState::Absent => {
            lemma_selected_by_flag(pkgs, installed, slots, PlanSlot::Remove, true);
            lemma_selected_by_flag(pkgs, installed, slots, PlanSlot::Keep, false);
            lemma_selected_none_or_all(pkgs, slots, PlanSlot::Install);
            lemma_selected_none_or_all(pkgs, slots, PlanSlot::Upgrade);
        },
        PipState::Present => {
            lemma_selected_by_flag(pkgs, installed, slots, PlanSlot::Install, false);
            lemma_selected_by_flag(pkgs, installed, slots, PlanSlot::Keep, true);
            lemma_selected_none_or_all(pkgs, slots, PlanSlot::Remove);
            lemma_selected_none_or_all(pkgs, slots, PlanSlot::Upgrade);
        },
        PipState::Latest => {
            lemma_selected_none_or_all(pkgs, slots, PlanSlot::Install);
            lemma_selected_none_or_all(pkgs, slots, PlanSlot::Remove);
            lemma_selected_none_or_all(pkgs, slots, PlanSlot::Upgrade);
            lemma_selected_none_or_all(pkgs, slots, PlanSlot::Keep);
        },
    }
}

} // verus!
