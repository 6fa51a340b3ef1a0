//! DNF package management: package states, the module's description and the
//! quoting of package names for the shell.
use vstd::prelude::*;
use crate::text::{concat2, concat3, copy_str, str_equal, str_to_lowercase, lowercase};
use super::{Diff, ModuleClassification, ModuleError, ModuleResult, ParallelizationHint, shell_escaped, escape_shell_word};
use super::packages::{lemma_selected_by_flag, lemma_selected_none_or_all, with_flag, PackagePlan, PlanSlot, distribute, diff_line, diff_of_lines, escaped_list, escaped_names, make_diff_line, selected};
use crate::text::{joined, views};

verus! {

/// Desired state for a package.
#[derive(Debug, Clone, PartialEq, Eq, Structural)]
pub enum DnfState {
    /// The package is installed.
    Present,
    /// The package is not installed.
    Absent,
    /// The package is installed at its newest version.
    Latest,
}

/// The state named by an already lowercased word, if any.
pub open spec fn dnf_state_named(lower: Seq<char>) -> Option<DnfState> {
    if lower == "present"@ || lower == "installed"@ {
        Some(DnfState::Present)
    } else if lower == "absent"@ || lower == "removed"@ {
        Some(DnfState::Absent)
    } else if lower == "latest"@ {
        Some(DnfState::Latest)
    } else {
        None
    }
}

impl DnfState {
    /// Parses a state name, ignoring case.
    pub fn from_str(s: &str) -> (r: ModuleResult<DnfState>)
        ensures
            match dnf_state_named(lowercase(s@)) {
                Some(st) => r == Ok::<DnfState, ModuleError>(st),
                None => r matches Err(ModuleError::InvalidParameter(m))
                    && m@ == "Invalid state '"@ + s@ + "'. Valid states: present, absent, latest"@,
            },
    {
        let lower = str_to_lowercase(s);
        let l = lower.as_str();
        if str_equal(l, "present") || str_equal(l, "installed") {
            Ok(DnfState::Present)
        } else if str_equal(l, "absent") || str_equal(l, "removed") {
            Ok(DnfState::Absent)
        } else if str_equal(l, "latest") {
            Ok(DnfState::Latest)
        } else {
            Err(ModuleError::InvalidParameter(
                concat3("Invalid state '", s, "'. Valid states: present, absent, latest"),
            ))
        }
    }
}

/// Module for DNF package management.
pub struct DnfModule;

impl DnfModule {
    /// The module's name.
    pub fn name(&self) -> (r: &'static str)
        ensures
            r@ == "dnf"@,
    {
        "dnf"
    }

    /// What the module does.
    pub fn description(&self) -> (r: &'static str)
        ensures
            r@ == "Manage packages with the DNF package manager"@,
    {
        "Manage packages with the DNF package manager"
    }

    /// DNF runs commands on the target.
    pub fn classification(&self) -> (r: ModuleClassification)
        ensures
            r == ModuleClassification::RemoteCommand,
    {
        ModuleClassification::RemoteCommand
    }

    /// DNF takes a lock, so only one run per host at a time.
    pub fn parallelization_hint(&self) -> (r: ParallelizationHint)
        ensures
            r == ParallelizationHint::HostExclusive,
    {
        ParallelizationHint::HostExclusive
    }

    /// The parameters the module cannot run without.
    pub fn required_params(&self) -> (r: &'static [&'static str])
        ensures
            r@.len() == 1,
            r@[0]@ == "name"@,
    {
        &["name"]
    }
}

/// Escapes a package name for the shell; unlike APT's, `+` is quoted.
pub fn shell_escape(s: &str) -> (r: String)
    ensures
        r@ == shell_escaped(s@, false),
{
    escape_shell_word(s, false)
}

/// Where DNF puts a package, given whether it is installed.
pub open spec fn dnf_slot(state: DnfState, installed: bool) -> PlanSlot {
    match state {
        DnfState::Present => if installed { PlanSlot::Keep } else { PlanSlot::Install },
        DnfState::Absent => if installed { PlanSlot::Remove } else { PlanSlot::Keep },
        DnfState::Latest => PlanSlot::Install,
    }
}

/// The slots of all packages.
pub open spec fn dnf_slots(state: DnfState, installed: Seq<bool>) -> Seq<PlanSlot> {
    installed.map_values(|b: bool| dnf_slot(state, b))
}

/// The before and after lines of one package when the target was asked.
pub open spec fn dnf_diff_lines(state: DnfState, name: Seq<char>, installed: bool, version: Seq<char>) -> (Seq<char>, Seq<char>) {
    match state {
        DnfState::Present => if installed {
            (diff_line(name, version), diff_line(name, version))
        } else {
            (diff_line(name, "(not installed)"@), diff_line(name, "(will be installed)"@))
        },
        DnfState::Absent => if installed {
            (diff_line(name, version), diff_line(name, "(will be removed)"@))
        } else {
            (diff_line(name, "(not installed)"@), diff_line(name, "(not installed)"@))
        },
        DnfState::Latest => if installed {
            (diff_line(name, version), diff_line(name, version))
        } else {
            (diff_line(name, "(not installed)"@), diff_line(name, "(will be installed)"@))
        },
    }
}

/// The before and after lines of one package when the target could not be asked.
pub open spec fn dnf_blind_diff_lines(state: DnfState, name: Seq<char>) -> (Seq<char>, Seq<char>) {
    match state {
        DnfState::Absent => (diff_line(name, "(unknown)"@), diff_line(name, "(will be removed)"@)),
        _ => (diff_line(name, "(unknown)"@), diff_line(name, "(will be installed/updated)"@)),
    }
}

impl DnfModule {
    /// Splits the packages by what the run must do with them, given whether
    /// each is installed.
    pub fn plan(packages: &[String], state: DnfState, installed: &[bool]) -> (p: PackagePlan)
        requires
            packages@.len() == installed@.len(),
        ensures
            p.to_install@ == selected(packages@, dnf_slots(state, installed@), PlanSlot::Install),
            p.to_remove@ == selected(packages@, dnf_slots(state, installed@), PlanSlot::Remove),
            p.to_upgrade@ == selected(packages@, dnf_slots(state, installed@), PlanSlot::Upgrade),
            p.already_ok@ == selected(packages@, dnf_slots(state, installed@), PlanSlot::Keep),
    {
        let mut slots: Vec<PlanSlot> = Vec::new();
        let mut i: usize = 0;
        while i < installed.len()
            invariant
                i <= installed@.len(),
                slots@ =~= dnf_slots(state, installed@.take(i as int)),
            decreases installed@.len() - i,
        {
            let b = installed[i];
            let slot = match state {
                DnfState::Present => if b { PlanSlot::Keep } else { PlanSlot::Install },
                DnfState::Absent => if b { PlanSlot::Remove } else { PlanSlot::Keep },
                DnfState::Latest => PlanSlot::Install,
            };
            slots.push(slot);
            i = i + 1;
            proof {
                assert(installed@.take(i as int) =~= installed@.take(i - 1).push(b));
            }
        }
        proof {
            assert(installed@.take(installed@.len() as int) =~= installed@);
        }
        distribute(packages, slots.as_slice())
    }

    /// The command that tells whether a package is installed.
    pub fn installed_check_command(package: &str) -> (r: String)
        ensures
            r@ == "rpm -q "@ + shell_escaped(package@, false),
    {
        let escaped = shell_escape(package);
        concat2("rpm -q ", escaped.as_str())
    }

    /// The command that prints the installed version and release of a package.
    pub fn version_query_command(package: &str) -> (r: String)
        ensures
            r@ == "rpm -q --qf '%{VERSION}-%{RELEASE}' "@ + shell_escaped(package@, false),
    {
        let escaped = shell_escape(package);
        concat2("rpm -q --qf '%{VERSION}-%{RELEASE}' ", escaped.as_str())
    }

    /// The command that refreshes the package cache.
    pub fn update_cache_command() -> (r: &'static str)
        ensures
            r@ == "dnf makecache"@,
    {
        "dnf makecache"
    }

    /// The words `dnf`, the action's arguments and the escaped packages,
    /// joined by spaces.
    pub fn dnf_command(action: &str, packages: &[String]) -> (r: String)
        ensures
            r@ == "dnf "@ + action@ + " -y"@ + (if packages@.len() == 0 {
                Seq::empty()
            } else {
                " "@ + joined(escaped_names(packages@, false), " "@)
            }),
    {
        let mut r = concat3("dnf ", action, " -y");
        if packages.len() > 0 {
            let list = escaped_list(packages, false);
            r.append(" ");
            r.append(list.as_str());
        }
        r
    }

    /// What a failed command reports: its error output, or its standard
    /// output when the error output is empty.
    pub fn failure_detail(stdout: &str, stderr: &str) -> (r: String)
        ensures
            r@ == if stderr@.len() == 0 { stdout@ } else { stderr@ },
    {
        if stderr.is_empty() {
            copy_str(stdout)
        } else {
            copy_str(stderr)
        }
    }

    /// The diff of a run when the target was asked: one before and one after
    /// line per package, from whether it is installed and its version.
    pub fn diff_lines(packages: &[String], state: DnfState, probes: &[(bool, String)]) -> (d: Diff)
        requires
            probes@.len() == packages@.len(),
        ensures
            d.details.is_none(),
            d.before@ == joined(
                Seq::new(packages@.len(), |i: int| dnf_diff_lines(state, packages@[i]@, probes@[i].0, probes@[i].1@).0),
                "\n"@,
            ),
            d.after@ == joined(
                Seq::new(packages@.len(), |i: int| dnf_diff_lines(state, packages@[i]@, probes@[i].0, probes@[i].1@).1),
                "\n"@,
            ),
    {
        let mut before: Vec<String> = Vec::new();
        let mut after: Vec<String> = Vec::new();
        let mut i: usize = 0;
        while i < packages.len()
            invariant
                i <= packages@.len(),
                probes@.len() == packages@.len(),
                views(before@) =~= Seq::new(i as nat, |k: int| dnf_diff_lines(state, packages@[k]@, probes@[k].0, probes@[k].1@).0),
                views(after@) =~= Seq::new(i as nat, |k: int| dnf_diff_lines(state, packages@[k]@, probes@[k].0, probes@[k].1@).1),
            decreases packages@.len() - i,
        {
            let name = packages[i].as_str();
            let installed = probes[i].0;
            let version = probes[i].1.as_str();
            let (b, a) = match state {
                DnfState::Present => if installed {
                    (make_diff_line(name, version), make_diff_line(name, version))
                } else {
                    (make_diff_line(name, "(not installed)"), make_diff_line(name, "(will be installed)"))
                },
                DnfState::Absent => if installed {
                    (make_diff_line(name, version), make_diff_line(name, "(will be removed)"))
                } else {
                    (make_diff_line(name, "(not installed)"), make_diff_line(name, "(not installed)"))
                },
                DnfState::Latest => if installed {
                    (make_diff_line(name, version), make_diff_line(name, version))
                } else {
                    (make_diff_line(name, "(not installed)"), make_diff_line(name, "(will be installed)"))
                },
            };
            proof {
                let pair = dnf_diff_lines(state, packages@[i as int]@, probes@[i as int].0, probes@[i as int].1@);
                assert(b@ == pair.0 && a@ == pair.1);
            }
            let ghost (bb, aa) = (before@, after@);
            before.push(b);
            after.push(a);
            proof {
                assert(views(before@) =~= views(bb).push(b@));
                assert(views(after@) =~= views(aa).push(a@));
            }
            i = i + 1;
        }
        diff_of_lines(before.as_slice(), after.as_slice())
    }

    /// The diff of a run when no connection could ask the target.
    pub fn blind_diff_lines(packages: &[String], state: DnfState) -> (d: Diff)
        ensures
            d.details.is_none(),
            d.before@ == joined(Seq::new(packages@.len(), |i: int| dnf_blind_diff_lines(state, packages@[i]@).0), "\n"@),
            d.after@ == joined(Seq::new(packages@.len(), |i: int| dnf_blind_diff_lines(state, packages@[i]@).1), "\n"@),
    {
        let mut before: Vec<String> = Vec::new();
        let mut after: Vec<String> = Vec::new();
        let mut i: usize = 0;
        while i < packages.len()
            invariant
                i <= packages@.len(),
                views(before@) =~= Seq::new(i as nat, |k: int| dnf_blind_diff_lines(state, packages@[k]@).0),
                views(after@) =~= Seq::new(i as nat, |k: int| dnf_blind_diff_lines(state, packages@[k]@).1),
            decreases packages@.len() - i,
        {
            let name = packages[i].as_str();
            let (b, a) = match state {
                DnfState::Absent => (make_diff_line(name, "(unknown)"), make_diff_line(name, "(will be removed)")),
                _ => (make_diff_line(name, "(unknown)"), make_diff_line(name, "(will be installed/updated)")),
            };
            let ghost (bb, aa) = (before@, after@);
            before.push(b);
            after.push(a);
            proof {
                assert(views(before@) =~= views(bb).push(b@));
                assert(views(after@) =~= views(aa).push(a@));
            }
            i = i + 1;
        }
        diff_of_lines(before.as_slice(), after.as_slice())
    }
}

/// What a plan does with each package follows from whether it is installed:
/// with `absent`, exactly the installed packages are removed and the missing
/// ones are left alone; with `present`, exactly the missing packages are
/// installed and the installed ones are left alone; with `latest`, every
/// package is installed, whether or not it already is.
/// No package is put on any other list.
pub proof fn law_dnf_plan_by_installed(pkgs: Seq<String>, installed: Seq<bool>, state: DnfState)
    requires
        pkgs.len() == installed.len(),
    ensures
        state is Absent ==> selected(pkgs, dnf_slots(state, installed), PlanSlot::Remove) == with_flag(pkgs, installed, true)
            && selected(pkgs, dnf_slots(state, installed), PlanSlot::Keep) == with_flag(pkgs, installed, false)
            && selected(pkgs, dnf_slots(state, installed), PlanSlot::Install).len() == 0
            && selected(pkgs, dnf_slots(state, installed), PlanSlot::Upgrade).len() == 0,
        state is Present ==> selected(pkgs, dnf_slots(state, installed), PlanSlot::Install) == with_flag(pkgs, installed, false)
            && selected(pkgs, dnf_slots(state, installed), PlanSlot::Keep) == with_flag(pkgs, installed, true)
            && selected(pkgs, dnf_slots(state, installed), PlanSlot::Remove).len() == 0
            && selected(pkgs, dnf_slots(state, installed), PlanSlot::Upgrade).len() == 0,
        state is Latest ==> selected(pkgs, dnf_slots(state, installed), PlanSlot::Install) == pkgs
            && selected(pkgs, dnf_slots(state, installed), PlanSlot::Remove).len() == 0
            && selected(pkgs, dnf_slots(state, installed), PlanSlot::Upgrade).len() == 0
            && selected(pkgs, dnf_slots(state, installed), PlanSlot::Keep).len() == 0,
{
    let slots = dnf_slots(state, installed);
    assert forall|i: int| 0 <= i < slots.len() implies #[trigger] slots[i] == dnf_slot(state, installed[i]) by {}
    match state {
        DnfState::Absent => {
            lemma_selected_by_flag(pkgs, installed, slots, PlanSlot::Remove, true);
            lemma_selected_by_flag(pkgs, installed, slots, PlanSlot::Keep, false);
            lemma_selected_none_or_all(pkgs, slots, PlanSlot::Install);
            lemma_selected_none_or_all(pkgs, slots, PlanSlot::Upgrade);
        },
        DnfState::Present => {
            lemma_selected_by_flag(pkgs, installed, slots, PlanSlot::Install, false);
            lemma_selected_by_flag(pkgs, installed, slots, PlanSlot::Keep, true);
            lemma_selected_none_or_all(pkgs, slots, PlanSlot::Remove);
            lemma_selected_none_or_all(pkgs, slots, PlanSlot::Upgrade);
        },
        DnfState::Latest => {
            lemma_selected_none_or_all(pkgs, slots, PlanSlot::Install);
            lemma_selected_none_or_all(pkgs, slots, PlanSlot::Remove);
            lemma_selected_none_or_all(pkgs, slots, PlanSlot::Upgrade);
            lemma_selected_none_or_all(pkgs, slots, PlanSlot::Keep);
        },
    }
}

} // verus!
