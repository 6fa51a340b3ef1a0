//! APT package management: package states, the module's description and the
//! quoting of package names for the shell.
use vstd::prelude::*;
use crate::text::{concat2, concat3, str_equal, str_to_lowercase, lowercase};
use super::{Diff, ModuleClassification, ModuleError, ModuleResult, ParallelizationHint, shell_escaped, escape_shell_word};
use super::packages::{lemma_selected_by_flag, lemma_selected_none_or_all, with_flag, PackagePlan, PlanSlot, distribute, diff_line, diff_of_lines, escaped_list, escaped_names, make_diff_line, selected};
use crate::text::{joined, views};

verus! {

/// Desired state for a package.
#[derive(Debug, Clone, PartialEq, Eq, Structural)]
pub enum AptState {
    /// The package is installed.
    Present,
    /// The package is not installed.
    Absent,
    /// The package is installed at its newest version.
    Latest,
}

/// The state named by an already lowercased word, if any.
pub open spec fn apt_state_named(lower: Seq<char>) -> Option<AptState> {
    if lower == "present"@ || lower == "installed"@ {
        Some(AptState::Present)
    } else if lower == "absent"@ || lower == "removed"@ {
        Some(AptState::Absent)
    } else if lower == "latest"@ {
        Some(AptState::Latest)
    } else {
        None
    }
}

impl AptState {
    /// Parses a state name, ignoring case.
    pub fn from_str(s: &str) -> (r: ModuleResult<AptState>)
        ensures
            match apt_state_named(lowercase(s@)) {
                Some(st) => r == Ok::<AptState, ModuleError>(st),
                None => r matches Err(ModuleError::InvalidParameter(m))
                    && m@ == "Invalid state '"@ + s@ + "'. Valid states: present, absent, latest"@,
            },
    {
        let lower = str_to_lowercase(s);
        let l = lower.as_str();
        if str_equal(l, "present") || str_equal(l, "installed") {
            Ok(AptState::Present)
        } else if str_equal(l, "absent") || str_equal(l, "removed") {
            Ok(AptState::Absent)
        } else if str_equal(l, "latest") {
            Ok(AptState::Latest)
        } else {
            Err(ModuleError::InvalidParameter(
                concat3("Invalid state '", s, "'. Valid states: present, absent, latest"),
            ))
        }
    }
}

/// Module for APT package management.
pub struct AptModule;

impl AptModule {
    /// The module's name.
    pub fn name(&self) -> (r: &'static str)
        ensures
            r@ == "apt"@,
    {
        "apt"
    }

    /// What the module does.
    pub fn description(&self) -> (r: &'static str)
        ensures
            r@ == "Manage packages with the APT package manager"@,
    {
        "Manage packages with the APT package manager"
    }

    /// APT runs commands on the target.
    pub fn classification(&self) -> (r: ModuleClassification)
        ensures
            r == ModuleClassification::RemoteCommand,
    {
        ModuleClassification::RemoteCommand
    }

    /// APT takes a lock, so only one run per host at a time.
    pub fn parallelization_hint(&self) -> (r: ParallelizationHint)
        ensures
            r == ParallelizationHint::HostExclusive,
    {
        ParallelizationHint::HostExclusive
    }

    /// The parameters the module cannot run without.
    pub fn required_params(&self) -> (r: &'static [&'static str])
        ensures
            r@.len() == 1,
            r@[0]@ == "name"@,
    {
        &["name"]
    }
}

/// Escapes a package name for the shell; `+` may stand bare, as in `g++`.
pub fn shell_escape(s: &str) -> (r: String)
    ensures
        r@ == shell_escaped(s@, true),
{
    escape_shell_word(s, true)
}

/// Where APT puts a package, given whether it is installed.
pub open spec fn apt_slot(state: AptState, installed: bool) -> PlanSlot {
    match state {
        AptState::Present => if installed { PlanSlot::Keep } else { PlanSlot::Install },
        AptState::Absent => if installed { PlanSlot::Remove } else { PlanSlot::Keep },
        AptState::Latest => if installed { PlanSlot::Upgrade } else { PlanSlot::Install },
    }
}

/// The slots of all packages.
pub open spec fn apt_slots(state: AptState, installed: Seq<bool>) -> Seq<PlanSlot> {
    installed.map_values(|b: bool| apt_slot(state, b))
}

/// The before and after lines of one package when the target was asked.
pub open spec fn apt_diff_lines(state: AptState, name: Seq<char>, installed: bool, version: Seq<char>) -> (Seq<char>, Seq<char>) {
    match state {
        AptState::Present => if installed {
            (diff_line(name, version), diff_line(name, version))
        } else {
            (diff_line(name, "(not installed)"@), diff_line(name, "(will be installed)"@))
        },
        AptState::Absent => if installed {
            (diff_line(name, version), diff_line(name, "(will be removed)"@))
        } else {
            (diff_line(name, "(not installed)"@), diff_line(name, "(not installed)"@))
        },
        AptState::Latest => if installed {
            (diff_line(name, version), diff_line(name, "(will be upgraded)"@))
        } else {
            (diff_line(name, "(not installed)"@), diff_line(name, "(will be installed)"@))
        },
    }
}

/// The before and after lines of one package when the target could not be asked.
pub open spec fn apt_blind_diff_lines(state: AptState, name: Seq<char>) -> (Seq<char>, Seq<char>) {
    match state {
        AptState::Absent => (diff_line(name, "(unknown)"@), diff_line(name, "(will be removed)"@)),
        _ => (diff_line(name, "(unknown)"@), diff_line(name, "(will be installed/updated)"@)),
    }
}

/// Asking for packages that are all installed already changes nothing:
/// a run with `present` is idempotent.
pub proof fn present_when_installed_is_noop(packages: Seq<String>, installed: Seq<bool>)
    requires
        packages.len() == installed.len(),
        forall|i: int| 0 <= i < installed.len() ==> installed[i],
    ensures
        selected(packages, apt_slots(AptState::Present, installed), PlanSlot::Install).len() == 0,
        selected(packages, apt_slots(AptState::Present, installed), PlanSlot::Remove).len() == 0,
        selected(packages, apt_slots(AptState::Present, installed), PlanSlot::Upgrade).len() == 0,
        selected(packages, apt_slots(AptState::Present, installed), PlanSlot::Keep) == packages,
{
    super::packages::all_kept_plan_is_noop(packages, apt_slots(AptState::Present, installed));
}

/// Removing packages that are all absent already changes nothing.
pub proof fn absent_when_missing_is_noop(packages: Seq<String>, installed: Seq<bool>)
    requires
        packages.len() == installed.len(),
        forall|i: int| 0 <= i < installed.len() ==> !installed[i],
    ensures
        selected(packages, apt_slots(AptState::Absent, installed), PlanSlot::Install).len() == 0,
        selected(packages, apt_slots(AptState::Absent, installed), PlanSlot::Remove).len() == 0,
        selected(packages, apt_slots(AptState::Absent, installed), PlanSlot::Upgrade).len() == 0,
        selected(packages, apt_slots(AptState::Absent, installed), PlanSlot::Keep) == packages,
{
    super::packages::all_kept_plan_is_noop(packages, apt_slots(AptState::Absent, installed));
}

impl AptModule {
    /// Splits the packages by what the run must do with them, given whether
    /// each is installed.
    pub fn plan(packages: &[String], state: AptState, installed: &[bool]) -> (p: PackagePlan)
        requires
            packages@.len() == installed@.len(),
        ensures
            p.to_install@ == selected(packages@, apt_slots(state, installed@), PlanSlot::Install),
            p.to_remove@ == selected(packages@, apt_slots(state, installed@), PlanSlot::Remove),
            p.to_upgrade@ == selected(packages@, apt_slots(state, installed@), PlanSlot::Upgrade),
            p.already_ok@ == selected(packages@, apt_slots(state, installed@), PlanSlot::Keep),
    {
        let mut slots: Vec<PlanSlot> = Vec::new();
        let mut i: usize = 0;
        while i < installed.len()
            invariant
                i <= installed@.len(),
                slots@ =~= apt_slots(state, installed@.take(i as int)),
            decreases installed@.len() - i,
        {
            let b = installed[i];
            let slot = match state {
                AptState::Present => if b { PlanSlot::Keep } else { PlanSlot::Install },
                AptState::Absent => if b { PlanSlot::Remove } else { PlanSlot::Keep },
                AptState::Latest => if b { PlanSlot::Upgrade } else { PlanSlot::Install },
            };
            slots.push(slot);
            i = i + 1;
            proof {
                assert(installed@.take(i as int) =~= installed@.take(i - 1).push(b));
            }
        }
        proof {
            assert(installed@.take(installed@.len() as int) =~= installed@);
        }
        distribute(packages, slots.as_slice())
    }

    /// The command that tells whether a package is installed.
    pub fn installed_check_command(package: &str) -> (r: String)
        ensures
            r@ == "dpkg -s "@ + shell_escaped(package@, true) + " 2>/dev/null | grep -q '^Status:.*installed'"@,
    {
        let escaped = shell_escape(package);
        concat3("dpkg -s ", escaped.as_str(), " 2>/dev/null | grep -q '^Status:.*installed'")
    }

    /// The command that prints the installed version of a package.
    pub fn version_query_command(package: &str) -> (r: String)
        ensures
            r@ == "dpkg-query -W -f='${Version}' "@ + shell_escaped(package@, true) + " 2>/dev/null"@,
    {
        let escaped = shell_escape(package);
        concat3("dpkg-query -W -f='${Version}' ", escaped.as_str(), " 2>/dev/null")
    }

    /// The command that refreshes the package cache.
    pub fn update_cache_command() -> (r: &'static str)
        ensures
            r@ == "apt-get update"@,
    {
        "apt-get update"
    }

    /// The command that installs packages.
    pub fn install_command(packages: &[String]) -> (r: String)
        ensures
            r@ == "DEBIAN_FRONTEND=noninteractive apt-get install -y "@ + joined(escaped_names(packages@, true), " "@),
    {
        let list = escaped_list(packages, true);
        concat2("DEBIAN_FRONTEND=noninteractive apt-get install -y ", list.as_str())
    }

    /// The command that removes packages.
    pub fn remove_command(packages: &[String]) -> (r: String)
        ensures
            r@ == "DEBIAN_FRONTEND=noninteractive apt-get remove -y "@ + joined(escaped_names(packages@, true), " "@),
    {
        let list = escaped_list(packages, true);
        concat2("DEBIAN_FRONTEND=noninteractive apt-get remove -y ", list.as_str())
    }

    /// The command that upgrades installed packages.
    pub fn upgrade_command(packages: &[String]) -> (r: String)
        ensures
            r@ == "DEBIAN_FRONTEND=noninteractive apt-get install --only-upgrade -y "@ + joined(
                escaped_names(packages@, true),
                " "@,
            ),
    {
        let list = escaped_list(packages, true);
        concat2("DEBIAN_FRONTEND=noninteractive apt-get install --only-upgrade -y ", list.as_str())
    }

    /// The diff of a run when the target was asked: one before and one after
    /// line per package, from whether it is installed and its version.
    pub fn diff_lines(packages: &[String], state: AptState, probes: &[(bool, String)]) -> (d: Diff)
        requires
            probes@.len() == packages@.len(),
        ensures
            d.details.is_none(),
            d.before@ == joined(
                Seq::new(packages@.len(), |i: int| apt_diff_lines(state, packages@[i]@, probes@[i].0, probes@[i].1@).0),
                "\n"@,
            ),
            d.after@ == joined(
                Seq::new(packages@.len(), |i: int| apt_diff_lines(state, packages@[i]@, probes@[i].0, probes@[i].1@).1),
                "\n"@,
            ),
    {
        let mut before: Vec<String> = Vec::new();
        let mut after: Vec<String> = Vec::new();
        let mut i: usize = 0;
        while i < packages.len()
            invariant
                i <= packages@.len(),
                probes@.len() == packages@.len(),
                views(before@) =~= Seq::new(i as nat, |k: int| apt_diff_lines(state, packages@[k]@, probes@[k].0, probes@[k].1@).0),
                views(after@) =~= Seq::new(i as nat, |k: int| apt_diff_lines(state, packages@[k]@, probes@[k].0, probes@[k].1@).1),
            decreases packages@.len() - i,
        {
            let name = packages[i].as_str();
            let installed = probes[i].0;
            let version = probes[i].1.as_str();
            let (b, a) = match state {
                AptState::Present => if installed {
                    (make_diff_line(name, version), make_diff_line(name, version))
                } else {
                    (make_diff_line(name, "(not installed)"), make_diff_line(name, "(will be installed)"))
                },
                AptState::Absent => if installed {
                    (make_diff_line(name, version), make_diff_line(name, "(will be removed)"))
                } else {
                    (make_diff_line(name, "(not installed)"), make_diff_line(name, "(not installed)"))
                },
                AptState::Latest => if installed {
                    (make_diff_line(name, version), make_diff_line(name, "(will be upgraded)"))
                } else {
                    (make_diff_line(name, "(not installed)"), make_diff_line(name, "(will be installed)"))
                },
            };
            proof {
                let pair = apt_diff_lines(state, packages@[i as int]@, probes@[i as int].0, probes@[i as int].1@);
                assert(b@ == pair.0 && a@ == pair.1);
            }
            let ghost (bb, aa) = (before@, after@);
            before.push(b);
            after.push(a);
            proof {
                assert(views(before@) =~= views(bb).push(b@));
                assert(views(after@) =~= views(aa).push(a@));
            }
            i = i + 1;
        }
        diff_of_lines(before.as_slice(), after.as_slice())
    }

    /// The diff of a run when no connection could ask the target.
    pub fn blind_diff_lines(packages: &[String], state: AptState) -> (d: Diff)
        ensures
            d.details.is_none(),
            d.before@ == joined(Seq::new(packages@.len(), |i: int| apt_blind_diff_lines(state, packages@[i]@).0), "\n"@),
            d.after@ == joined(Seq::new(packages@.len(), |i: int| apt_blind_diff_lines(state, packages@[i]@).1), "\n"@),
    {
        let mut before: Vec<String> = Vec::new();
        let mut after: Vec<String> = Vec::new();
        let mut i: usize = 0;
        while i < packages.len()
            invariant
                i <= packages@.len(),
                views(before@) =~= Seq::new(i as nat, |k: int| apt_blind_diff_lines(state, packages@[k]@).0),
                views(after@) =~= Seq::new(i as nat, |k: int| apt_blind_diff_lines(state, packages@[k]@).1),
            decreases packages@.len() - i,
        {
            let name = packages[i].as_str();
            let (b, a) = match state {
                AptState::Absent => (make_diff_line(name, "(unknown)"), make_diff_line(name, "(will be removed)")),
                _ => (make_diff_line(name, "(unknown)"), make_diff_line(name, "(will be installed/updated)")),
            };
            let ghost (bb, aa) = (before@, after@);
            before.push(b);
            after.push(a);
            proof {
                assert(views(before@) =~= views(bb).push(b@));
                assert(views(after@) =~= views(aa).push(a@));
            }
            i = i + 1;
        }
        diff_of_lines(before.as_slice(), after.as_slice())
    }
}

/// What a plan does with each package follows from whether it is installed:
/// with `absent`, exactly the installed packages are removed and the missing
/// ones are left alone; with `present`, exactly the missing packages are
/// installed and the installed ones are left alone; with `latest`, the
/// installed ones are upgraded and the missing ones installed.
/// No package is put on any other list.
pub proof fn law_apt_plan_by_installed(pkgs: Seq<String>, installed: Seq<bool>, state: AptState)
    requires
        pkgs.len() == installed.len(),
    ensures
        state is Absent ==> selected(pkgs, apt_slots(state, installed), PlanSlot::Remove) == with_flag(pkgs, installed, true)
            && selected(pkgs, apt_slots(state, installed), PlanSlot::Keep) == with_flag(pkgs, installed, false)
            && selected(pkgs, apt_slots(state, installed), PlanSlot::Install).len() == 0
            && selected(pkgs, apt_slots(state, installed), PlanSlot::Upgrade).len() == 0,
        state is Present ==> selected(pkgs, apt_slots(state, installed), PlanSlot::Install) == with_flag(pkgs, installed, false)
            && selected(pkgs, apt_slots(state, installed), PlanSlot::Keep) == with_flag(pkgs, installed, true)
            && selected(pkgs, apt_slots(state, installed), PlanSlot::Remove).len() == 0
            && selected(pkgs, apt_slots(state, installed), PlanSlot::Upgrade).len() == 0,
        state is Latest ==> selected(pkgs, apt_slots(state, installed), PlanSlot::Upgrade) == with_flag(pkgs, installed, true)
            && selected(pkgs, apt_slots(state, installed), PlanSlot::Install) == with_flag(pkgs, installed, false)
            && selected(pkgs, apt_slots(state, installed), PlanSlot::Remove).len() == 0
            && selected(pkgs, apt_slots(state, installed), PlanSlot::Keep).len() == 0,
{
    let slots = apt_slots(state, installed);
    assert forall|i: int| 0 <= i < slots.len() implies #[trigger] slots[i] == apt_slot(state, installed[i]) by {}
    match state {
        AptState::Absent => {
            lemma_selected_by_flag(pkgs, installed, slots, PlanSlot::Remove, true);
            lemma_selected_by_flag(pkgs, installed, slots, PlanSlot::Keep, false);
            lemma_selected_none_or_all(pkgs, slots, PlanSlot::Install);
            lemma_selected_none_or_all(pkgs, slots, PlanSlot::Upgrade);
        },
        AptState::Present => {
            lemma_selected_by_flag(pkgs, installed, slots, PlanSlot::Install, false);
            lemma_selected_by_flag(pkgs, installed, slots, PlanSlot::Keep, true);
            lemma_selected_none_or_all(pkgs, slots, PlanSlot::Remove);
            lemma_selected_none_or_all(pkgs, slots, PlanSlot::Upgrade);
        },
        AptState::Latest => {
            lemma_selected_by_flag(pkgs, installed, slots, PlanSlot::Upgrade, true);
            lemma_selected_by_flag(pkgs, installed, slots, PlanSlot::Install, false);
            lemma_selected_none_or_all(pkgs, slots, PlanSlot::Remove);
            lemma_selected_none_or_all(pkgs, slots, PlanSlot::Keep);
        },
    }
}

} // verus!
