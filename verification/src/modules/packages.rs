//! What a package manager run does, decided from the packages asked for and
//! what the target reported about each of them: which packages to install,
//! remove or upgrade, and how the outcome is reported.
use vstd::prelude::*;
use crate::text::{copy_str, join, joined, views};
use super::{escape_shell_word, shell_escaped};

verus! {

/// The list a package is put on.
#[derive(Debug, Clone, Copy, PartialEq, Eq, Structural)]
pub enum PlanSlot {
    /// The package must be installed.
    Install,
    /// The package must be removed.
    Remove,
    /// The package must be upgraded.
    Upgrade,
    /// The package is already as asked.
    Keep,
}

/// The packages of `pkgs` whose slot is `slot`, in their order.
pub open spec fn selected(pkgs: Seq<String>, slots: Seq<PlanSlot>, slot: PlanSlot) -> Seq<String>
    decreases pkgs.len(),
{
    if pkgs.len() == 0 || slots.len() == 0 {
        Seq::empty()
    } else {
        let init = selected(pkgs.drop_last(), slots.drop_last(), slot);
        if slots.last() == slot {
            init.push(pkgs.last())
        } else {
            init
        }
    }
}

/// The packages of one run, split by what must be done with them.
#[derive(Debug, Clone)]
pub struct PackagePlan {
    /// Packages to install.
    pub to_install: Vec<String>,
    /// Packages to remove.
    pub to_remove: Vec<String>,
    /// Packages to upgrade.
    pub to_upgrade: Vec<String>,
    /// Packages already in the desired state.
    pub already_ok: Vec<String>,
}

/// Puts each package on the list its slot names, keeping their order.
pub fn distribute(packages: &[String], slots: &[PlanSlot]) -> (p: PackagePlan)
    requires
        packages@.len() == slots@.len(),
    ensures
        p.to_install@ == selected(packages@, slots@, PlanSlot::Install),
        p.to_remove@ == selected(packages@, slots@, PlanSlot::Remove),
        p.to_upgrade@ == selected(packages@, slots@, PlanSlot::Upgrade),
        p.already_ok@ == selected(packages@, slots@, PlanSlot::Keep),
{
    let mut p = PackagePlan {
        to_install: Vec::new(),
        to_remove: Vec::new(),
        to_upgrade: Vec::new(),
        already_ok: Vec::new(),
    };
    let mut i: usize = 0;
    while i < packages.len()
        invariant
            packages@.len() == slots@.len(),
            i <= packages@.len(),
            p.to_install@ == selected(packages@.take(i as int), slots@.take(i as int), PlanSlot::Install),
            p.to_remove@ == selected(packages@.take(i as int), slots@.take(i as int), PlanSlot::Remove),
            p.to_upgrade@ == selected(packages@.take(i as int), slots@.take(i as int), PlanSlot::Upgrade),
            p.already_ok@ == selected(packages@.take(i as int), slots@.take(i as int), PlanSlot::Keep),
        decreases packages@.len() - i,
    {
        proof {
            assert(packages@.take(i + 1).drop_last() =~= packages@.take(i as int));
            assert(slots@.take(i + 1).drop_last() =~= slots@.take(i as int));
            assert(packages@.take(i + 1).last() == packages@[i as int]);
            assert(slots@.take(i + 1).last() == slots@[i as int]);
        }
        let name = packages[i].clone();
        match slots[i] {
            PlanSlot::Install => p.to_install.push(name),
            PlanSlot::Remove => p.to_remove.push(name),
            PlanSlot::Upgrade => p.to_upgrade.push(name),
            PlanSlot::Keep => p.already_ok.push(name),
        }
        i = i + 1;
    }
    proof {
        assert(packages@.take(packages@.len() as int) =~= packages@);
        assert(slots@.take(slots@.len() as int) =~= slots@);
    }
    p
}

/// Every package lands on exactly one of the four lists: their lengths add up
/// to the number of packages.
pub proof fn plan_partitions_packages(pkgs: Seq<String>, slots: Seq<PlanSlot>)
    requires
        pkgs.len() == slots.len(),
    ensures
        selected(pkgs, slots, PlanSlot::Install).len() + selected(pkgs, slots, PlanSlot::Remove).len()
            + selected(pkgs, slots, PlanSlot::Upgrade).len() + selected(pkgs, slots, PlanSlot::Keep).len()
            == pkgs.len(),
    decreases pkgs.len(),
{
    if pkgs.len() > 0 {
        plan_partitions_packages(pkgs.drop_last(), slots.drop_last());
    }
}

/// When no package is given a slot other than `Keep`, the plan changes nothing.
pub proof fn all_kept_plan_is_noop(pkgs: Seq<String>, slots: Seq<PlanSlot>)
    requires
        pkgs.len() == slots.len(),
        forall|i: int| 0 <= i < slots.len() ==> slots[i] == PlanSlot::Keep,
    ensures
        selected(pkgs, slots, PlanSlot::Install).len() == 0,
        selected(pkgs, slots, PlanSlot::Remove).len() == 0,
        selected(pkgs, slots, PlanSlot::Upgrade).len() == 0,
        selected(pkgs, slots, PlanSlot::Keep) == pkgs,
    decreases pkgs.len(),
{
    if pkgs.len() > 0 {
        assert(slots.drop_last().len() == pkgs.drop_last().len());
        assert forall|i: int| 0 <= i < slots.drop_last().len() implies slots.drop_last()[i] == PlanSlot::Keep by {
            assert(slots.drop_last()[i] == slots[i]);
        }
        all_kept_plan_is_noop(pkgs.drop_last(), slots.drop_last());
        assert(slots.last() == slots[slots.len() - 1]);
        assert(pkgs.drop_last().push(pkgs.last()) =~= pkgs);
    }
}

/// The packages whose flag (whether it is installed) is `want`, in order.
pub open spec fn with_flag(pkgs: Seq<String>, flags: Seq<bool>, want: bool) -> Seq<String>
    decreases pkgs.len(),
{
    if pkgs.len() == 0 || flags.len() == 0 {
        Seq::empty()
    } else {
        let init = with_flag(pkgs.drop_last(), flags.drop_last(), want);
        if flags.last() == want {
            init.push(pkgs.last())
        } else {
            init
        }
    }
}

/// When a package gets `slot` exactly when its flag is `want`, the packages
/// in `slot` are those whose flag is `want`.
pub proof fn lemma_selected_by_flag(pkgs: Seq<String>, flags: Seq<bool>, slots: Seq<PlanSlot>, slot: PlanSlot, want: bool)
    requires
        pkgs.len() == flags.len() == slots.len(),
        forall|i: int| 0 <= i < slots.len() ==> ((#[trigger] slots[i] == slot) <==> flags[i] == want),
    ensures
        selected(pkgs, slots, slot) == with_flag(pkgs, flags, want),
    decreases pkgs.len(),
{
    if pkgs.len() > 0 {
        let n = slots.len() - 1;
        assert forall|i: int| 0 <= i < slots.drop_last().len() implies ((#[trigger] slots.drop_last()[i] == slot)
            <==> flags.drop_last()[i] == want) by {
            assert(slots.drop_last()[i] == slots[i]);
            assert(flags.drop_last()[i] == flags[i]);
        }
        lemma_selected_by_flag(pkgs.drop_last(), flags.drop_last(), slots.drop_last(), slot, want);
        assert(slots[n] == slot <==> flags[n] == want);
    }
}

/// When no package gets `slot`, none is selected for it; when all do, all are.
pub proof fn lemma_selected_none_or_all(pkgs: Seq<String>, slots: Seq<PlanSlot>, slot: PlanSlot)
    requires
        pkgs.len() == slots.len(),
    ensures
        (forall|i: int| 0 <= i < slots.len() ==> #[trigger] slots[i] != slot) ==> selected(pkgs, slots, slot).len() == 0,
        (forall|i: int| 0 <= i < slots.len() ==> #[trigger] slots[i] == slot) ==> selected(pkgs, slots, slot) == pkgs,
    decreases pkgs.len(),
{
    if pkgs.len() > 0 {
        lemma_selected_none_or_all(pkgs.drop_last(), slots.drop_last(), slot);
        if forall|i: int| 0 <= i < slots.len() ==> #[trigger] slots[i] != slot {
            assert forall|i: int| 0 <= i < slots.drop_last().len() implies #[trigger] slots.drop_last()[i] != slot by {
                assert(slots.drop_last()[i] == slots[i]);
            }
            assert(slots[slots.len() - 1] != slot);
        }
        if forall|i: int| 0 <= i < slots.len() ==> #[trigger] slots[i] == slot {
            assert forall|i: int| 0 <= i < slots.drop_last().len() implies #[trigger] slots.drop_last()[i] == slot by {
                assert(slots.drop_last()[i] == slots[i]);
            }
            assert(slots[slots.len() - 1] == slot);
            assert(pkgs.drop_last().push(pkgs.last()) =~= pkgs);
        }
    }
}

/// `label`, the names joined by `, ` and `. `, or nothing when there are no names.
pub open spec fn clause(label: Seq<char>, names: Seq<String>) -> Seq<char> {
    if names.len() == 0 {
        Seq::empty()
    } else {
        label + joined(views(names), ", "@) + ". "@
    }
}

/// A report sentence built from clauses, without the space after its last
/// period (the trimming the report applies).
pub open spec fn sentence(s: Seq<char>) -> Seq<char> {
    s.drop_last()
}

/// Whether a plan changes nothing.
pub open spec fn plan_is_noop(p: PackagePlan) -> bool {
    p.to_install@.len() == 0 && p.to_remove@.len() == 0 && p.to_upgrade@.len() == 0
}

/// The message of a check-mode run that would change something.
pub open spec fn would_message(p: PackagePlan) -> Seq<char> {
    sentence(
        clause("Would install: "@, p.to_install@) + clause("Would remove: "@, p.to_remove@) + clause(
            "Would upgrade: "@,
            p.to_upgrade@,
        ),
    )
}

/// The message of a run that changed something.
pub open spec fn done_message(p: PackagePlan) -> Seq<char> {
    sentence(
        clause("Installed: "@, p.to_install@) + clause("Upgraded: "@, p.to_upgrade@) + clause(
            "Removed: "@,
            p.to_remove@,
        ),
    )
}

/// Each name paired with the word that says what happened to it.
pub open spec fn tagged(names: Seq<String>, tag: Seq<char>) -> Seq<(Seq<char>, Seq<char>)> {
    names.map_values(|n: String| (n@, tag))
}

/// The views of name/result pairs.
pub open spec fn pair_views(v: Seq<(String, String)>) -> Seq<(Seq<char>, Seq<char>)> {
    v.map_values(|p: (String, String)| (p.0@, p.1@))
}

/// Whether a run changed something, and its message.
#[derive(Debug, Clone)]
pub struct PackageReport {
    /// Something was (or would be) changed.
    pub changed: bool,
    /// The human-readable message.
    pub msg: String,
}

/// Appends `label`, the joined names and `. ` when there are names.
pub(crate) fn push_clause(out: &mut String, label: &str, names: &[String])
    ensures
        final(out)@ == old(out)@ + clause(label@, names@),
{
    if names.len() > 0 {
        let list = join(names, ", ");
        out.append(label);
        out.append(list.as_str());
        out.append(". ");
    }
}

/// Drops the last character of a non-empty report sentence.
pub(crate) fn drop_last_char(s: &String) -> (r: String)
    requires
        s@.len() > 0,
    ensures
        r@ == s@.drop_last(),
{
    let cs = crate::text::chars_of(s.as_str());
    let head = crate::text::string_of(&cs.as_slice()[0..cs.len() - 1]);
    proof {
        assert(cs@.subrange(0, cs@.len() - 1) =~= s@.drop_last());
    }
    head
}

/// Appends each name with its result word.
fn push_tagged(out: &mut Vec<(String, String)>, names: &[String], tag: &str)
    ensures
        pair_views(final(out)@) == pair_views(old(out)@) + tagged(names@, tag@),
{
    let ghost start = out@;
    let mut i: usize = 0;
    while i < names.len()
        invariant
            i <= names@.len(),
            pair_views(out@) =~= pair_views(start) + tagged(names@.take(i as int), tag@),
        decreases names@.len() - i,
    {
        let ghost before = out@;
        out.push((names[i].clone(), copy_str(tag)));
        i = i + 1;
        proof {
            assert(pair_views(out@) =~= pair_views(before).push((names@[i - 1]@, tag@)));
            assert(tagged(names@.take(i as int), tag@) =~= tagged(names@.take(i - 1), tag@).push(
                (names@[i - 1]@, tag@),
            ));
            assert(pair_views(out@) =~= pair_views(start) + tagged(names@.take(i as int), tag@));
        }
    }
    proof {
        assert(names@.take(names@.len() as int) =~= names@);
    }
}

impl PackagePlan {
    /// The report of a check-mode run: nothing to do, or what would be done.
    pub fn check_report(&self) -> (r: PackageReport)
        ensures
            plan_is_noop(*self) ==> !r.changed && r.msg@ == "All packages already in desired state: "@
                + joined(views(self.already_ok@), ", "@),
            !plan_is_noop(*self) ==> r.changed && r.msg@ == would_message(*self),
    {
        if self.to_install.len() == 0 && self.to_remove.len() == 0 && self.to_upgrade.len() == 0 {
            let list = join(self.already_ok.as_slice(), ", ");
            let mut msg = copy_str("All packages already in desired state: ");
            msg.append(list.as_str());
            return PackageReport { changed: false, msg };
        }
        let mut msg = String::new();
        push_clause(&mut msg, "Would install: ", self.to_install.as_slice());
        push_clause(&mut msg, "Would remove: ", self.to_remove.as_slice());
        push_clause(&mut msg, "Would upgrade: ", self.to_upgrade.as_slice());
        proof {
            reveal_strlit(". ");
        }
        let msg = drop_last_char(&msg);
        PackageReport { changed: true, msg }
    }

    /// The report of a run whose commands all succeeded.
    pub fn done_report(&self) -> (r: PackageReport)
        ensures
            r.changed == !plan_is_noop(*self),
            plan_is_noop(*self) ==> r.msg@ == "All packages already in desired state"@,
            !plan_is_noop(*self) ==> r.msg@ == done_message(*self),
    {
        if self.to_install.len() == 0 && self.to_remove.len() == 0 && self.to_upgrade.len() == 0 {
            return PackageReport { changed: false, msg: copy_str("All packages already in desired state") };
        }
        let mut msg = String::new();
        push_clause(&mut msg, "Installed: ", self.to_install.as_slice());
        push_clause(&mut msg, "Upgraded: ", self.to_upgrade.as_slice());
        push_clause(&mut msg, "Removed: ", self.to_remove.as_slice());
        proof {
            reveal_strlit(". ");
        }
        let msg = drop_last_char(&msg);
        PackageReport { changed: true, msg }
    }

    /// What happened to each package, in the order the results are recorded:
    /// installed, upgraded, removed, then those already in place.
    pub fn results(&self) -> (r: Vec<(String, String)>)
        ensures
            pair_views(r@) == tagged(self.to_install@, "installed"@) + tagged(
                self.to_upgrade@,
                "upgraded"@,
            ) + tagged(self.to_remove@, "removed"@) + tagged(self.already_ok@, "ok"@),
    {
        let mut r: Vec<(String, String)> = Vec::new();
        proof {
            assert(pair_views(r@) =~= Seq::empty());
        }
        push_tagged(&mut r, self.to_install.as_slice(), "installed");
        push_tagged(&mut r, self.to_upgrade.as_slice(), "upgraded");
        push_tagged(&mut r, self.to_remove.as_slice(), "removed");
        push_tagged(&mut r, self.already_ok.as_slice(), "ok");
        proof {
            assert(pair_views(r@) =~= tagged(self.to_install@, "installed"@) + tagged(
                self.to_upgrade@,
                "upgraded"@,
            ) + tagged(self.to_remove@, "removed"@) + tagged(self.already_ok@, "ok"@));
        }
        r
    }
}

/// The names escaped for the shell.
pub open spec fn escaped_names(names: Seq<String>, allow_plus: bool) -> Seq<Seq<char>> {
    names.map_values(|n: String| shell_escaped(n@, allow_plus))
}

/// Escapes every name for the shell and joins them with spaces.
pub fn escaped_list(names: &[String], allow_plus: bool) -> (r: String)
    ensures
        r@ == joined(escaped_names(names@, allow_plus), " "@),
{
    let mut escaped: Vec<String> = Vec::new();
    let mut i: usize = 0;
    while i < names.len()
        invariant
            i <= names@.len(),
            views(escaped@) =~= escaped_names(names@.take(i as int), allow_plus),
        decreases names@.len() - i,
    {
        escaped.push(escape_shell_word(names[i].as_str(), allow_plus));
        i = i + 1;
        proof {
            assert(escaped_names(names@.take(i as int), allow_plus) =~= escaped_names(
                names@.take(i - 1),
                allow_plus,
            ).push(shell_escaped(names@[i - 1]@, allow_plus)));
        }
    }
    proof {
        assert(names@.take(names@.len() as int) =~= names@);
    }
    join(escaped.as_slice(), " ")
}

} // verus!

verus! {

/// A diff line: the package name, `: ` and what is said of it.
pub open spec fn diff_line(name: Seq<char>, what: Seq<char>) -> Seq<char> {
    name + ": "@ + what
}

/// Builds one diff line.
pub fn make_diff_line(name: &str, what: &str) -> (r: String)
    ensures
        r@ == diff_line(name@, what@),
{
    crate::text::concat3(name, ": ", what)
}

/// A diff whose two sides are lines joined by newlines.
pub fn diff_of_lines(before: &[String], after: &[String]) -> (d: super::Diff)
    ensures
        d.before@ == joined(views(before@), "\n"@),
        d.after@ == joined(views(after@), "\n"@),
        d.details.is_none(),
{
    super::Diff::new(join(before, "\n"), join(after, "\n"))
}

/// The error message of a failed package operation.
pub fn failure_message(what: &str, detail: &str) -> (r: String)
    ensures
        r@ == what@ + ": "@ + detail@,
{
    crate::text::concat3(what, ": ", detail)
}


/// How far a package run has got: what it asked for last.
#[derive(Debug, Clone, Copy, PartialEq, Eq, Structural)]
pub enum RunStage {
    /// Nothing asked for yet.
    Start,
    /// The run is being prepared: the package cache is updated (apt, dnf),
    /// or the virtualenv is created (pip).
    UpdatingCache,
    /// Whether the package at this index is installed is being checked.
    Checking(usize),
    /// Every package was checked: the plan is to be made from the answers.
    Planning,
    /// The packages to install are being installed.
    Installing,
    /// The packages to upgrade are being upgraded.
    Upgrading,
    /// The packages to remove are being removed.
    Removing,
    /// The run is over; its report is the check report in check mode and
    /// the done report otherwise.
    Finished,
    /// The last command failed; its error is the run's answer.
    Failed,
}

/// What came back from what the run asked for.
#[derive(Debug, Clone, Copy, PartialEq, Eq, Structural)]
pub enum RunEvent {
    /// The command ran (or, for `Start` and `Planning`, the step is taken).
    Succeeded,
    /// The answer of an installed check.
    Installed(bool),
    /// The command failed.
    Failed,
}

/// The first of the plan's commands, from `stage` on, that has packages:
/// install, upgrade, then remove; finished when none has.
pub open spec fn commands_from(stage: RunStage, plan: PackagePlan) -> RunStage {
    let install = plan.to_install@.len() > 0;
    let upgrade = plan.to_upgrade@.len() > 0;
    let remove = plan.to_remove@.len() > 0;
    match stage {
        RunStage::Installing => if install {
            RunStage::Installing
        } else if upgrade {
            RunStage::Upgrading
        } else if remove {
            RunStage::Removing
        } else {
            RunStage::Finished
        },
        RunStage::Upgrading => if upgrade {
            RunStage::Upgrading
        } else if remove {
            RunStage::Removing
        } else {
            RunStage::Finished
        },
        RunStage::Removing => if remove { RunStage::Removing } else { RunStage::Finished },
        _ => RunStage::Finished,
    }
}

/// The checks of the packages from `index` on, or the planning after them.
pub open spec fn checks_from(index: int, count: int) -> RunStage {
    if index < count { RunStage::Checking(index as usize) } else { RunStage::Planning }
}

/// The next stage of a package run. Check mode updates no cache and sends no
/// install, upgrade or remove; otherwise the cache is updated first when
/// asked for. Then each package is checked in order; after planning, check
/// mode finishes, and otherwise the install, upgrade and remove commands are
/// sent in that order, each only when it has packages. The first failure
/// ends the run.
pub open spec fn run_next(
    stage: RunStage,
    event: RunEvent,
    check_mode: bool,
    update_cache: bool,
    count: int,
    plan: PackagePlan,
) -> RunStage {
    match event {
        RunEvent::Failed => RunStage::Failed,
        _ => match stage {
            RunStage::Start => if update_cache && !check_mode {
                RunStage::UpdatingCache
            } else {
                checks_from(0, count)
            },
            RunStage::UpdatingCache => checks_from(0, count),
            RunStage::Checking(i) => checks_from(i + 1, count),
            RunStage::Planning => if check_mode {
                RunStage::Finished
            } else {
                commands_from(RunStage::Installing, plan)
            },
            RunStage::Installing => commands_from(RunStage::Upgrading, plan),
            RunStage::Upgrading => commands_from(RunStage::Removing, plan),
            RunStage::Removing => RunStage::Finished,
            RunStage::Finished => RunStage::Finished,
            RunStage::Failed => RunStage::Failed,
        },
    }
}

/// Whether a stage changes the host: updating the cache, or sending an
/// install, upgrade or remove.
pub open spec fn changes_host(stage: RunStage) -> bool {
    stage is UpdatingCache || stage is Installing || stage is Upgrading || stage is Removing
}

/// The first of the plan's commands from `stage` on that has packages.
fn first_command_from(stage: RunStage, plan: &PackagePlan) -> (r: RunStage)
    ensures
        r == commands_from(stage, *plan),
{
    let install = plan.to_install.len() > 0;
    let upgrade = plan.to_upgrade.len() > 0;
    let remove = plan.to_remove.len() > 0;
    match stage {
        RunStage::Installing => if install {
            RunStage::Installing
        } else if upgrade {
            RunStage::Upgrading
        } else if remove {
            RunStage::Removing
        } else {
            RunStage::Finished
        },
        RunStage::Upgrading => if upgrade {
            RunStage::Upgrading
        } else if remove {
            RunStage::Removing
        } else {
            RunStage::Finished
        },
        RunStage::Removing => if remove { RunStage::Removing } else { RunStage::Finished },
        _ => RunStage::Finished,
    }
}

/// The check of the package at `index`, or the planning when all are checked.
fn check_or_plan(index: usize, count: usize) -> (r: RunStage)
    ensures
        r == checks_from(index as int, count as int),
{
    if index < count { RunStage::Checking(index) } else { RunStage::Planning }
}

/// Decides the next step of a package run from the stage it is at and what
/// came back. The module sends what the new stage names: the cache update,
/// the installed check of a package, or the plan's install, upgrade or remove
/// command; at `Planning` it makes the plan from the answers and steps on
/// with it; at `Finished` it reports, and at `Failed` it answers with the
/// failed command's error.
pub fn next_stage(
    stage: RunStage,
    event: RunEvent,
    check_mode: bool,
    update_cache: bool,
    count: usize,
    plan: &PackagePlan,
) -> (r: RunStage)
    ensures
        r == run_next(stage, event, check_mode, update_cache, count as int, *plan),
{
    match event {
        RunEvent::Failed => RunStage::Failed,
        _ => match stage {
            RunStage::Start => if update_cache && !check_mode {
                RunStage::UpdatingCache
            } else {
                check_or_plan(0, count)
            },
            RunStage::UpdatingCache => check_or_plan(0, count),
            RunStage::Checking(i) => if i < count {
                check_or_plan(i + 1, count)
            } else {
                RunStage::Planning
            },
            RunStage::Planning => if check_mode {
                RunStage::Finished
            } else {
                first_command_from(RunStage::Installing, plan)
            },
            RunStage::Installing => first_command_from(RunStage::Upgrading, plan),
            RunStage::Upgrading => first_command_from(RunStage::Removing, plan),
            RunStage::Removing => RunStage::Finished,
            RunStage::Finished => RunStage::Finished,
            RunStage::Failed => RunStage::Failed,
        },
    }
}

/// Check mode changes nothing on the host: from a stage that changes
/// nothing, whatever comes back, the next stage changes nothing either.
pub proof fn law_check_mode_changes_nothing(
    stage: RunStage,
    event: RunEvent,
    update_cache: bool,
    count: int,
    plan: PackagePlan,
)
    requires
        !changes_host(stage),
    ensures
        !changes_host(run_next(stage, event, true, update_cache, count, plan)),
{
}

/// The first failure ends a run: a failed command leads to `Failed`, and
/// from `Failed` or `Finished` no further command is sent.
pub proof fn law_failure_ends_run(
    stage: RunStage,
    event: RunEvent,
    check_mode: bool,
    update_cache: bool,
    count: int,
    plan: PackagePlan,
)
    ensures
        run_next(stage, RunEvent::Failed, check_mode, update_cache, count, plan) == RunStage::Failed,
        run_next(RunStage::Failed, event, check_mode, update_cache, count, plan) == RunStage::Failed,
        run_next(RunStage::Finished, event, check_mode, update_cache, count, plan) is Finished
            || run_next(RunStage::Finished, event, check_mode, update_cache, count, plan) is Failed,
{
}

} // verus!
