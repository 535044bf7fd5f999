//! The steps in which an operation is carried out on the package manager. Each is taken
//! only if the one before it succeeded.
use vstd::prelude::*;

use crate::text::{decimal, ends_with, has_suffix, numbered, text_of, texts};

verus! {

/// A step on the package manager.
pub enum PlanStep {
    /// Open it, with these package files at hand.
    Open(Vec<String>),
    /// Mark these for installation.
    Install(Vec<String>),
    /// Mark these for removal.
    Remove(Vec<String>),
    /// Mark everything for an upgrade that can be upgraded.
    UpgradeAll,
}

/// What a step does.
pub enum StepView {
    Open(Seq<Seq<char>>),
    Install(Seq<Seq<char>>),
    Remove(Seq<Seq<char>>),
    UpgradeAll,
}

impl View for PlanStep {
    type V = StepView;

    open spec fn view(&self) -> StepView {
        match self {
            PlanStep::Open(debs) => StepView::Open(texts(debs@)),
            PlanStep::Install(names) => StepView::Install(texts(names@)),
            PlanStep::Remove(names) => StepView::Remove(texts(names@)),
            PlanStep::UpgradeAll => StepView::UpgradeAll,
        }
    }
}

/// What the steps of a plan do.
pub open spec fn steps(plan: Seq<PlanStep>) -> Seq<StepView> {
    plan.map_values(|s: PlanStep| s@)
}

/// The name is that of a package file.
pub open spec fn is_deb(name: Seq<char>) -> bool {
    ends_with(name, ".deb"@)
}

/// The package files among what is to be installed.
pub open spec fn debs_in(names: Seq<Seq<char>>) -> Seq<Seq<char>> {
    names.filter(|name: Seq<char>| is_deb(name))
}

/// The steps that mark what is to be installed, removed and upgraded.
pub open spec fn marks(install: Seq<Seq<char>>, remove: Seq<Seq<char>>, upgrade: bool) -> Seq<
    StepView,
> {
    let installs = if install.len() > 0 {
        seq![StepView::Install(install)]
    } else {
        seq![]
    };
    let removes = if remove.len() > 0 {
        seq![StepView::Remove(remove)]
    } else {
        seq![]
    };
    let upgrades = if upgrade {
        seq![StepView::UpgradeAll]
    } else {
        seq![]
    };
    installs + removes + upgrades
}

/// The steps of a preview.
pub open spec fn summary_steps(
    install: Seq<Seq<char>>,
    remove: Seq<Seq<char>>,
    upgrade: bool,
) -> Seq<StepView> {
    seq![StepView::Open(seq![])] + marks(install, remove, upgrade)
}

/// The steps of a change, before it is committed: if package files are to be installed,
/// the package manager is opened again with them.
pub open spec fn apply_steps(
    install: Seq<Seq<char>>,
    remove: Seq<Seq<char>>,
    upgrade: bool,
) -> Seq<StepView> {
    let reopen = if debs_in(install).len() > 0 {
        seq![StepView::Open(debs_in(install))]
    } else {
        seq![]
    };
    seq![StepView::Open(seq![])] + reopen + marks(install, remove, upgrade)
}

/// The package files among what is to be installed.
pub fn local_debs(install: &Vec<String>) -> (debs: Vec<String>)
    ensures
        texts(debs@) == debs_in(texts(install@)),
{
    let mut debs: Vec<String> = Vec::new();
    let ghost is_wanted = |name: Seq<char>| is_deb(name);
    let mut i: usize = 0;
    proof {
        assert(texts(install@).subrange(0, 0).filter(is_wanted) =~= seq![]) by {
            reveal(Seq::filter);
        }
        assert(texts(debs@) =~= seq![]);
    }
    while i < install.len()
        invariant
            i <= install.len(),
            is_wanted == (|name: Seq<char>| is_deb(name)),
            texts(debs@) == texts(install@).subrange(0, i as int).filter(is_wanted),
        decreases install.len() - i,
    {
        proof {
            reveal(Seq::filter);
            let upto = texts(install@).subrange(0, i + 1);
            assert(upto.drop_last() =~= texts(install@).subrange(0, i as int));
            assert(upto.last() == install@[i as int]@);
        }
        if has_suffix(install[i].as_str(), ".deb") {
            let ghost before = debs@;
            debs.push(install[i].clone());
            assert(texts(debs@) =~= texts(before).push(install@[i as int]@));
        }
        i = i + 1;
    }
    assert(texts(install@).subrange(0, install.len() as int) =~= texts(install@));
    debs
}

fn push_marks(plan: &mut Vec<PlanStep>, install: Vec<String>, remove: Vec<String>, upgrade: bool)
    ensures
        steps(final(plan)@) == steps(old(plan)@) + marks(texts(install@), texts(remove@), upgrade),
{
    if install.len() > 0 {
        plan.push(PlanStep::Install(install));
    }
    if remove.len() > 0 {
        plan.push(PlanStep::Remove(remove));
    }
    if upgrade {
        plan.push(PlanStep::UpgradeAll);
    }
    assert(steps(plan@) =~= steps(old(plan)@) + marks(texts(install@), texts(remove@), upgrade));
}

/// The steps of a preview.
pub fn summary_plan(install: Vec<String>, remove: Vec<String>, upgrade: bool) -> (plan: Vec<
    PlanStep,
>)
    ensures
        steps(plan@) == summary_steps(texts(install@), texts(remove@), upgrade),
{
    let mut plan: Vec<PlanStep> = Vec::new();
    let none: Vec<String> = Vec::new();
    assert(texts(none@) =~= seq![]);
    plan.push(PlanStep::Open(none));
    assert(steps(plan@) =~= seq![StepView::Open(seq![])]);
    push_marks(&mut plan, install, remove, upgrade);
    plan
}

/// The steps of a preview of all updates.
pub fn updates_plan() -> (plan: Vec<PlanStep>)
    ensures
        steps(plan@) == seq![StepView::Open(seq![]), StepView::UpgradeAll],
{
    let install: Vec<String> = Vec::new();
    let remove: Vec<String> = Vec::new();
    assert(texts(install@) =~= seq![]);
    assert(texts(remove@) =~= seq![]);
    let plan = summary_plan(install, remove, true);
    assert(steps(plan@) =~= seq![StepView::Open(seq![]), StepView::UpgradeAll]);
    plan
}

/// The steps of a change, before it is committed.
pub fn apply_plan(install: Vec<String>, remove: Vec<String>, upgrade: bool) -> (plan: Vec<PlanStep>)
    ensures
        steps(plan@) == apply_steps(texts(install@), texts(remove@), upgrade),
{
    let mut plan: Vec<PlanStep> = Vec::new();
    let none: Vec<String> = Vec::new();
    assert(texts(none@) =~= seq![]);
    plan.push(PlanStep::Open(none));
    assert(steps(plan@) =~= seq![StepView::Open(seq![])]);
    let debs = local_debs(&install);
    assert(debs_in(texts(install@)).len() == debs.len());
    if debs.len() > 0 {
        plan.push(PlanStep::Open(debs));
    }
    proof {
        let names = texts(install@);
        let reopen = if debs_in(names).len() > 0 {
            seq![StepView::Open(debs_in(names))]
        } else {
            seq![]
        };
        assert(steps(plan@) =~= seq![StepView::Open(seq![])] + reopen);
    }
    push_marks(&mut plan, install, remove, upgrade);
    plan
}

/// Whether there is anything to commit.
pub fn worth_committing(installs: usize, removals: usize) -> (b: bool)
    ensures
        b == (installs > 0 || removals > 0),
{
    installs > 0 || removals > 0
}

/// The last piece of progress of a change.
pub open spec fn finished_text(request_id: u64) -> Seq<char> {
    "{\"request_id\":"@ + decimal(request_id as nat) + ",\"status\":\"finished\"}"@
}

pub fn finished_json(request_id: u64) -> (json: String)
    ensures
        json@ == finished_text(request_id),
{
    numbered("{\"request_id\":", request_id, ",\"status\":\"finished\"}")
}

/// What is left to do once a change was committed, or failed to be.
pub struct CommitEnd {
    /// The entry of the history that is to say whether it succeeded.
    pub record: Option<(i64, bool)>,
    /// The progress that is to be announced.
    pub finished: Option<String>,
    /// What the change is reported with.
    pub outcome: Result<(), String>,
}

/// Ends a change: the history says how it went if it has an entry for it, whichever way
/// it went, and only a change that succeeded is announced as finished.
pub fn end_commit(request_id: u64, entry: Option<i64>, committed: Result<(), String>) -> (end:
    CommitEnd)
    ensures
        end.record == match entry {
            Some(id) => Some((id, committed is Ok)),
            None => None,
        },
        text_of(end.finished) == if committed is Ok {
            Some(finished_text(request_id))
        } else {
            None
        },
        end.outcome == committed,
{
    let ok = committed.is_ok();
    let record = match entry {
        Some(id) => Some((id, ok)),
        None => None,
    };
    let finished = if ok {
        Some(finished_json(request_id))
    } else {
        None
    };
    CommitEnd { record, finished, outcome: committed }
}

} // verus!
