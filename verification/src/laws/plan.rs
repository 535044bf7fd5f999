//! Plans: every request shows in the plan, whatever else is asked for.
use vstd::prelude::*;

use crate::plan::{
    apply_plan, debs_in, end_commit, finished_json, is_deb, local_debs, marks, steps, summary_plan,
    updates_plan, worth_committing, CommitEnd, PlanStep, StepView,
};
use crate::laws::text::{law_decimal_spells_its_number, spells};
use crate::text::{decimal, texts};

verus! {

/// The lists hold the same strings.
pub open spec fn same_strings(a: Seq<String>, b: Seq<String>) -> bool {
    a.len() == b.len() && forall|j: int| 0 <= j < a.len() ==> (#[trigger] a[j])@ == b[j]@
}

/// The name ends in `.deb`.
pub open spec fn names_a_file(name: Seq<char>) -> bool {
    name.len() >= 4 && name[name.len() - 4] == '.' && name[name.len() - 3] == 'd'
        && name[name.len() - 2] == 'e' && name[name.len() - 1] == 'b'
}

/// `at` says where in `names` the items of `part` stand: in order, and exactly those that
/// end in `.deb`.
pub open spec fn picks_files(at: Seq<int>, names: Seq<String>, part: Seq<String>) -> bool {
    &&& at.len() == part.len()
    &&& forall|j: int| 0 <= j < at.len() ==> 0 <= #[trigger] at[j] < names.len()
    &&& forall|j: int, l: int| 0 <= j < l < at.len() ==> #[trigger] at[j] < #[trigger] at[l]
    &&& forall|j: int| 0 <= j < at.len() ==> (#[trigger] part[j])@ == names[at[j]]@
    &&& forall|i: int|
        0 <= i < names.len() ==> (names_a_file((#[trigger] names[i])@) <==> at.contains(i))
}

/// The part holds those of the names that end in `.deb`, in order.
pub open spec fn are_the_files(names: Seq<String>, part: Seq<String>) -> bool {
    exists|at: Seq<int>| picks_files(at, names, part)
}

/// The steps that mark changes are those that were asked for, each once, in the order install,
/// remove, upgrade, behind `n` others.
pub open spec fn marks_requests(
    plan: Seq<PlanStep>,
    n: int,
    install: Seq<String>,
    remove: Seq<String>,
    upgrade: bool,
) -> bool {
    let i = n;
    let r = if install.len() > 0 {
        i + 1
    } else {
        i
    };
    let u = if remove.len() > 0 {
        r + 1
    } else {
        r
    };
    &&& plan.len() == if upgrade {
        u + 1
    } else {
        u
    }
    &&& install.len() > 0 ==> plan[i] is Install && same_strings(plan[i]->Install_0@, install)
    &&& remove.len() > 0 ==> plan[r] is Remove && same_strings(plan[r]->Remove_0@, remove)
    &&& upgrade ==> plan[u] is UpgradeAll
}

proof fn lemma_same_texts(a: Seq<String>, b: Seq<String>)
    requires
        texts(a) == texts(b),
    ensures
        same_strings(a, b),
{
    assert(texts(a).len() == a.len());
    assert(texts(b).len() == b.len());
    assert forall|j: int| 0 <= j < a.len() implies (#[trigger] a[j])@ == b[j]@ by {
        assert(texts(a)[j] == a[j]@);
        assert(texts(b)[j] == b[j]@);
    }
}

proof fn lemma_marks(
    plan: Seq<PlanStep>,
    head: Seq<StepView>,
    install: Seq<String>,
    remove: Seq<String>,
    upgrade: bool,
)
    requires
        steps(plan) == head + marks(texts(install), texts(remove), upgrade),
    ensures
        marks_requests(plan, head.len() as int, install, remove, upgrade),
        forall|k: int| 0 <= k < head.len() ==> (#[trigger] plan[k])@ == head[k],
{
    let n = head.len() as int;
    assert(steps(plan).len() == plan.len());
    assert(texts(install).len() == install.len());
    assert(texts(remove).len() == remove.len());
    assert forall|k: int| 0 <= k < plan.len() implies (#[trigger] plan[k])@ == (head + marks(
        texts(install),
        texts(remove),
        upgrade,
    ))[k] by {
        assert(steps(plan)[k] == plan[k]@);
    }
    let r = if install.len() > 0 {
        n + 1
    } else {
        n
    };
    if install.len() > 0 {
        assert(plan[n]@ == StepView::Install(texts(install)));
        lemma_same_texts(plan[n]->Install_0@, install);
    }
    if remove.len() > 0 {
        assert(plan[r]@ == StepView::Remove(texts(remove)));
        lemma_same_texts(plan[r]->Remove_0@, remove);
    }
}

/// A preview opens the package manager without package files, and marks what was asked for:
/// what is to be installed, what is to be removed, and an upgrade, each exactly if it was
/// asked for.
pub proof fn law_preview_marks_each_request(
    install: Vec<String>,
    remove: Vec<String>,
    upgrade: bool,
    plan: Vec<PlanStep>,
)
    requires
        call_ensures(summary_plan, (install, remove, upgrade), plan),
    ensures
        plan@[0] is Open,
        plan@[0]->Open_0@.len() == 0,
        marks_requests(plan@, 1, install@, remove@, upgrade),
{
    let head = seq![StepView::Open(seq![])];
    lemma_marks(plan@, head, install@, remove@, upgrade);
    assert(plan@[0]@ == head[0]);
    assert(texts(plan@[0]->Open_0@).len() == plan@[0]->Open_0@.len());
}

/// The preview of all updates is the preview of an upgrade and nothing else.
pub proof fn law_updates_are_an_upgrade(plan: Vec<PlanStep>)
    requires
        call_ensures(updates_plan, (), plan),
    ensures
        plan@.len() == 2,
        plan@[0] is Open,
        plan@[0]->Open_0@.len() == 0,
        plan@[1] is UpgradeAll,
{
    assert(steps(plan@).len() == plan@.len());
    assert(steps(plan@)[0] == plan@[0]@);
    assert(steps(plan@)[1] == plan@[1]@);
    assert(texts(plan@[0]->Open_0@).len() == plan@[0]->Open_0@.len());
}

/// A change opens the package manager, and once more with the package files among what is to
/// be installed, if there are any. Then it marks what was asked for: what is to be installed,
/// what is to be removed, and an upgrade, each exactly if it was asked for.
pub proof fn law_change_marks_each_request(
    install: Vec<String>,
    remove: Vec<String>,
    upgrade: bool,
    plan: Vec<PlanStep>,
)
    requires
        call_ensures(apply_plan, (install, remove, upgrade), plan),
    ensures
        plan@[0] is Open,
        plan@[0]->Open_0@.len() == 0,
        (exists|i: int| 0 <= i < install@.len() && names_a_file((#[trigger] install@[i])@)) ==> {
            &&& plan@[1] is Open
            &&& are_the_files(install@, plan@[1]->Open_0@)
            &&& marks_requests(plan@, 2, install@, remove@, upgrade)
        },
        !(exists|i: int| 0 <= i < install@.len() && names_a_file((#[trigger] install@[i])@))
            ==> marks_requests(plan@, 1, install@, remove@, upgrade),
{
    let names = texts(install@);
    let debs = debs_in(names);
    let first = seq![StepView::Open(seq![])];
    let reopen = if debs.len() > 0 {
        seq![StepView::Open(debs)]
    } else {
        seq![]
    };
    lemma_marks(plan@, first + reopen, install@, remove@, upgrade);
    assert(plan@[0]@ == (first + reopen)[0]);
    assert(texts(plan@[0]->Open_0@).len() == plan@[0]->Open_0@.len());
    if debs.len() > 0 {
        assert(plan@[1]@ == (first + reopen)[1]);
        lemma_files(install@, plan@[1]->Open_0@);
        let at = choose|at: Seq<int>| picks_files(at, install@, plan@[1]->Open_0@);
        assert(texts(plan@[1]->Open_0@).len() == plan@[1]->Open_0@.len());
        assert(at.contains(at[0]));
        assert(names_a_file(install@[at[0]]@));
    } else if exists|i: int| 0 <= i < install@.len() && names_a_file((#[trigger] install@[i])@) {
        let i = choose|i: int| 0 <= i < install@.len() && names_a_file((#[trigger] install@[i])@);
        assert(texts(Seq::<String>::empty()) =~= debs);
        lemma_files(install@, Seq::empty());
        let at = choose|at: Seq<int>| picks_files(at, install@, Seq::<String>::empty());
        assert(at.contains(i));
    }
}

/// The package files among names are those that end in `.deb`, in order.
pub proof fn law_files_are_told_by_their_ending(install: Vec<String>, debs: Vec<String>)
    requires
        call_ensures(local_debs, (&install,), debs),
    ensures
        are_the_files(install@, debs@),
{
    lemma_files(install@, debs@);
}

proof fn lemma_ending(name: Seq<char>)
    ensures
        is_deb(name) <==> names_a_file(name),
{
    reveal_strlit(".deb");
    let end = ".deb"@;
    if name.len() >= 4 {
        let tail = name.subrange(name.len() - 4, name.len() as int);
        if names_a_file(name) {
            assert(tail =~= end);
        }
        if is_deb(name) {
            assert(tail[0] == '.' && tail[1] == 'd' && tail[2] == 'e' && tail[3] == 'b');
        }
    }
}

proof fn lemma_files(names: Seq<String>, part: Seq<String>)
    requires
        texts(part) == debs_in(texts(names)),
    ensures
        are_the_files(names, part),
    decreases names.len(),
{
    reveal(Seq::filter);
    assert(texts(part).len() == part.len());
    assert forall|j: int| 0 <= j < part.len() implies texts(part)[j] == (#[trigger] part[j])@ by {}
    if names.len() == 0 {
        assert(texts(names) =~= seq![]);
        assert(picks_files(Seq::empty(), names, part));
    } else {
        let last = names.len() - 1;
        let before = names.drop_last();
        assert(texts(names).drop_last() =~= texts(before));
        assert(texts(names).last() == names[last]@);
        lemma_ending(names[last]@);
        if is_deb(names[last]@) {
            let less = part.drop_last();
            assert(texts(less) =~= texts(part).drop_last());
            assert(texts(part) == debs_in(texts(before)).push(names[last]@));
            assert(texts(less) =~= debs_in(texts(before)));
            lemma_files(before, less);
            let at = choose|at: Seq<int>| picks_files(at, before, less);
            let all = at.push(last);
            assert forall|i: int| 0 <= i < names.len() implies (names_a_file(
                (#[trigger] names[i])@,
            ) <==> all.contains(i)) by {
                if i < last {
                    assert(before[i] == names[i]);
                    if at.contains(i) {
                        let j = choose|j: int| 0 <= j < at.len() && at[j] == i;
                        assert(all[j] == i);
                    }
                    if all.contains(i) {
                        let j = choose|j: int| 0 <= j < all.len() && all[j] == i;
                        assert(at[j] == i);
                    }
                } else {
                    assert(all[at.len() as int] == i);
                }
            }
            assert forall|j: int| 0 <= j < all.len() implies (#[trigger] part[j])@
                == names[all[j]]@ by {
                if j < at.len() {
                    assert(less[j] == part[j]);
                    assert(before[at[j]] == names[at[j]]);
                } else {
                    assert(texts(part)[j] == names[last]@);
                }
            }
            assert(picks_files(all, names, part));
        } else {
            lemma_files(before, part);
            let at = choose|at: Seq<int>| picks_files(at, before, part);
            assert forall|i: int| 0 <= i < names.len() implies (names_a_file(
                (#[trigger] names[i])@,
            ) <==> at.contains(i)) by {
                if i < last {
                    assert(before[i] == names[i]);
                }
            }
            assert forall|j: int| 0 <= j < at.len() implies (#[trigger] part[j])@
                == names[at[j]]@ by {
                assert(before[at[j]] == names[at[j]]);
            }
            assert(picks_files(at, names, part));
        }
    }
}

/// There is something to commit unless nothing is installed and nothing removed.
pub proof fn law_empty_changes_are_not_committed(installs: usize, removals: usize, b: bool)
    requires
        call_ensures(worth_committing, (installs, removals), b),
    ensures
        !b <==> installs == 0 && removals == 0,
{
}

/// A change is reported as it went, the history is told the same if it has an entry, and only
/// a change that went well is announced as finished.
pub proof fn law_change_ends_as_it_went(
    request_id: u64,
    entry: Option<i64>,
    committed: Result<(), String>,
    end: CommitEnd,
)
    requires
        call_ensures(end_commit, (request_id, entry, committed), end),
    ensures
        committed is Ok ==> end.outcome is Ok && end.finished is Some,
        committed is Err ==> end.outcome is Err && end.outcome->Err_0@ == committed->Err_0@
            && end.finished is None,
        entry is None ==> end.record is None,
        entry is Some ==> (end.record matches Some((id, went_well)) && id == entry->0 && (went_well
            <==> committed is Ok)),
{
}

/// The end of a change is announced with the number of its request.
pub proof fn law_end_names_the_request(request_id: u64, json: String)
    requires
        call_ensures(finished_json, (request_id,), json),
    ensures
        exists|digits: Seq<char>|
            spells(digits, request_id as nat) && json@ == #[trigger] ("{\"request_id\":"@ + digits
                + ",\"status\":\"finished\"}"@),
{
    law_decimal_spells_its_number(request_id as nat);
    assert(json@ == "{\"request_id\":"@ + decimal(request_id as nat)
        + ",\"status\":\"finished\"}"@);
}

} // verus!
