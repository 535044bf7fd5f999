//! The index: it is in step exactly if it was built from what there is now.
use vstd::prelude::*;

use crate::refresh::{
    begin_refresh, files_of, found, lists_files_state, rebuild_failed, update_mode, FileMeta,
    IndexInputs, IndexRecord, ListFile, RebuildOutcome, RebuildStage, RefreshStep, UpdateMode,
};
use crate::shutdown::Exit;
use crate::text::text_before;

verus! {

/// The inputs agree in every field: the time of the package state, and of every list file the
/// name, the size and the modification time.
pub open spec fn agree(a: IndexInputs, b: IndexInputs) -> bool {
    &&& a.status_mtime == b.status_mtime
    &&& a.lists@.len() == b.lists@.len()
    &&& forall|i: int|
        0 <= i < a.lists@.len() ==> (#[trigger] a.lists@[i]).0@ == b.lists@[i].0@ && a.lists@[i].1
            == b.lists@[i].1 && a.lists@[i].2 == b.lists@[i].2
}

proof fn lemma_agree(a: IndexInputs, b: IndexInputs)
    ensures
        a@ == b@ <==> agree(a, b),
{
    let (x, y) = (files_of(a.lists@), files_of(b.lists@));
    assert(x.len() == a.lists@.len());
    assert(y.len() == b.lists@.len());
    assert forall|i: int| 0 <= i < a.lists@.len() implies x[i] == (
        (#[trigger] a.lists@[i]).0@,
        a.lists@[i].1,
        a.lists@[i].2,
    ) by {}
    assert forall|i: int| 0 <= i < b.lists@.len() implies y[i] == (
        (#[trigger] b.lists@[i]).0@,
        b.lists@[i].1,
        b.lists@[i].2,
    ) by {}
    if agree(a, b) {
        assert forall|i: int| 0 <= i < x.len() implies x[i] == y[i] by {
            assert(a.lists@[i].0@ == b.lists@[i].0@);
        }
        assert(x =~= y);
    }
    if a@ == b@ {
        assert forall|i: int| 0 <= i < a.lists@.len() implies (#[trigger] a.lists@[i]).0@
            == b.lists@[i].0@ && a.lists@[i].1 == b.lists@[i].1 && a.lists@[i].2
            == b.lists@[i].2 by {
            assert(x[i] == y[i]);
        }
    }
}

/// Inputs are the same exactly if the package state has the same time, and the list files are
/// equally many and have, one by one, the same name, size and modification time.
pub proof fn law_same_inputs_agree_in_every_field(a: IndexInputs, b: IndexInputs, same: bool)
    requires
        call_ensures(IndexInputs::same_as, (&a, &b), same),
    ensures
        same <==> {
            &&& a.status_mtime == b.status_mtime
            &&& a.lists@.len() == b.lists@.len()
            &&& forall|i: int|
                0 <= i < a.lists@.len() ==> (#[trigger] a.lists@[i]).0@ == b.lists@[i].0@
                    && a.lists@[i].1 == b.lists@[i].1 && a.lists@[i].2 == b.lists@[i].2
        },
{
    lemma_agree(a, b);
}

/// An index that was noted as built from some inputs is in step with exactly those that agree
/// with them in every field, and is rebuilt for all others.
pub proof fn law_noted_index_is_in_step_with_its_inputs(
    noted: IndexInputs,
    record: IndexRecord,
    current: IndexInputs,
    fresh: bool,
    step: RefreshStep,
)
    requires
        call_ensures(IndexRecord::new, (Some(noted),), record),
        call_ensures(IndexRecord::is_fresh, (&record, &current), fresh),
        call_ensures(IndexRecord::next_step, (&record, &current), step),
    ensures
        fresh <==> agree(noted, current),
        step is Done <==> agree(noted, current),
        step is Rebuild <==> !agree(noted, current),
{
    lemma_agree(noted, current);
}

/// An index of which nothing is noted is in step with nothing.
pub proof fn law_unknown_index_is_never_in_step(
    record: IndexRecord,
    current: IndexInputs,
    fresh: bool,
    step: RefreshStep,
)
    requires
        call_ensures(IndexRecord::new, (None::<IndexInputs>,), record),
        call_ensures(IndexRecord::is_fresh, (&record, &current), fresh),
        call_ensures(IndexRecord::next_step, (&record, &current), step),
    ensures
        !fresh,
        step is Rebuild,
{
}

/// After a rebuild that succeeded, the index is in step with exactly the inputs that it was
/// built from.
pub proof fn law_rebuilt_index_is_in_step(
    record: &mut IndexRecord,
    inputs: IndexInputs,
    r: Result<(), String>,
    current: IndexInputs,
    fresh: bool,
)
    requires
        call_ensures(IndexRecord::rebuilt, (record, RebuildOutcome::Built(inputs)), r),
        call_ensures(IndexRecord::is_fresh, (&*final(record), &current), fresh),
    ensures
        r is Ok,
        fresh <==> agree(inputs, current),
{
    lemma_agree(inputs, current);
}

/// A rebuild that failed says why, and the index is in step with what it was in step with
/// before.
pub proof fn law_failed_rebuild_changes_nothing(
    record: &mut IndexRecord,
    outcome: RebuildOutcome,
    r: Result<(), String>,
    current: IndexInputs,
    before: bool,
    after: bool,
)
    requires
        outcome !is Built,
        call_ensures(IndexRecord::rebuilt, (record, outcome), r),
        call_ensures(IndexRecord::is_fresh, (&*old(record), &current), before),
        call_ensures(IndexRecord::is_fresh, (&*final(record), &current), after),
    ensures
        r is Err,
        outcome is Failed ==> r->Err_0@ == outcome->Failed_0@,
        outcome is Lost ==> exists|said: Seq<char>|
            said.len() > 0 && r->Err_0@ == #[trigger] (said + outcome->Lost_0@),
        after == before,
{
    if outcome is Lost {
        let said = "Cache refresh task failed to join: "@;
        reveal_strlit("Cache refresh task failed to join: ");
        assert(said.len() > 0);
        assert(r->Err_0@ == said + outcome->Lost_0@);
    }
}

/// The file was found, with a modification time.
pub open spec fn was_found(file: (String, Option<FileMeta>)) -> bool {
    file.1 is Some && file.1->0.mtime is Some
}

/// The state of the list files holds each file that was found with a modification time, by its
/// name, size and time; nothing else; and in the order of the names.
pub proof fn law_list_state_holds_what_was_found(
    files: Vec<(String, Option<FileMeta>)>,
    state: Vec<ListFile>,
)
    requires
        call_ensures(lists_files_state, (files,), state),
    ensures
        state@.len() == files@.filter(|f: (String, Option<FileMeta>)| was_found(f)).len(),
        forall|k: int|
            0 <= k < files@.len() && was_found(#[trigger] files@[k]) ==> exists|i: int|
                0 <= i < state@.len() && (#[trigger] state@[i]).0@ == files@[k].0@ && state@[i].1
                    == files@[k].1->0.len && state@[i].2 == files@[k].1->0.mtime->0 as i64,
        forall|i: int|
            0 <= i < state@.len() ==> exists|k: int|
                0 <= k < files@.len() && was_found(#[trigger] files@[k]) && (
                #[trigger] state@[i]).0@ == files@[k].0@ && state@[i].1 == files@[k].1->0.len
                    && state@[i].2 == files@[k].1->0.mtime->0 as i64,
        forall|i: int, j: int|
            0 <= i < j < state@.len() ==> !text_before(
                (#[trigger] state@[j]).0@,
                (#[trigger] state@[i]).0@,
            ),
{
    lemma_found(files@);
    let f = found(files@);
    f.to_multiset_ensures();
    state@.to_multiset_ensures();
    assert forall|k: int| 0 <= k < files@.len() && was_found(#[trigger] files@[k]) implies exists|
        i: int,
    |
        0 <= i < state@.len() && (#[trigger] state@[i]).0@ == files@[k].0@ && state@[i].1
            == files@[k].1->0.len && state@[i].2 == files@[k].1->0.mtime->0 as i64 by {
        let x = (files@[k].0, files@[k].1->0.len, files@[k].1->0.mtime->0 as i64);
        assert(f.contains(x));
        assert(state@.to_multiset().count(x) > 0);
        assert(state@.contains(x));
        let i = choose|i: int| 0 <= i < state@.len() && state@[i] == x;
        assert(state@[i].0@ == files@[k].0@);
    }
    assert forall|i: int| 0 <= i < state@.len() implies exists|k: int|
        0 <= k < files@.len() && was_found(#[trigger] files@[k]) && (#[trigger] state@[i]).0@
            == files@[k].0@ && state@[i].1 == files@[k].1->0.len && state@[i].2
            == files@[k].1->0.mtime->0 as i64 by {
        let x = state@[i];
        assert(state@.contains(x));
        assert(f.to_multiset().count(x) > 0);
        assert(f.contains(x));
        let j = choose|j: int| 0 <= j < f.len() && f[j] == x;
        assert(f.contains(f[j]));
    }
    assert forall|i: int, j: int| 0 <= i < j < state@.len() implies !text_before(
        (#[trigger] state@[j]).0@,
        (#[trigger] state@[i]).0@,
    ) by {
        assert(!crate::sorting::Ranked::precedes(&state@[j], &state@[i]));
        crate::text::lemma_text_before_asymmetric(state@[j].0@, state@[i].0@);
    }
}

proof fn lemma_found(files: Seq<(String, Option<FileMeta>)>)
    ensures
        found(files).len() == files.filter(|f: (String, Option<FileMeta>)| was_found(f)).len(),
        forall|k: int|
            0 <= k < files.len() && was_found(#[trigger] files[k]) ==> found(files).contains(
                (files[k].0, files[k].1->0.len, files[k].1->0.mtime->0 as i64),
            ),
        forall|x: ListFile| #[trigger]
            found(files).contains(x) ==> exists|k: int|
                0 <= k < files.len() && was_found(#[trigger] files[k]) && x == (
                    files[k].0,
                    files[k].1->0.len,
                    files[k].1->0.mtime->0 as i64,
                ),
    decreases files.len(),
{
    reveal(Seq::filter);
    if files.len() > 0 {
        let before = files.drop_last();
        let last = files.last();
        lemma_found(before);
        let f = found(files);
        let g = found(before);
        assert forall|k: int| 0 <= k < files.len() && was_found(
            #[trigger] files[k],
        ) implies f.contains(
            (files[k].0, files[k].1->0.len, files[k].1->0.mtime->0 as i64),
        ) by {
            let x = (files[k].0, files[k].1->0.len, files[k].1->0.mtime->0 as i64);
            if k < before.len() {
                assert(before[k] == files[k]);
                let j = choose|j: int| 0 <= j < g.len() && g[j] == x;
                assert(f[j] == x);
            } else {
                assert(f[f.len() - 1] == x);
            }
        }
        assert forall|x: ListFile| #[trigger] f.contains(x) implies exists|k: int|
            0 <= k < files.len() && was_found(#[trigger] files[k]) && x == (
                files[k].0,
                files[k].1->0.len,
                files[k].1->0.mtime->0 as i64,
            ) by {
            let j = choose|j: int| 0 <= j < f.len() && f[j] == x;
            if j < g.len() {
                assert(g[j] == x);
                assert(g.contains(x));
                let k = choose|k: int|
                    0 <= k < before.len() && was_found(#[trigger] before[k]) && x == (
                        before[k].0,
                        before[k].1->0.len,
                        before[k].1->0.mtime->0 as i64,
                    );
                assert(files[k] == before[k]);
            } else {
                assert(was_found(files[files.len() - 1]));
            }
        }
    }
}

/// After an update that broke off, and only then, the index is built from nothing.
pub proof fn law_broken_update_is_done_over(broke_off: bool, mode: UpdateMode)
    requires
        call_ensures(update_mode, (broke_off,), mode),
    ensures
        mode is Full <==> broke_off,
{
}

/// Why a rebuild failed is said, behind what tells its stages apart.
pub proof fn law_failed_stage_is_told(
    a: RebuildStage,
    b: RebuildStage,
    why: &str,
    x: String,
    y: String,
)
    requires
        call_ensures(rebuild_failed, (a, why), x),
        call_ensures(rebuild_failed, (b, why), y),
    ensures
        exists|said: Seq<char>| said.len() > 0 && x@ == #[trigger] (said + why@),
        a != b ==> x@ != y@,
{
    reveal_strlit("Failed to rebuild oma package database: ");
    reveal_strlit("Failed to read dpkg status: ");
    reveal_strlit("Failed to rebuild search index: ");
    let p = crate::refresh::stage_text(a);
    let q = crate::refresh::stage_text(b);
    assert(p.len() > 0);
    assert(x@ == p + why@);
    assert(p.len() >= 27 && q.len() >= 27);
    assert(x@[10] == p[10] && x@[18] == p[18]);
    assert(y@[10] == q[10] && y@[18] == q[18]);
}

/// A refresh is refused exactly once the service can exit, and then with the reason for which
/// it exits.
pub proof fn law_refresh_is_refused_only_at_the_end(
    exit: Exit,
    ready: bool,
    reason: &'static str,
    r: Result<(), &'static str>,
)
    requires
        call_ensures(Exit::ready, (&exit,), ready),
        call_ensures(Exit::reason, (&exit,), reason),
        call_ensures(begin_refresh, (&exit,), r),
    ensures
        r is Err <==> ready,
        r is Err ==> r->Err_0@ == reason@,
{
}

} // verus!
