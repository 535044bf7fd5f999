//! Reclaiming objects that nobody goes on with: none that is in use is taken, and none that is
//! not is left.
use std::collections::HashMap;
use vstd::prelude::*;

use crate::clock::Instant;
use crate::laws::registry::{
    is_later_by, is_scheduled, lemma_entries, lemma_same_view, lemma_scheduled, same_entry,
};
use crate::text::{text_of, texts};
use crate::transaction::live::{entries, is_bus_name, LiveTransaction};
use crate::transaction::reclaim::{
    claims, distinct_paths, is_noted, judge, judged_abandoned, judged_dormant, snapshot, still_abandoned,
    still_dormant, sweep, without_abandoned, without_dormant, Candidate, Stale, Swept,
};
use crate::transaction::registry_laws::{
    law_sweep_hands_back_only_what_it_takes, law_sweep_hands_back_what_it_takes,
    law_sweep_takes_the_stale, taken,
};
use crate::transaction::TransactionManager;

verus! {

broadcast use vstd::std_specs::hash::group_hash_axioms;

/// The note says of the object all that it is judged by.
pub open spec fn notes_all(c: Candidate, t: LiveTransaction) -> bool {
    &&& c.path@ == t.path@
    &&& c.sender@ == t.sender@
    &&& c.started == t.started
    &&& c.enqueued == t.enqueued
    &&& c.created_at == t.created_at
    &&& c.claimed_at == t.claimed_at
    &&& c.dormant_since == t.dormant_since
}

/// A note tells of the object.
pub open spec fn has_note(candidates: Seq<Candidate>, id: u64) -> bool {
    exists|i: int| 0 <= i < candidates.len() && (#[trigger] candidates[i]).id == id
}

/// Every object is noted, once, and nothing else is.
pub proof fn law_every_object_is_noted(
    live: HashMap<u64, LiveTransaction>,
    candidates: Vec<Candidate>,
)
    requires
        call_ensures(snapshot, (&live,), candidates),
    ensures
        forall|i: int|
            0 <= i < candidates@.len() ==> live@.contains_key((#[trigger] candidates@[i]).id)
                && notes_all(candidates@[i], live@[candidates@[i].id]),
        forall|id: u64| #[trigger] live@.contains_key(id) ==> has_note(candidates@, id),
        forall|i: int, j: int|
            0 <= i < j < candidates@.len() ==> (#[trigger] candidates@[i]).id != (
            #[trigger] candidates@[j]).id,
{
    lemma_entries(live@);
    assert forall|id: u64| #[trigger] live@.contains_key(id) implies has_note(candidates@, id) by {
        assert(entries(live@).contains_key(id));
        assert(is_noted(candidates@, id));
    }
    assert forall|i: int| 0 <= i < candidates@.len() implies live@.contains_key(
        (#[trigger] candidates@[i]).id,
    ) && notes_all(candidates@[i], live@[candidates@[i].id]) by {
        let id = candidates@[i].id;
        assert(candidates@[i].notes(entries(live@)));
        assert(entries(live@).contains_key(id));
        assert(entries(live@)[id] == live@[id]@);
    }
}

/// The object is dormant, and has been for a minute since it became so, or, where that is not
/// recorded, since it was created.
pub open spec fn has_overslept(c: Candidate, now: Instant) -> bool {
    !c.started && match c.dormant_since {
        Some(t) => is_later_by(now, t, 60),
        None => is_later_by(now, c.created_at, 60),
    }
}

/// The object is claimed, its transaction was not handed to the scheduler, and the claim was made
/// five minutes ago, or its owner, if it can have one on the bus, has none.
pub open spec fn is_abandoned<T>(
    c: Candidate,
    manager: TransactionManager<T>,
    now: Instant,
    has_owner: bool,
) -> bool {
    &&& c.started
    &&& !c.enqueued
    &&& !is_scheduled(manager, c.id)
    &&& (match c.claimed_at {
        Some(t) => is_later_by(now, t, 300),
        None => is_later_by(now, c.created_at, 300),
    }) || (is_bus_name(c.sender@) && !has_owner)
}

proof fn lemma_judged<T>(c: Candidate, manager: TransactionManager<T>, now: Instant, owner: bool)
    ensures
        c.overslept(now) <==> has_overslept(c, now),
        c.abandoned(manager, now, owner) <==> is_abandoned(c, manager, now, owner),
{
    lemma_scheduled(manager, c.id);
}

/// The bus is asked for the owner of an object exactly if its answer decides whether the object is
/// abandoned.
pub proof fn law_owner_is_asked_for_where_it_matters<T>(
    c: Candidate,
    manager: TransactionManager<T>,
    now: Instant,
    asked: bool,
)
    requires
        call_ensures(Candidate::asks_for_owner::<T>, (&c, &manager, now), asked),
    ensures
        asked <==> is_abandoned(c, manager, now, true) != is_abandoned(c, manager, now, false),
{
    lemma_judged(c, manager, now, true);
    lemma_judged(c, manager, now, false);
}

proof fn lemma_dormant(s: Seq<(Candidate, bool)>, now: Instant)
    ensures
        forall|p: Seq<char>| #[trigger]
            judged_dormant(s, now).contains(p) <==> exists|k: int|
                0 <= k < s.len() && has_overslept((#[trigger] s[k]).0, now) && s[k].0.path@ == p,
        judged_dormant(s, now).len() == s.filter(
            |c: (Candidate, bool)| has_overslept(c.0, now),
        ).len(),
    decreases s.len(),
{
    reveal(Seq::filter);
    if s.len() > 0 {
        let before = s.drop_last();
        let last = s.last();
        lemma_dormant(before, now);
        let all = judged_dormant(s, now);
        let some = judged_dormant(before, now);
        assert(last.0.overslept(now) <==> has_overslept(last.0, now));
        assert forall|p: Seq<char>| #[trigger] all.contains(p) <==> exists|k: int|
            0 <= k < s.len() && has_overslept((#[trigger] s[k]).0, now) && s[k].0.path@ == p by {
            if all.contains(p) {
                let j = choose|j: int| 0 <= j < all.len() && all[j] == p;
                if j < some.len() {
                    assert(some[j] == p);
                    assert(some.contains(p));
                    let k = choose|k: int|
                        0 <= k < before.len() && has_overslept((#[trigger] before[k]).0, now)
                            && before[k].0.path@ == p;
                    assert(s[k] == before[k]);
                } else {
                    assert(s[s.len() - 1] == last);
                }
            }
            if exists|k: int|
                0 <= k < s.len() && has_overslept((#[trigger] s[k]).0, now) && s[k].0.path@ == p {
                let k = choose|k: int|
                    0 <= k < s.len() && has_overslept((#[trigger] s[k]).0, now) && s[k].0.path@
                        == p;
                if k < before.len() {
                    assert(before[k] == s[k]);
                    assert(some.contains(p));
                    let j = choose|j: int| 0 <= j < some.len() && some[j] == p;
                    assert(all[j] == p);
                } else {
                    assert(all[all.len() - 1] == p);
                }
            }
        }
    }
}

proof fn lemma_abandoned<T>(s: Seq<(Candidate, bool)>, manager: TransactionManager<T>, now: Instant)
    ensures
        forall|p: (Seq<char>, Option<Instant>)| #[trigger]
            judged_abandoned(s, manager, now).contains(p) <==> exists|k: int|
                0 <= k < s.len() && is_abandoned((#[trigger] s[k]).0, manager, now, s[k].1) && (
                    s[k].0.path@,
                    s[k].0.claimed_at,
                ) == p,
        judged_abandoned(s, manager, now).len() == s.filter(
            |c: (Candidate, bool)| is_abandoned(c.0, manager, now, c.1),
        ).len(),
    decreases s.len(),
{
    reveal(Seq::filter);
    if s.len() > 0 {
        let before = s.drop_last();
        let last = s.last();
        lemma_abandoned(before, manager, now);
        let all = judged_abandoned(s, manager, now);
        let some = judged_abandoned(before, manager, now);
        lemma_judged(last.0, manager, now, last.1);
        assert forall|p: (Seq<char>, Option<Instant>)| #[trigger] all.contains(p) <==> exists|
            k: int,
        |
            0 <= k < s.len() && is_abandoned((#[trigger] s[k]).0, manager, now, s[k].1) && (
                s[k].0.path@,
                s[k].0.claimed_at,
            ) == p by {
            if all.contains(p) {
                let j = choose|j: int| 0 <= j < all.len() && all[j] == p;
                if j < some.len() {
                    assert(some[j] == p);
                    assert(some.contains(p));
                    let k = choose|k: int|
                        0 <= k < before.len() && is_abandoned(
                            (#[trigger] before[k]).0,
                            manager,
                            now,
                            before[k].1,
                        ) && (before[k].0.path@, before[k].0.claimed_at) == p;
                    assert(s[k] == before[k]);
                } else {
                    assert(s[s.len() - 1] == last);
                }
            }
            if exists|k: int|
                0 <= k < s.len() && is_abandoned((#[trigger] s[k]).0, manager, now, s[k].1) && (
                    s[k].0.path@,
                    s[k].0.claimed_at,
                ) == p {
                let k = choose|k: int|
                    0 <= k < s.len() && is_abandoned((#[trigger] s[k]).0, manager, now, s[k].1)
                        && (s[k].0.path@, s[k].0.claimed_at) == p;
                if k < before.len() {
                    assert(before[k] == s[k]);
                    assert(some.contains(p));
                    let j = choose|j: int| 0 <= j < some.len() && some[j] == p;
                    assert(all[j] == p);
                } else {
                    assert(all[all.len() - 1] == p);
                }
            }
        }
    }
}

/// The path is in the list.
pub open spec fn lists_path(list: Seq<String>, path: Seq<char>) -> bool {
    exists|i: int| 0 <= i < list.len() && (#[trigger] list[i])@ == path
}

/// The claim of the object at the path, made at that time, is in the list.
pub open spec fn lists_claim(
    list: Seq<(String, Option<Instant>)>,
    path: Seq<char>,
    claimed_at: Option<Instant>,
) -> bool {
    exists|i: int| 0 <= i < list.len() && (#[trigger] list[i]).0@ == path && list[i].1 == claimed_at
}

proof fn lemma_lists_path(list: Seq<String>, path: Seq<char>)
    ensures
        texts(list).contains(path) <==> lists_path(list, path),
{
    if texts(list).contains(path) {
        let i = choose|i: int| 0 <= i < texts(list).len() && texts(list)[i] == path;
        assert(list[i]@ == path);
    }
    if lists_path(list, path) {
        let i = choose|i: int| 0 <= i < list.len() && (#[trigger] list[i])@ == path;
        assert(texts(list)[i] == path);
    }
}

proof fn lemma_lists_claim(
    list: Seq<(String, Option<Instant>)>,
    path: Seq<char>,
    claimed_at: Option<Instant>,
)
    ensures
        claims(list).contains((path, claimed_at)) <==> lists_claim(list, path, claimed_at),
{
    if claims(list).contains((path, claimed_at)) {
        let i = choose|i: int| 0 <= i < claims(list).len() && claims(list)[i] == (path, claimed_at);
        assert(list[i].0@ == path);
    }
    if lists_claim(list, path, claimed_at) {
        let i = choose|i: int|
            0 <= i < list.len() && (#[trigger] list[i]).0@ == path && list[i].1 == claimed_at;
        assert(claims(list)[i] == (path, claimed_at));
    }
}

/// The candidates that are judged stale are exactly those that have overslept, by their paths,
/// and those whose claims are abandoned, by their paths and the times of the claims; each
/// candidate once.
pub proof fn law_stale_is_judged<T>(
    candidates: Vec<(Candidate, bool)>,
    manager: TransactionManager<T>,
    now: Instant,
    stale: Stale,
)
    requires
        call_ensures(judge::<T>, (&candidates, &manager, now), stale),
    ensures
        forall|path: Seq<char>| #[trigger]
            lists_path(stale.dormant@, path) <==> exists|k: int|
                0 <= k < candidates@.len() && has_overslept((#[trigger] candidates@[k]).0, now)
                    && candidates@[k].0.path@ == path,
        forall|path: Seq<char>, t: Option<Instant>| #[trigger]
            lists_claim(stale.abandoned@, path, t) <==> exists|k: int|
                0 <= k < candidates@.len() && is_abandoned(
                    (#[trigger] candidates@[k]).0,
                    manager,
                    now,
                    candidates@[k].1,
                ) && candidates@[k].0.path@ == path && candidates@[k].0.claimed_at == t,
        stale.dormant@.len() == candidates@.filter(
            |c: (Candidate, bool)| has_overslept(c.0, now),
        ).len(),
        stale.abandoned@.len() == candidates@.filter(
            |c: (Candidate, bool)| is_abandoned(c.0, manager, now, c.1),
        ).len(),
{
    lemma_dormant(candidates@, now);
    lemma_abandoned(candidates@, manager, now);
    assert(texts(stale.dormant@).len() == stale.dormant@.len());
    assert(claims(stale.abandoned@).len() == stale.abandoned@.len());
    assert forall|path: Seq<char>| #[trigger] lists_path(stale.dormant@, path) <==> exists|k: int|
        0 <= k < candidates@.len() && has_overslept((#[trigger] candidates@[k]).0, now)
            && candidates@[k].0.path@ == path by {
        lemma_lists_path(stale.dormant@, path);
        assert(judged_dormant(candidates@, now).contains(path) == lists_path(
            stale.dormant@,
            path,
        ));
    }
    assert forall|path: Seq<char>, t: Option<Instant>| #[trigger]
        lists_claim(stale.abandoned@, path, t) <==> exists|k: int|
            0 <= k < candidates@.len() && is_abandoned(
                (#[trigger] candidates@[k]).0,
                manager,
                now,
                candidates@[k].1,
            ) && candidates@[k].0.path@ == path && candidates@[k].0.claimed_at == t by {
        lemma_lists_claim(stale.abandoned@, path, t);
        let p = (path, t);
        assert(judged_abandoned(candidates@, manager, now).contains(p) == lists_claim(
            stale.abandoned@,
            path,
            t,
        ));
        if lists_claim(stale.abandoned@, path, t) {
            let k = choose|k: int|
                0 <= k < candidates@.len() && is_abandoned(
                    (#[trigger] candidates@[k]).0,
                    manager,
                    now,
                    candidates@[k].1,
                ) && (candidates@[k].0.path@, candidates@[k].0.claimed_at) == p;
            assert(candidates@[k].0.path@ == path && candidates@[k].0.claimed_at == t);
        }
        if exists|k: int|
            0 <= k < candidates@.len() && is_abandoned(
                (#[trigger] candidates@[k]).0,
                manager,
                now,
                candidates@[k].1,
            ) && candidates@[k].0.path@ == path && candidates@[k].0.claimed_at == t {
            let k = choose|k: int|
                0 <= k < candidates@.len() && is_abandoned(
                    (#[trigger] candidates@[k]).0,
                    manager,
                    now,
                    candidates@[k].1,
                ) && candidates@[k].0.path@ == path && candidates@[k].0.claimed_at == t;
            assert((candidates@[k].0.path@, candidates@[k].0.claimed_at) == p);
        }
    }
}

/// The object was judged to have overslept, is dormant, and has overslept.
pub open spec fn goes_as_dormant(t: LiveTransaction, stale: Stale, now: Instant) -> bool {
    &&& lists_path(stale.dormant@, t.path@)
    &&& !t.started
    &&& match t.dormant_since {
        Some(since) => is_later_by(now, since, 60),
        None => is_later_by(now, t.created_at, 60),
    }
}

/// The object's claim was judged to be abandoned, is the same, and its transaction was not handed
/// to the scheduler.
pub open spec fn goes_as_abandoned<T>(
    t: LiveTransaction,
    id: u64,
    stale: Stale,
    manager: TransactionManager<T>,
) -> bool {
    &&& lists_claim(stale.abandoned@, t.path@, t.claimed_at)
    &&& !t.enqueued
    &&& !is_scheduled(manager, id)
}

/// No two objects stand at the same path.
pub open spec fn paths_differ(m: Map<u64, LiveTransaction>) -> bool {
    forall|a: u64, b: u64|
        #![trigger m[a], m[b]]
        m.contains_key(a) && m.contains_key(b) && m[a].path@ == m[b].path@ ==> a == b
}

proof fn lemma_goes<T>(
    m: Map<u64, LiveTransaction>,
    id: u64,
    stale: Stale,
    manager: TransactionManager<T>,
    now: Instant,
)
    requires
        m.contains_key(id),
    ensures
        still_dormant(entries(m)[id], texts(stale.dormant@), now) <==> goes_as_dormant(
            m[id],
            stale,
            now,
        ),
        taken(entries(m), id, claims(stale.abandoned@), manager) <==> goes_as_abandoned(
            m[id],
            id,
            stale,
            manager,
        ),
{
    lemma_entries(m);
    let t = m[id];
    let list = claims(stale.abandoned@);
    assert(entries(m)[id] == t@);
    lemma_lists_path(stale.dormant@, t.path@);
    lemma_lists_claim(stale.abandoned@, t.path@, t.claimed_at);
    lemma_scheduled(manager, id);
    if taken(entries(m), id, list, manager) {
        let i = choose|i: int|
            0 <= i < list.len() && (#[trigger] list[i]).0 == entries(m)[id].path
                && still_abandoned(entries(m)[id], id, list[i].1, manager);
        assert(list[i] == (t.path@, t.claimed_at));
        assert(list.contains((t.path@, t.claimed_at)));
    }
    if goes_as_abandoned(t, id, stale, manager) {
        let i = choose|i: int| 0 <= i < list.len() && list[i] == (t.path@, t.claimed_at);
        assert(list[i].0 == entries(m)[id].path);
        assert(still_abandoned(entries(m)[id], id, list[i].1, manager));
    }
}

/// A sweep takes out exactly the objects that were judged stale and still are. It hands back the
/// paths of those that overslept, and of those whose claims were abandoned the paths and the ids
/// of the checks. What it leaves it leaves as it is.
pub proof fn law_sweep_takes_exactly_the_stale<T>(
    live: &mut HashMap<u64, LiveTransaction>,
    manager: TransactionManager<T>,
    stale: Stale,
    now: Instant,
    swept: Swept,
    id: u64,
)
    requires
        call_ensures(sweep::<T>, (live, &manager, &stale, now), swept),
        paths_differ(old(live)@),
    ensures
        final(live)@.contains_key(id) <==> {
            &&& old(live)@.contains_key(id)
            &&& !goes_as_dormant(old(live)@[id], stale, now)
            &&& !goes_as_abandoned(old(live)@[id], id, stale, manager)
        },
        final(live)@.contains_key(id) ==> same_entry(old(live)@[id], final(live)@[id]),
        old(live)@.contains_key(id) && goes_as_dormant(old(live)@[id], stale, now) ==> lists_path(
            swept.dormant@,
            old(live)@[id].path@,
        ),
        old(live)@.contains_key(id) && !goes_as_dormant(old(live)@[id], stale, now)
            && goes_as_abandoned(old(live)@[id], id, stale, manager) ==> {
            &&& lists_path(swept.abandoned@, old(live)@[id].path@)
            &&& old(live)@[id].cancellation_id is Some ==> lists_path(
                swept.cancel_ids@,
                old(live)@[id].cancellation_id->0@,
            )
        },
{
    let (a, b) = (old(live)@, final(live)@);
    let m = entries(a);
    let dormant = texts(stale.dormant@);
    let abandoned = claims(stale.abandoned@);
    lemma_entries(a);
    lemma_entries(b);
    lemma_distinct(a);
    law_sweep_takes_the_stale(m, dormant, abandoned, manager, now, id);
    assert(entries(b).contains_key(id) == b.contains_key(id));
    assert(m.contains_key(id) == a.contains_key(id));
    if a.contains_key(id) {
        lemma_goes(a, id, stale, manager, now);
        assert(m[id] == a[id]@);
        if b.contains_key(id) {
            assert(entries(b)[id] == b[id]@);
            lemma_same_view(a[id], b[id]);
        }
        if goes_as_dormant(a[id], stale, now) {
            lemma_lists_path(swept.dormant@, a[id].path@);
            assert(still_dormant(m[id], dormant, now) && m[id].path == a[id].path@);
            assert(texts(swept.dormant@).contains(a[id].path@));
        } else if goes_as_abandoned(a[id], id, stale, manager) {
            let awake = without_dormant(m, dormant, now);
            assert(distinct_paths(awake));
            assert(awake.contains_key(id));
            assert(awake[id] == m[id]);
            assert(taken(awake, id, abandoned, manager));
            law_sweep_hands_back_what_it_takes(awake, abandoned, manager, id);
            lemma_lists_path(swept.abandoned@, a[id].path@);
            if a[id].cancellation_id is Some {
                assert(m[id].cancellation_id == text_of(a[id].cancellation_id));
                lemma_lists_path(swept.cancel_ids@, a[id].cancellation_id->0@);
            }
        }
    }
}

proof fn lemma_distinct(a: Map<u64, LiveTransaction>)
    requires
        paths_differ(a),
    ensures
        distinct_paths(entries(a)),
{
    lemma_entries(a);
    let m = entries(a);
    assert forall|x: u64, y: u64|
        #![trigger m[x], m[y]]
        m.contains_key(x) && m.contains_key(y) && m[x].path == m[y].path implies x == y by {
        assert(m[x] == a[x]@ && m[y] == a[y]@);
        assert(a[x].path@ == a[y].path@);
    }
}

/// What a sweep hands back is no more than what it took: every path is that of an object that went,
/// every id that of the check of such an object, and no path comes twice.
pub proof fn law_sweep_hands_back_no_more<T>(
    live: &mut HashMap<u64, LiveTransaction>,
    manager: TransactionManager<T>,
    stale: Stale,
    now: Instant,
    swept: Swept,
    i: int,
)
    requires
        call_ensures(sweep::<T>, (live, &manager, &stale, now), swept),
        paths_differ(old(live)@),
    ensures
        0 <= i < swept.dormant@.len() ==> exists|id: u64|
            #![trigger old(live)@.contains_key(id)]
            old(live)@.contains_key(id) && goes_as_dormant(old(live)@[id], stale, now) && old(live)@[id].path@ == swept.dormant@[i]@,
        0 <= i < swept.abandoned@.len() ==> exists|id: u64|
            #![trigger old(live)@.contains_key(id)]
            old(live)@.contains_key(id) && goes_as_abandoned(old(live)@[id], id, stale, manager)
                && old(live)@[id].path@ == swept.abandoned@[i]@,
        0 <= i < swept.cancel_ids@.len() ==> exists|id: u64|
            #![trigger old(live)@.contains_key(id)]
            old(live)@.contains_key(id) && goes_as_abandoned(old(live)@[id], id, stale, manager)
                && old(live)@[id].cancellation_id is Some && old(live)@[id].cancellation_id->0@
                == swept.cancel_ids@[i]@,
        forall|j: int, l: int|
            0 <= j < l < swept.dormant@.len() ==> (#[trigger] swept.dormant@[j])@ != (
            #[trigger] swept.dormant@[l])@,
        forall|j: int, l: int|
            0 <= j < l < swept.abandoned@.len() ==> (#[trigger] swept.abandoned@[j])@ != (
            #[trigger] swept.abandoned@[l])@,
{
    let a = old(live)@;
    let m = entries(a);
    let dormant = texts(stale.dormant@);
    let abandoned = claims(stale.abandoned@);
    let awake = without_dormant(m, dormant, now);
    lemma_entries(a);
    lemma_distinct(a);
    assert(distinct_paths(awake));
    let (left, paths, ids) = without_abandoned(awake, abandoned, manager);
    law_sweep_hands_back_only_what_it_takes(awake, abandoned, manager);
    assert(texts(swept.dormant@).len() == swept.dormant@.len());
    assert(texts(swept.abandoned@).len() == swept.abandoned@.len());
    assert(texts(swept.cancel_ids@).len() == swept.cancel_ids@.len());
    if 0 <= i < swept.dormant@.len() {
        let path = swept.dormant@[i]@;
        assert(texts(swept.dormant@)[i] == path);
        assert(texts(swept.dormant@).contains(path));
        let id = choose|id: u64|
            m.contains_key(id) && still_dormant(#[trigger] m[id], dormant, now) && m[id].path
                == path;
        assert(a.contains_key(id));
        assert(m[id] == a[id]@);
        lemma_goes(a, id, stale, manager, now);
    }
    if 0 <= i < swept.abandoned@.len() {
        let owners = choose|owners: Seq<u64>|
            crate::transaction::registry_laws::are_paths_of_taken(
                paths,
                owners,
                awake,
                abandoned,
                manager,
            );
        let id = owners[i];
        assert(awake.contains_key(owners[i]));
        assert(awake[id] == m[id]);
        assert(a.contains_key(id));
        assert(m[id] == a[id]@);
        assert(taken(m, id, abandoned, manager));
        lemma_goes(a, id, stale, manager, now);
        assert(texts(swept.abandoned@)[i] == swept.abandoned@[i]@);
    }
    if 0 <= i < swept.cancel_ids@.len() {
        let askers = choose|askers: Seq<u64>|
            crate::transaction::registry_laws::are_checks_of_taken(
                ids,
                askers,
                awake,
                abandoned,
                manager,
            );
        let id = askers[i];
        assert(awake.contains_key(askers[i]));
        assert(awake[id] == m[id]);
        assert(a.contains_key(id));
        assert(m[id] == a[id]@);
        assert(m[id].cancellation_id == text_of(a[id].cancellation_id));
        assert(taken(m, id, abandoned, manager));
        lemma_goes(a, id, stale, manager, now);
        assert(texts(swept.cancel_ids@)[i] == swept.cancel_ids@[i]@);
    }
    assert forall|j: int, l: int| 0 <= j < l < swept.dormant@.len() implies (
    #[trigger] swept.dormant@[j])@ != (#[trigger] swept.dormant@[l])@ by {
        assert(texts(swept.dormant@)[j] != texts(swept.dormant@)[l]);
    }
    assert forall|j: int, l: int| 0 <= j < l < swept.abandoned@.len() implies (
    #[trigger] swept.abandoned@[j])@ != (#[trigger] swept.abandoned@[l])@ by {
        assert(texts(swept.abandoned@)[j] != texts(swept.abandoned@)[l]);
    }
}

/// A claim counts from when it was made, or, where that is not recorded, from the object's
/// creation.
pub proof fn law_claim_counts_from_when_it_was_made(c: Candidate, t: Instant)
    requires
        call_ensures(Candidate::claim_start, (&c,), t),
    ensures
        c.claimed_at is Some ==> t == c.claimed_at->0,
        c.claimed_at is None ==> t == c.created_at,
{
}

} // verus!
