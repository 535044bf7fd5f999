//! Reclaiming objects that nobody goes on with: candidates are noted under the
//! registry's lock, judged without it, and removed under it if the judgement still
//! holds.
use std::collections::HashMap;
use vstd::prelude::*;

use crate::clock::Instant;
use crate::text::texts;
use crate::transaction::live::{
    claim_abandoned, claim_expired, claim_still_abandoned, dormant_expired, dormant_too_long,
    entries, ids_of, owner_decides, LiveTransaction, LiveView,
};
use crate::transaction::TransactionManager;

verus! {

broadcast use vstd::std_specs::hash::group_hash_axioms;

/// What is noted of an entry, to be judged without the registry's lock.
pub struct Candidate {
    pub id: u64,
    pub path: String,
    pub sender: String,
    pub started: bool,
    pub enqueued: bool,
    pub created_at: Instant,
    pub claimed_at: Option<Instant>,
    pub dormant_since: Option<Instant>,
}

impl Candidate {
    /// The candidate says of the object what its entry says.
    pub open spec fn notes(self, m: Map<u64, LiveView>) -> bool {
        &&& m.contains_key(self.id)
        &&& self.path@ == m[self.id].path
        &&& self.sender@ == m[self.id].sender
        &&& self.started == m[self.id].started
        &&& self.enqueued == m[self.id].enqueued
        &&& self.created_at == m[self.id].created_at
        &&& self.claimed_at == m[self.id].claimed_at
        &&& self.dormant_since == m[self.id].dormant_since
    }

    /// When the claim was made; where that is not recorded, the object's creation counts.
    pub open spec fn claim_time(self) -> Instant {
        match self.claimed_at {
            Some(t) => t,
            None => self.created_at,
        }
    }

    pub fn claim_start(&self) -> (t: Instant)
        ensures
            t == self.claim_time(),
    {
        match self.claimed_at {
            Some(t) => t,
            None => self.created_at,
        }
    }

    /// The object is dormant, and has been for too long.
    pub open spec fn overslept(self, now: Instant) -> bool {
        !self.started && dormant_too_long(self.dormant_since, self.created_at, now)
    }

    /// The object is claimed, and the claim is abandoned.
    pub open spec fn abandoned<T>(
        self,
        manager: TransactionManager<T>,
        now: Instant,
        has_owner: bool,
    ) -> bool {
        self.started && claim_abandoned(
            self.enqueued || manager.holds(self.id),
            self.sender@,
            self.claim_time(),
            now,
            has_owner,
        )
    }
}

impl Candidate {
    /// Whether the bus has to be asked for the object's owner before it can be judged.
    pub fn asks_for_owner<T>(&self, manager: &TransactionManager<T>, now: Instant) -> (b: bool)
        ensures
            b == (self.abandoned(*manager, now, true) != self.abandoned(*manager, now, false)),
    {
        self.started && owner_decides(
            manager,
            self.enqueued,
            self.id,
            self.sender.as_str(),
            self.claim_start(),
            now,
        )
    }
}

/// There is a note on the object.
pub open spec fn is_noted(candidates: Seq<Candidate>, id: u64) -> bool {
    exists|i: int| 0 <= i < candidates.len() && (#[trigger] candidates[i]).id == id
}

/// Notes every entry of the registry once.
pub fn snapshot(live: &HashMap<u64, LiveTransaction>) -> (candidates: Vec<Candidate>)
    ensures
        forall|i: int|
            0 <= i < candidates@.len() ==> (#[trigger] candidates@[i]).notes(entries(live@)),
        forall|id: u64| #[trigger]
            live@.contains_key(id) ==> exists|i: int|
                0 <= i < candidates@.len() && (#[trigger] candidates@[i]).id == id,
        forall|id: u64|
            entries(live@).contains_key(id) ==> #[trigger] is_noted(candidates@, id),
        forall|i: int, j: int|
            0 <= i < j < candidates@.len() ==> (#[trigger] candidates@[i]).id != (
            #[trigger] candidates@[j]).id,
{
    let ids = ids_of(live);
    let mut candidates: Vec<Candidate> = Vec::new();
    let mut n: usize = 0;
    while n < ids.len()
        invariant
            n <= ids.len(),
            ids@.no_duplicates(),
            forall|id: u64| ids@.contains(id) <==> live@.contains_key(id),
            candidates.len() == n,
            forall|i: int|
                0 <= i < n ==> (#[trigger] candidates@[i]).notes(entries(live@))
                    && candidates@[i].id == ids@[i],
        decreases ids.len() - n,
    {
        let id: u64 = ids[n];
        assert(ids@.contains(ids@[n as int]));
        let t = live.get(&id).unwrap();
        candidates.push(
            Candidate {
                id,
                path: t.path.clone(),
                sender: t.sender.clone(),
                started: t.started,
                enqueued: t.enqueued,
                created_at: t.created_at,
                claimed_at: t.claimed_at,
                dormant_since: t.dormant_since,
            },
        );
        n = n + 1;
    }
    proof {
        assert forall|id: u64| #[trigger] live@.contains_key(id) implies exists|i: int|
            0 <= i < candidates@.len() && (#[trigger] candidates@[i]).id == id by {
            assert(ids@.contains(id));
            let i = choose|i: int| 0 <= i < ids@.len() && ids@[i] == id;
            assert(candidates@[i].id == id);
        }
        assert forall|id: u64| entries(live@).contains_key(id) implies #[trigger] is_noted(
            candidates@,
            id,
        ) by {
            assert(live@.contains_key(id));
        }
        assert forall|i: int, j: int| 0 <= i < j < candidates@.len() implies (
        #[trigger] candidates@[i]).id != (#[trigger] candidates@[j]).id by {
            assert(ids@[i] != ids@[j]);
        }
    }
    candidates
}

/// The objects that were judged stale: dormant ones by path, abandoned ones by path and
/// the time of the claim that was judged.
pub struct Stale {
    pub dormant: Vec<String>,
    pub abandoned: Vec<(String, Option<Instant>)>,
}

/// The texts of a list of claims.
pub open spec fn claims(s: Seq<(String, Option<Instant>)>) -> Seq<(Seq<char>, Option<Instant>)> {
    s.map_values(|c: (String, Option<Instant>)| (c.0@, c.1))
}

/// The paths of the candidates that have been dormant for too long, in order.
pub open spec fn judged_dormant(s: Seq<(Candidate, bool)>, now: Instant) -> Seq<Seq<char>>
    decreases s.len(),
{
    if s.len() == 0 {
        Seq::empty()
    } else if s.last().0.overslept(now) {
        judged_dormant(s.drop_last(), now).push(s.last().0.path@)
    } else {
        judged_dormant(s.drop_last(), now)
    }
}

/// The candidates whose claim is abandoned, in order.
pub open spec fn judged_abandoned<T>(
    s: Seq<(Candidate, bool)>,
    manager: TransactionManager<T>,
    now: Instant,
) -> Seq<(Seq<char>, Option<Instant>)>
    decreases s.len(),
{
    if s.len() == 0 {
        Seq::empty()
    } else if s.last().0.abandoned(manager, now, s.last().1) {
        judged_abandoned(s.drop_last(), manager, now).push(
            (s.last().0.path@, s.last().0.claimed_at),
        )
    } else {
        judged_abandoned(s.drop_last(), manager, now)
    }
}

/// Judges the candidates. Beside each stands what the bus says of its owner.
pub fn judge<T>(
    candidates: &Vec<(Candidate, bool)>,
    manager: &TransactionManager<T>,
    now: Instant,
) -> (stale: Stale)
    ensures
        texts(stale.dormant@) == judged_dormant(candidates@, now),
        claims(stale.abandoned@) == judged_abandoned(candidates@, *manager, now),
{
    let mut dormant: Vec<String> = Vec::new();
    let mut abandoned: Vec<(String, Option<Instant>)> = Vec::new();
    let mut n: usize = 0;
    while n < candidates.len()
        invariant
            n <= candidates.len(),
            texts(dormant@) == judged_dormant(candidates@.subrange(0, n as int), now),
            claims(abandoned@) == judged_abandoned(
                candidates@.subrange(0, n as int),
                *manager,
                now,
            ),
        decreases candidates.len() - n,
    {
        let ghost upto = candidates@.subrange(0, n + 1);
        assert(upto.drop_last() =~= candidates@.subrange(0, n as int));
        let c = &candidates[n].0;
        if !c.started {
            if dormant_expired(c.dormant_since, c.created_at, now) {
                let ghost before = dormant@;
                dormant.push(c.path.clone());
                assert(texts(dormant@) =~= texts(before).push(c.path@));
            }
        } else if claim_expired(
            manager,
            c.enqueued,
            c.id,
            c.sender.as_str(),
            c.claim_start(),
            now,
            candidates[n].1,
        ) {
            let ghost before = abandoned@;
            abandoned.push((c.path.clone(), c.claimed_at));
            assert(claims(abandoned@) =~= claims(before).push((c.path@, c.claimed_at)));
        }
        n = n + 1;
    }
    assert(candidates@.subrange(0, candidates.len() as int) =~= candidates@);
    Stale { dormant, abandoned }
}

/// Every entry of `a` stands in `b`.
pub open spec fn is_part(a: Map<u64, LiveView>, b: Map<u64, LiveView>) -> bool {
    forall|id: u64| #[trigger] a.contains_key(id) ==> b.contains_key(id) && a[id] == b[id]
}

/// No two objects have the same path.
pub open spec fn distinct_paths(m: Map<u64, LiveView>) -> bool {
    forall|a: u64, b: u64|
        #![trigger m[a], m[b]]
        m.contains_key(a) && m.contains_key(b) && m[a].path == m[b].path ==> a == b
}

/// The object was judged to have been dormant for too long, and still is dormant for too
/// long.
pub open spec fn still_dormant(t: LiveView, dormant: Seq<Seq<char>>, now: Instant) -> bool {
    dormant.contains(t.path) && !t.started && dormant_too_long(t.dormant_since, t.created_at, now)
}

/// The registry without the objects that are dormant for too long.
pub open spec fn without_dormant(
    m: Map<u64, LiveView>,
    dormant: Seq<Seq<char>>,
    now: Instant,
) -> Map<u64, LiveView> {
    m.remove_keys(m.dom().filter(|id: u64| still_dormant(m[id], dormant, now)))
}

/// The paths are those of the objects that are dormant for too long, each once.
pub open spec fn lists_dormant(
    paths: Seq<Seq<char>>,
    m: Map<u64, LiveView>,
    dormant: Seq<Seq<char>>,
    now: Instant,
) -> bool {
    &&& paths.no_duplicates()
    &&& forall|path: Seq<char>| #[trigger]
        paths.contains(path) <==> exists|id: u64|
            m.contains_key(id) && still_dormant(#[trigger] m[id], dormant, now) && m[id].path == path
}

/// The claim that was judged abandoned is still the object's, and its transaction is
/// not queued.
pub open spec fn still_abandoned<T>(
    t: LiveView,
    id: u64,
    claimed_at: Option<Instant>,
    manager: TransactionManager<T>,
) -> bool {
    !t.enqueued && t.claimed_at == claimed_at && !manager.holds(id)
}

/// An object has the path.
pub open spec fn at_path(m: Map<u64, LiveView>, id: u64, path: Seq<char>) -> bool {
    m.contains_key(id) && m[id].path == path
}

/// What is left of the registry, and what was taken out, when the claims that were judged
/// abandoned are gone through in order: the registry, the paths of the objects taken
/// out, and the ids of their authorization checks.
pub open spec fn without_abandoned<T>(
    m: Map<u64, LiveView>,
    abandoned: Seq<(Seq<char>, Option<Instant>)>,
    manager: TransactionManager<T>,
) -> (Map<u64, LiveView>, Seq<Seq<char>>, Seq<Seq<char>>)
    decreases abandoned.len(),
{
    if abandoned.len() == 0 {
        (m, Seq::empty(), Seq::empty())
    } else {
        let (left, paths, ids) = without_abandoned(m, abandoned.drop_last(), manager);
        let (path, claimed_at) = abandoned.last();
        let id = choose|id: u64| at_path(left, id, path);
        if at_path(left, id, path) && still_abandoned(left[id], id, claimed_at, manager) {
            (
                left.remove(id),
                paths.push(path),
                match left[id].cancellation_id {
                    Some(cid) => ids.push(cid),
                    None => ids,
                },
            )
        } else {
            (left, paths, ids)
        }
    }
}

/// The object at a path.
fn find_by_path(live: &HashMap<u64, LiveTransaction>, path: &String) -> (r: Option<u64>)
    ensures
        match r {
            Some(id) => at_path(entries(live@), id, path@),
            None => forall|id: u64| !at_path(entries(live@), id, path@),
        },
{
    let ids = ids_of(live);
    let mut n: usize = 0;
    while n < ids.len()
        invariant
            n <= ids.len(),
            forall|id: u64| ids@.contains(id) <==> live@.contains_key(id),
            forall|j: int| 0 <= j < n ==> !at_path(entries(live@), #[trigger] ids@[j], path@),
        decreases ids.len() - n,
    {
        let id: u64 = ids[n];
        assert(ids@.contains(ids@[n as int]));
        if live.get(&id).unwrap().path == *path {
            return Some(id);
        }
        n = n + 1;
    }
    proof {
        assert forall|id: u64| !at_path(entries(live@), id, path@) by {
            if live@.contains_key(id) {
                assert(ids@.contains(id));
                let j = choose|j: int| 0 <= j < ids@.len() && ids@[j] == id;
                assert(!at_path(entries(live@), ids@[j], path@));
            }
        }
    }
    None
}

fn contains_text(list: &Vec<String>, text: &String) -> (b: bool)
    ensures
        b == texts(list@).contains(text@),
{
    let mut n: usize = 0;
    while n < list.len()
        invariant
            n <= list.len(),
            forall|j: int| 0 <= j < n ==> #[trigger] list@[j]@ != text@,
        decreases list.len() - n,
    {
        if list[n] == *text {
            assert(texts(list@)[n as int] == text@);
            return true;
        }
        n = n + 1;
    }
    proof {
        if texts(list@).contains(text@) {
            let j = choose|j: int| 0 <= j < texts(list@).len() && texts(list@)[j] == text@;
            assert(list@[j]@ == text@);
        }
    }
    false
}

/// Takes out the objects that are dormant for too long.
fn sweep_dormant(
    live: &mut HashMap<u64, LiveTransaction>,
    dormant: &Vec<String>,
    now: Instant,
) -> (removed: Vec<String>)
    ensures
        entries(final(live)@) == without_dormant(entries(old(live)@), texts(dormant@), now),
        distinct_paths(entries(old(live)@)) ==> lists_dormant(
            texts(removed@),
            entries(old(live)@),
            texts(dormant@),
            now,
        ),
{
    let ghost m = entries(live@);
    let ghost d = texts(dormant@);
    let ids = ids_of(live);
    let mut removed: Vec<String> = Vec::new();
    let ghost mut owners: Seq<u64> = Seq::empty();
    let mut n: usize = 0;
    while n < ids.len()
        invariant
            n <= ids.len(),
            m == entries(old(live)@),
            d == texts(dormant@),
            ids@.no_duplicates(),
            forall|id: u64| ids@.contains(id) <==> m.contains_key(id),
            forall|id: u64|
                entries(live@).contains_key(id) <==> m.contains_key(id) && !(ids@.subrange(
                    0,
                    n as int,
                ).contains(id) && still_dormant(m[id], d, now)),
            forall|id: u64|
                entries(live@).contains_key(id) ==> #[trigger] entries(live@)[id] == m[id],
            owners.len() == removed.len(),
            forall|i: int| #![trigger owners[i]] #![trigger removed@[i]]
                0 <= i < owners.len() ==> ids@.subrange(0, n as int).contains(owners[i])
                    && still_dormant(m[owners[i]], d, now) && removed@[i]@ == m[owners[i]].path,
            owners.no_duplicates(),
            forall|id: u64|
                ids@.subrange(0, n as int).contains(id) && still_dormant(m[id], d, now)
                    ==> #[trigger] owners.contains(id),
        decreases ids.len() - n,
    {
        let id: u64 = ids[n];
        let ghost seen = ids@.subrange(0, n as int);
        let ghost upto = ids@.subrange(0, n + 1);
        proof {
            assert(ids@.contains(ids@[n as int]));
            assert(upto =~= seen.push(id));
            assert forall|other: u64| upto.contains(other) <==> (seen.contains(other) || other
                == id) by {
                if seen.contains(other) {
                    let i = choose|i: int| 0 <= i < seen.len() && seen[i] == other;
                    assert(upto[i] == other);
                }
                assert(upto[n as int] == id);
            }
            assert(!seen.contains(id)) by {
                if seen.contains(id) {
                    let i = choose|i: int| 0 <= i < seen.len() && seen[i] == id;
                    assert(ids@[i] == ids@[n as int]);
                }
            }
            assert(entries(live@).contains_key(id));
            assert(entries(live@)[id] == m[id]);
            assert(live@.contains_key(id));
        }
        let (stale, path) = {
            let t = live.get(&id).unwrap();
            (
                contains_text(dormant, &t.path) && !t.started && dormant_expired(
                    t.dormant_since,
                    t.created_at,
                    now,
                ),
                t.path.clone(),
            )
        };
        if stale {
            let ghost before = live@;
            live.remove(&id);
            removed.push(path);
            proof {
                assert(!owners.contains(id)) by {
                    if owners.contains(id) {
                        let i = choose|i: int| 0 <= i < owners.len() && owners[i] == id;
                        assert(seen.contains(owners[i]));
                    }
                }
                let earlier = owners;
                owners = owners.push(id);
                assert(owners[earlier.len() as int] == id);
                assert forall|other: u64|
                    upto.contains(other) && still_dormant(m[other], d, now) implies #[trigger]
                    owners.contains(other) by {
                    if other != id {
                        assert(earlier.contains(other));
                        let i = choose|i: int| 0 <= i < earlier.len() && earlier[i] == other;
                        assert(owners[i] == other);
                    }
                }
                assert(entries(live@) =~= entries(before).remove(id));
            }
        }
        n = n + 1;
    }
    proof {
        assert(ids@.subrange(0, ids.len() as int) =~= ids@);
        assert(entries(live@) =~= without_dormant(m, d, now));
        if distinct_paths(m) {
            let paths = texts(removed@);
            assert forall|i: int, j: int| 0 <= i < paths.len() && 0 <= j < paths.len() && i
                != j implies paths[i] != paths[j] by {
                assert(owners[i] != owners[j]);
                assert(removed@[i]@ == m[owners[i]].path && removed@[j]@ == m[owners[j]].path);
            }
            assert forall|path: Seq<char>| #[trigger] paths.contains(path) <==> exists|id: u64|
                m.contains_key(id) && still_dormant(#[trigger] m[id], d, now) && m[id].path
                    == path by {
                if paths.contains(path) {
                    let i = choose|i: int| 0 <= i < paths.len() && paths[i] == path;
                    assert(removed@[i]@ == path);
                    assert(m.contains_key(owners[i]));
                    assert(still_dormant(m[owners[i]], d, now));
                }
                if exists|id: u64|
                    m.contains_key(id) && still_dormant(#[trigger] m[id], d, now) && m[id].path
                        == path {
                    let id = choose|id: u64|
                        m.contains_key(id) && still_dormant(#[trigger] m[id], d, now) && m[id].path
                            == path;
                    assert(owners.contains(id));
                    let i = choose|i: int| 0 <= i < owners.len() && owners[i] == id;
                    assert(paths[i] == path);
                }
            }
        }
    }
    removed
}

/// Taking objects out leaves the paths of the others distinct.
proof fn lemma_left_over<T>(
    m: Map<u64, LiveView>,
    abandoned: Seq<(Seq<char>, Option<Instant>)>,
    manager: TransactionManager<T>,
)
    ensures
        is_part(without_abandoned(m, abandoned, manager).0, m),
        distinct_paths(m) ==> distinct_paths(without_abandoned(m, abandoned, manager).0),
    decreases abandoned.len(),
{
    if abandoned.len() > 0 {
        lemma_left_over(m, abandoned.drop_last(), manager);
    }
}

/// Takes out the objects whose claim is still abandoned.
fn sweep_abandoned<T>(
    live: &mut HashMap<u64, LiveTransaction>,
    abandoned: &Vec<(String, Option<Instant>)>,
    manager: &TransactionManager<T>,
) -> (r: (Vec<String>, Vec<String>))
    ensures
        is_part(entries(final(live)@), entries(old(live)@)),
        distinct_paths(entries(old(live)@)) ==> (entries(final(live)@), texts(r.0@), texts(r.1@))
            == without_abandoned(entries(old(live)@), claims(abandoned@), *manager),
{
    let ghost m = entries(live@);
    let ghost all = claims(abandoned@);
    let mut removed: Vec<String> = Vec::new();
    let mut cancel_ids: Vec<String> = Vec::new();
    let mut n: usize = 0;
    assert(texts(removed@) =~= Seq::empty());
    while n < abandoned.len()
        invariant
            n <= abandoned.len(),
            all == claims(abandoned@),
            m == entries(old(live)@),
            is_part(entries(live@), m),
            distinct_paths(m) ==> (entries(live@), texts(removed@), texts(cancel_ids@))
                == without_abandoned(m, all.subrange(0, n as int), *manager),
        decreases abandoned.len() - n,
    {
        let ghost upto = all.subrange(0, n + 1);
        let ghost left = entries(live@);
        let ghost (paths, ids) = (texts(removed@), texts(cancel_ids@));
        proof {
            assert(upto.drop_last() =~= all.subrange(0, n as int));
            assert(upto.last() == (abandoned@[n as int].0@, abandoned@[n as int].1));
            lemma_left_over(m, all.subrange(0, n as int), *manager);
        }
        match find_by_path(live, &abandoned[n].0) {
            Some(id) => {
                let ghost chosen = choose|other: u64| at_path(left, other, abandoned@[n as int].0@);
                proof {
                    assert(at_path(left, id, abandoned@[n as int].0@));
                    if distinct_paths(m) {
                        assert(left[chosen].path == left[id].path);
                        assert(chosen == id);
                    }
                }
                let doomed = {
                    let t = live.get(&id).unwrap();
                    claim_still_abandoned(manager, t.claimed_at, abandoned[n].1, t.enqueued, id)
                };
                if doomed {
                    let ghost before = live@;
                    let t = live.remove(&id).unwrap();
                    assert(entries(live@) =~= left.remove(id));
                    assert(t == before[id]);
                    assert(t@ == left[id]);
                    removed.push(t.path);
                    assert(texts(removed@) =~= paths.push(left[id].path));
                    match t.cancellation_id {
                        Some(cid) => {
                            cancel_ids.push(cid);
                            assert(texts(cancel_ids@) =~= ids.push(cid@));
                        },
                        None => {},
                    }
                }
            },
            None => {},
        }
        n = n + 1;
    }
    assert(all.subrange(0, all.len() as int) =~= all);
    (removed, cancel_ids)
}

/// What was taken out of the registry.
pub struct Swept {
    /// The paths of the objects that were dormant for too long.
    pub dormant: Vec<String>,
    /// The paths of the objects whose claim was abandoned.
    pub abandoned: Vec<String>,
    /// The ids of authorization checks that are to be called off.
    pub cancel_ids: Vec<String>,
}

/// Takes the objects that were judged stale out of the registry, as far as the judgement
/// still holds.
pub fn sweep<T>(
    live: &mut HashMap<u64, LiveTransaction>,
    manager: &TransactionManager<T>,
    stale: &Stale,
    now: Instant,
) -> (swept: Swept)
    ensures
        is_part(entries(final(live)@), entries(old(live)@)),
        distinct_paths(entries(old(live)@)) ==> {
            let awake = without_dormant(entries(old(live)@), texts(stale.dormant@), now);
            &&& lists_dormant(
                texts(swept.dormant@),
                entries(old(live)@),
                texts(stale.dormant@),
                now,
            )
            &&& (
                entries(final(live)@),
                texts(swept.abandoned@),
                texts(swept.cancel_ids@),
            ) == without_abandoned(awake, claims(stale.abandoned@), *manager)
        },
{
    let ghost m = entries(live@);
    let dormant = sweep_dormant(live, &stale.dormant, now);
    proof {
        let awake = without_dormant(m, texts(stale.dormant@), now);
        assert(is_part(awake, m));
        assert(distinct_paths(m) ==> distinct_paths(awake));
    }
    let (abandoned, cancel_ids) = sweep_abandoned(live, &stale.abandoned, manager);
    Swept { dormant, abandoned, cancel_ids }
}

} // verus!
