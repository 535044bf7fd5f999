//! What holds of the registry across its operations.
use vstd::prelude::*;

use crate::clock::Instant;
use crate::text::decimal;
use crate::transaction::live::{
    claim_abandoned, claim_check, claim_given_up, claim_waits, creation_refused, dormant_too_long,
    entry_wf, law_ids_are_unique, new_entry, numbered_id, owned, path_of, registry_wf, rolled_back,
    LiveView, CLAIM_TIMEOUT, DORMANT_TIMEOUT, MAX_LIVE_PER_UID,
};
use crate::transaction::object::{claim_refused, claimed};
use crate::transaction::reclaim::{
    at_path, distinct_paths, still_abandoned, still_dormant, without_abandoned, without_dormant,
};
use crate::transaction::TransactionManager;

verus! {

/// Every object has a path of its own.
pub proof fn law_paths_are_unique(a: u64, b: u64)
    requires
        path_of(a) == path_of(b),
    ensures
        a == b,
{
    let n = "/io/aosc/Amo/Transaction/"@.len() as int;
    assert(path_of(a).skip(n) =~= decimal(a as nat));
    assert(path_of(b).skip(n) =~= decimal(b as nat));
    crate::text::lemma_decimal_injective(a as nat, b as nat);
}

/// In a well-formed registry no two objects have the same path.
pub proof fn law_registry_has_distinct_paths(m: Map<u64, LiveView>)
    requires
        registry_wf(m),
    ensures
        distinct_paths(m),
{
    assert forall|a: u64, b: u64|
        #![trigger m[a], m[b]]
        m.contains_key(a) && m.contains_key(b) && m[a].path == m[b].path implies a == b by {
        law_paths_are_unique(a, b);
    }
}

/// An operation that is not disturbed finds its claim standing.
pub proof fn law_fresh_claim_stands(
    m: Map<u64, LiveView>,
    id: u64,
    now: Instant,
    generation: Seq<char>,
    cancellation_id: Option<Seq<char>>,
)
    requires
        claim_refused(m, id) is None,
    ensures
        claim_check(
            m.insert(id, claimed(m[id], now, generation, cancellation_id)),
            id,
            generation,
        ) is Ok,
{
}

/// A claim is one operation's: while it stands, no other operation can claim the object.
pub proof fn law_claimed_once(
    m: Map<u64, LiveView>,
    id: u64,
    now: Instant,
    generation: Seq<char>,
    cancellation_id: Option<Seq<char>>,
)
    requires
        claim_refused(m, id) is None,
    ensures
        claim_refused(m.insert(id, claimed(m[id], now, generation, cancellation_id)), id) is Some,
{
}

/// A claim that was given up can be made again.
pub proof fn law_given_up_can_be_claimed(m: Map<u64, LiveView>, id: u64, now: Instant)
    requires
        m.contains_key(id),
    ensures
        claim_refused(m.insert(id, rolled_back(m[id], now)), id) is None,
{
}

/// A claim that was made after another one was given up is neither undone by the other,
/// nor does the other pass for it: the operation that made the other is told that it was
/// replaced.
pub proof fn law_old_claim_does_not_touch_new(
    m: Map<u64, LiveView>,
    id: u64,
    old_count: u64,
    new_count: u64,
    now: Instant,
)
    requires
        m.contains_key(id),
        m[id].started,
        m[id].claim_generation == numbered_id(id, new_count),
        old_count != new_count,
    ensures
        claim_given_up(m, id, numbered_id(id, old_count), now) == m,
        claim_check(m, id, numbered_id(id, old_count)) is Err,
{
    law_ids_are_unique(id, old_count, id, new_count);
}

/// Where a claim no longer stands there is nothing left to give up.
pub proof fn law_lost_claim_leaves_nothing(
    m: Map<u64, LiveView>,
    id: u64,
    generation: Seq<char>,
    now: Instant,
)
    requires
        registry_wf(m),
        generation.len() > 0,
        claim_check(m, id, generation) is Err,
    ensures
        claim_given_up(m, id, generation, now) == m,
{
    if m.contains_key(id) {
        assert(entry_wf(m[id]));
    }
}

/// Giving a claim up twice is giving it up once.
pub proof fn law_giving_up_is_final(
    m: Map<u64, LiveView>,
    id: u64,
    generation: Seq<char>,
    now: Instant,
    later: Instant,
)
    requires
        generation.len() > 0,
    ensures
        claim_given_up(claim_given_up(m, id, generation, now), id, generation, later)
            == claim_given_up(m, id, generation, now),
{
}

/// An object whose claim was given up has the full time again in which it may be dormant,
/// however old it is.
pub proof fn law_given_up_has_full_time(t: LiveView, now: Instant, later: Instant)
    ensures
        dormant_too_long(rolled_back(t, now).dormant_since, t.created_at, later) <==> later.since(
            now,
        ) >= DORMANT_TIMEOUT,
{
}

/// Once its transaction was handed to the scheduler, an object is neither rolled back nor
/// destroyed nor reclaimed, not even in the moment between the end of the transaction and
/// the removal of the object.
pub proof fn law_queued_object_is_safe<T>(
    t: LiveView,
    id: u64,
    manager: TransactionManager<T>,
    now: Instant,
    has_owner: bool,
    claimed_at: Option<Instant>,
    dormant: Seq<Seq<char>>,
)
    requires
        t.started,
        t.enqueued || manager.holds(id),
    ensures
        !claim_waits(t, id, manager),
        !claim_abandoned(t.enqueued || manager.holds(id), t.sender, t.created_at, now, has_owner),
        !still_abandoned(t, id, claimed_at, manager),
        !still_dormant(t, dormant, now),
{
}

/// A claim lasts no longer than its time, whether or not its owner is still there; and
/// before that only the loss of the owner ends it.
pub proof fn law_claims_are_bounded(
    sender: Seq<char>,
    claimed_at: Instant,
    now: Instant,
    has_owner: bool,
)
    ensures
        now.since(claimed_at) >= CLAIM_TIMEOUT ==> claim_abandoned(
            false,
            sender,
            claimed_at,
            now,
            has_owner,
        ),
        now.since(claimed_at) < CLAIM_TIMEOUT && has_owner ==> !claim_abandoned(
            false,
            sender,
            claimed_at,
            now,
            has_owner,
        ),
{
}

/// The object's claim is among those that were judged abandoned, and still is.
pub open spec fn taken<T>(
    m: Map<u64, LiveView>,
    id: u64,
    abandoned: Seq<(Seq<char>, Option<Instant>)>,
    manager: TransactionManager<T>,
) -> bool {
    exists|i: int|
        0 <= i < abandoned.len() && (#[trigger] abandoned[i]).0 == m[id].path && still_abandoned(
            m[id],
            id,
            abandoned[i].1,
            manager,
        )
}

proof fn lemma_taken<T>(
    m: Map<u64, LiveView>,
    abandoned: Seq<(Seq<char>, Option<Instant>)>,
    manager: TransactionManager<T>,
    id: u64,
)
    requires
        distinct_paths(m),
    ensures
        ({
            let left = without_abandoned(m, abandoned, manager).0;
            &&& left.contains_key(id) <==> m.contains_key(id) && !taken(m, id, abandoned, manager)
            &&& left.contains_key(id) ==> left[id] == m[id]
        }),
    decreases abandoned.len(),
{
    if abandoned.len() > 0 {
        let earlier = abandoned.drop_last();
        let left = without_abandoned(m, earlier, manager).0;
        let (path, claimed_at) = abandoned.last();
        let at = choose|at: u64| at_path(left, at, path);
        lemma_taken(m, earlier, manager, id);
        lemma_taken(m, earlier, manager, at);
        if taken(m, id, earlier, manager) {
            let i = choose|i: int|
                0 <= i < earlier.len() && (#[trigger] earlier[i]).0 == m[id].path
                    && still_abandoned(m[id], id, earlier[i].1, manager);
            assert(abandoned[i] == earlier[i]);
            assert(taken(m, id, abandoned, manager));
        } else if m.contains_key(id) {
            if m[id].path == path {
                assert(at_path(left, id, path));
                assert(m[at].path == m[id].path);
                assert(at == id);
            }
            if taken(m, id, abandoned, manager) {
                let i = choose|i: int|
                    0 <= i < abandoned.len() && (#[trigger] abandoned[i]).0 == m[id].path
                        && still_abandoned(m[id], id, abandoned[i].1, manager);
                if i < earlier.len() {
                    assert(earlier[i] == abandoned[i]);
                }
            }
            if m[id].path == path && still_abandoned(m[id], id, claimed_at, manager) {
                assert(abandoned[abandoned.len() - 1].0 == m[id].path);
            }
        }
    }
}

/// A sweep takes out exactly the objects that are dormant for too long and those whose
/// claim is abandoned, and leaves the others as they are. So an object that was claimed
/// anew after it was judged stays, and so does one whose transaction was queued.
pub proof fn law_sweep_takes_the_stale<T>(
    m: Map<u64, LiveView>,
    dormant: Seq<Seq<char>>,
    abandoned: Seq<(Seq<char>, Option<Instant>)>,
    manager: TransactionManager<T>,
    now: Instant,
    id: u64,
)
    requires
        distinct_paths(m),
    ensures
        ({
            let left = without_abandoned(without_dormant(m, dormant, now), abandoned, manager).0;
            &&& left.contains_key(id) <==> m.contains_key(id) && !still_dormant(m[id], dormant, now)
                && !taken(m, id, abandoned, manager)
            &&& left.contains_key(id) ==> left[id] == m[id]
        }),
{
    let awake = without_dormant(m, dormant, now);
    assert(distinct_paths(awake));
    lemma_taken(awake, abandoned, manager, id);
    if awake.contains_key(id) {
        assert(awake[id] == m[id]);
        assert(taken(awake, id, abandoned, manager) == taken(m, id, abandoned, manager));
    }
}

/// Whatever a sweep takes out for an abandoned claim it hands back: the path of the object,
/// which is to leave the bus, and the id of the authorization check, which is to be called
/// off.
pub proof fn law_sweep_hands_back_what_it_takes<T>(
    m: Map<u64, LiveView>,
    abandoned: Seq<(Seq<char>, Option<Instant>)>,
    manager: TransactionManager<T>,
    id: u64,
)
    requires
        distinct_paths(m),
        m.contains_key(id),
        taken(m, id, abandoned, manager),
    ensures
        ({
            let (left, paths, ids) = without_abandoned(m, abandoned, manager);
            &&& paths.contains(m[id].path)
            &&& m[id].cancellation_id is Some ==> ids.contains(m[id].cancellation_id->0)
        }),
    decreases abandoned.len(),
{
    let earlier = abandoned.drop_last();
    let (left, paths, ids) = without_abandoned(m, earlier, manager);
    let (all_left, all_paths, all_ids) = without_abandoned(m, abandoned, manager);
    let (path, claimed_at) = abandoned.last();
    let at = choose|at: u64| at_path(left, at, path);
    if taken(m, id, earlier, manager) {
        law_sweep_hands_back_what_it_takes(m, earlier, manager, id);
        let i = choose|i: int| 0 <= i < paths.len() && paths[i] == m[id].path;
        assert(all_paths[i] == m[id].path);
        if m[id].cancellation_id is Some {
            let j = choose|j: int| 0 <= j < ids.len() && ids[j] == m[id].cancellation_id->0;
            assert(all_ids[j] == m[id].cancellation_id->0);
        }
    } else {
        let i = choose|i: int|
            0 <= i < abandoned.len() && (#[trigger] abandoned[i]).0 == m[id].path
                && still_abandoned(m[id], id, abandoned[i].1, manager);
        if i < earlier.len() {
            assert(earlier[i] == abandoned[i]);
            assert(false);
        }
        lemma_taken(m, earlier, manager, id);
        lemma_taken(m, earlier, manager, at);
        assert(at_path(left, id, path));
        assert(m[at].path == m[id].path);
        assert(at == id);
        assert(all_paths.last() == path);
        if m[id].cancellation_id is Some {
            assert(all_ids.last() == m[id].cancellation_id->0);
        }
    }
}

/// The paths are those of the objects, one for each, and each of the objects was taken.
pub open spec fn are_paths_of_taken<T>(
    paths: Seq<Seq<char>>,
    owners: Seq<u64>,
    m: Map<u64, LiveView>,
    abandoned: Seq<(Seq<char>, Option<Instant>)>,
    manager: TransactionManager<T>,
) -> bool {
    &&& owners.no_duplicates()
    &&& owners.len() == paths.len()
    &&& forall|i: int|
        0 <= i < owners.len() ==> m.contains_key(#[trigger] owners[i]) && taken(
            m,
            owners[i],
            abandoned,
            manager,
        ) && paths[i] == m[owners[i]].path
}

/// The ids are those of the objects' authorization checks, one for each, and each of the
/// objects was taken.
pub open spec fn are_checks_of_taken<T>(
    ids: Seq<Seq<char>>,
    askers: Seq<u64>,
    m: Map<u64, LiveView>,
    abandoned: Seq<(Seq<char>, Option<Instant>)>,
    manager: TransactionManager<T>,
) -> bool {
    &&& askers.no_duplicates()
    &&& askers.len() == ids.len()
    &&& forall|i: int|
        0 <= i < askers.len() ==> m.contains_key(#[trigger] askers[i]) && taken(
            m,
            askers[i],
            abandoned,
            manager,
        ) && m[askers[i]].cancellation_id == Some(ids[i])
}

/// A sweep hands back nothing else for abandoned claims: each path is that of an object that
/// it took out, each id that of the authorization check of such an object, and each object
/// is handed back once.
pub proof fn law_sweep_hands_back_only_what_it_takes<T>(
    m: Map<u64, LiveView>,
    abandoned: Seq<(Seq<char>, Option<Instant>)>,
    manager: TransactionManager<T>,
)
    requires
        distinct_paths(m),
    ensures
        ({
            let (left, paths, ids) = without_abandoned(m, abandoned, manager);
            &&& paths.no_duplicates()
            &&& exists|owners: Seq<u64>| are_paths_of_taken(paths, owners, m, abandoned, manager)
            &&& exists|askers: Seq<u64>| are_checks_of_taken(ids, askers, m, abandoned, manager)
        }),
{
    let (left, paths, ids) = without_abandoned(m, abandoned, manager);
    let (owners, askers) = lemma_handed_back(m, abandoned, manager);
    assert(are_paths_of_taken(paths, owners, m, abandoned, manager));
    assert(are_checks_of_taken(ids, askers, m, abandoned, manager));
    assert forall|i: int, j: int| 0 <= i < j < paths.len() implies paths[i] != paths[j] by {
        assert(m.contains_key(owners[i]) && m.contains_key(owners[j]));
        assert(owners[i] != owners[j]);
    }
}

proof fn lemma_handed_back<T>(
    m: Map<u64, LiveView>,
    abandoned: Seq<(Seq<char>, Option<Instant>)>,
    manager: TransactionManager<T>,
) -> (r: (Seq<u64>, Seq<u64>))
    requires
        distinct_paths(m),
    ensures
        ({
            let (left, paths, ids) = without_abandoned(m, abandoned, manager);
            &&& are_paths_of_taken(paths, r.0, m, abandoned, manager)
            &&& are_checks_of_taken(ids, r.1, m, abandoned, manager)
        }),
    decreases abandoned.len(),
{
    if abandoned.len() == 0 {
        (Seq::empty(), Seq::empty())
    } else {
        let earlier = abandoned.drop_last();
        let (left, paths, ids) = without_abandoned(m, earlier, manager);
        let (owners, askers) = lemma_handed_back(m, earlier, manager);
        let (path, claimed_at) = abandoned.last();
        let at = choose|at: u64| at_path(left, at, path);
        lemma_taken(m, earlier, manager, at);
        assert forall|id: u64| taken(m, id, earlier, manager) implies #[trigger] taken(
            m,
            id,
            abandoned,
            manager,
        ) by {
            let i = choose|i: int|
                0 <= i < earlier.len() && (#[trigger] earlier[i]).0 == m[id].path
                    && still_abandoned(m[id], id, earlier[i].1, manager);
            assert(abandoned[i] == earlier[i]);
        }
        if at_path(left, at, path) && still_abandoned(left[at], at, claimed_at, manager) {
            assert(abandoned[abandoned.len() - 1] == (path, claimed_at));
            assert(taken(m, at, abandoned, manager));
            assert(!owners.contains(at));
            assert(!askers.contains(at));
            (
                owners.push(at),
                if left[at].cancellation_id is Some {
                    askers.push(at)
                } else {
                    askers
                },
            )
        } else {
            (owners, askers)
        }
    }
}

proof fn lemma_owned_same(m: Map<u64, LiveView>, id: u64, t: LiveView, uid: u32)
    requires
        m.contains_key(id),
        m[id].uid == t.uid,
    ensures
        owned(m.insert(id, t), uid) == owned(m, uid),
{
    let n = m.insert(id, t);
    assert(n.dom() =~= m.dom());
    assert(n.dom().filter(|k: u64| n[k].uid == uid) =~= m.dom().filter(|k: u64| m[k].uid == uid));
}

proof fn lemma_entry_replaced(m: Map<u64, LiveView>, id: u64, t: LiveView)
    requires
        registry_wf(m),
        m.contains_key(id),
        m[id].uid == t.uid,
        m[id].path == t.path,
        entry_wf(t),
    ensures
        registry_wf(m.insert(id, t)),
{
    let n = m.insert(id, t);
    assert(n.dom() =~= m.dom());
    assert forall|uid: u32| #[trigger] owned(n, uid) <= MAX_LIVE_PER_UID by {
        lemma_owned_same(m, id, t, uid);
        assert(owned(m, uid) <= MAX_LIVE_PER_UID);
    }
    assert forall|k: u64| #[trigger] n.contains_key(k) implies n[k].path == path_of(k) && entry_wf(
        n[k],
    ) by {
        assert(m.contains_key(k));
    }
}

/// Claiming, giving up and queueing keep the registry well formed.
pub proof fn law_claims_keep_the_registry(
    m: Map<u64, LiveView>,
    id: u64,
    now: Instant,
    generation: Seq<char>,
    cancellation_id: Option<Seq<char>>,
)
    requires
        registry_wf(m),
        m.contains_key(id),
        generation.len() > 0,
    ensures
        !m[id].started ==> registry_wf(
            m.insert(id, claimed(m[id], now, generation, cancellation_id)),
        ),
        !m[id].enqueued ==> registry_wf(m.insert(id, rolled_back(m[id], now))),
        m[id].started ==> registry_wf(m.insert(id, (LiveView { enqueued: true, ..m[id] }))),
{
    assert(entry_wf(m[id]));
    if !m[id].started {
        lemma_entry_replaced(m, id, claimed(m[id], now, generation, cancellation_id));
    } else {
        lemma_entry_replaced(m, id, LiveView { enqueued: true, ..m[id] });
    }
    if !m[id].enqueued {
        lemma_entry_replaced(m, id, rolled_back(m[id], now));
    }
}

/// Creating an object keeps the registry well formed: there are never more objects than
/// allowed, neither in all nor of one user.
pub proof fn law_creation_keeps_the_limits(
    m: Map<u64, LiveView>,
    id: u64,
    uid: u32,
    sender: Seq<char>,
    now: Instant,
)
    requires
        registry_wf(m),
        !m.contains_key(id),
        creation_refused(m, uid) is None,
    ensures
        registry_wf(m.insert(id, new_entry(id, uid, sender, now))),
{
    let t = new_entry(id, uid, sender, now);
    let n = m.insert(id, t);
    assert(n.dom() =~= m.dom().insert(id));
    assert forall|u: u32| #[trigger] owned(n, u) <= MAX_LIVE_PER_UID by {
        assert(owned(m, u) <= MAX_LIVE_PER_UID);
        let before = m.dom().filter(|k: u64| m[k].uid == u);
        let after = n.dom().filter(|k: u64| n[k].uid == u);
        if u == uid {
            assert(after =~= before.insert(id));
        } else {
            assert(after =~= before);
        }
    }
    assert forall|k: u64| #[trigger] n.contains_key(k) implies n[k].path == path_of(k) && entry_wf(
        n[k],
    ) by {
        if k != id {
            assert(m.contains_key(k));
        }
    }
}

/// Taking objects out keeps the registry well formed.
pub proof fn law_removal_keeps_the_registry(m: Map<u64, LiveView>, left: Map<u64, LiveView>)
    requires
        registry_wf(m),
        crate::transaction::reclaim::is_part(left, m),
    ensures
        registry_wf(left),
{
    assert forall|id: u64| left.dom().contains(id) implies m.dom().contains(id) by {
        assert(left.contains_key(id));
    }
    assert(left.dom().subset_of(m.dom()));
    vstd::set_lib::lemma_len_subset(left.dom(), m.dom());
    assert forall|u: u32| #[trigger] owned(left, u) <= MAX_LIVE_PER_UID by {
        assert(owned(m, u) <= MAX_LIVE_PER_UID);
        let before = m.dom().filter(|k: u64| m[k].uid == u);
        let after = left.dom().filter(|k: u64| left[k].uid == u);
        assert forall|k: u64| after.contains(k) implies before.contains(k) by {
            assert(left.contains_key(k));
        }
        assert(after.subset_of(before));
        vstd::set_lib::lemma_len_subset(after, before);
    }
    assert forall|k: u64| #[trigger] left.contains_key(k) implies left[k].path == path_of(k)
        && entry_wf(left[k]) by {
        assert(m.contains_key(k));
    }
}

} // verus!
