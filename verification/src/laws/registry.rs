//! The registry of transaction objects: what each operation does to the entry that it is about,
//! and that it leaves the others alone.
use std::collections::HashMap;
use vstd::prelude::*;

use crate::clock::Instant;
use crate::error::{ErrorKind, ServiceError};
use crate::laws::text::{law_decimal_spells_its_number, spells};
use crate::text::{decimal, text_of};
use crate::transaction::live::{
    check_claim_still_active, claim_expired, claim_still_abandoned, create_transaction,
    dormant_expired, entries, is_bus_name, law_ids_are_unique, next_cancellation_id,
    next_claim_generation, object_path, owned, owner_decides, remove_for_destroy,
    rollback_claim_if_not_enqueued, ClaimRollback, IdCounter, LiveTransaction, StartedClaim,
};
use crate::transaction::TransactionManager;

verus! {

broadcast use vstd::std_specs::hash::group_hash_axioms;

/// Both are missing, or both hold the same text.
pub open spec fn same_option(a: Option<String>, b: Option<String>) -> bool {
    match (a, b) {
        (Some(a), Some(b)) => a@ == b@,
        (None, None) => true,
        _ => false,
    }
}

/// Whose object it is, where it stands, and since when.
pub open spec fn same_object(a: LiveTransaction, b: LiveTransaction) -> bool {
    &&& a.path@ == b.path@
    &&& a.uid == b.uid
    &&& a.sender@ == b.sender@
    &&& a.created_at == b.created_at
}

/// The entries say the same of the object's claim.
pub open spec fn same_claim(a: LiveTransaction, b: LiveTransaction) -> bool {
    &&& a.dormant_since == b.dormant_since
    &&& a.claimed_at == b.claimed_at
    &&& a.claim_generation@ == b.claim_generation@
    &&& same_option(a.cancellation_id, b.cancellation_id)
    &&& a.started == b.started
}

/// The entries say the same.
pub open spec fn same_entry(a: LiveTransaction, b: LiveTransaction) -> bool {
    same_object(a, b) && same_claim(a, b) && a.enqueued == b.enqueued
}

/// The registries hold the same of every object but one.
pub open spec fn same_but(
    a: Map<u64, LiveTransaction>,
    b: Map<u64, LiveTransaction>,
    id: u64,
) -> bool {
    forall|other: u64| #![trigger a.contains_key(other)] #![trigger b.contains_key(other)]
        other != id ==> {
            &&& a.contains_key(other) <==> b.contains_key(other)
            &&& a.contains_key(other) ==> same_entry(a[other], b[other])
        }
}

/// The registries hold the same.
pub open spec fn same_registry(
    a: Map<u64, LiveTransaction>,
    b: Map<u64, LiveTransaction>,
) -> bool {
    forall|id: u64| #![trigger a.contains_key(id)] #![trigger b.contains_key(id)]
        {
            &&& a.contains_key(id) <==> b.contains_key(id)
            &&& a.contains_key(id) ==> same_entry(a[id], b[id])
        }
}

/// The object is dormant, from `now` on: no claim is recorded. All else is as it was.
pub open spec fn is_dormant_again(a: LiveTransaction, b: LiveTransaction, now: Instant) -> bool {
    &&& same_object(a, b)
    &&& !b.started
    &&& b.claimed_at is None
    &&& b.claim_generation@.len() == 0
    &&& b.cancellation_id is None
    &&& b.dormant_since == Some(now)
    &&& b.enqueued == a.enqueued
}

pub proof fn lemma_entries(m: Map<u64, LiveTransaction>)
    ensures
        forall|id: u64| #[trigger] entries(m).contains_key(id) <==> m.contains_key(id),
        forall|id: u64| m.contains_key(id) ==> #[trigger] entries(m)[id] == m[id]@,
{
}

pub proof fn lemma_same_view(a: LiveTransaction, b: LiveTransaction)
    requires
        a@ == b@,
    ensures
        same_entry(a, b),
{
    assert(a@.cancellation_id == text_of(a.cancellation_id));
    assert(b@.cancellation_id == text_of(b.cancellation_id));
    assert(a@.path == a.path@ && b@.path == b.path@);
    assert(a@.sender == a.sender@ && b@.sender == b.sender@);
    assert(a@.claim_generation == a.claim_generation@ && b@.claim_generation
        == b.claim_generation@);
    assert(a@.uid == b@.uid && a@.created_at == b@.created_at && a@.dormant_since
        == b@.dormant_since && a@.claimed_at == b@.claimed_at && a@.started == b@.started
        && a@.enqueued == b@.enqueued);
}

pub proof fn lemma_same_registry(a: Map<u64, LiveTransaction>, b: Map<u64, LiveTransaction>)
    requires
        entries(a) == entries(b),
    ensures
        same_registry(a, b),
{
    lemma_entries(a);
    lemma_entries(b);
    assert forall|id: u64| #![trigger a.contains_key(id)] #![trigger b.contains_key(id)]
        {
            &&& a.contains_key(id) <==> b.contains_key(id)
            &&& a.contains_key(id) ==> same_entry(a[id], b[id])
        } by {
        assert(entries(a).contains_key(id) == a.contains_key(id));
        assert(entries(b).contains_key(id) == b.contains_key(id));
        if a.contains_key(id) {
            assert(entries(a)[id] == a[id]@);
            assert(entries(b)[id] == b[id]@);
            lemma_same_view(a[id], b[id]);
        }
    }
}

pub proof fn lemma_same_but(
    a: Map<u64, LiveTransaction>,
    b: Map<u64, LiveTransaction>,
    id: u64,
)
    requires
        entries(b).remove(id) == entries(a).remove(id),
    ensures
        same_but(a, b, id),
{
    lemma_entries(a);
    lemma_entries(b);
    let (x, y) = (entries(a).remove(id), entries(b).remove(id));
    assert forall|other: u64| #![trigger a.contains_key(other)] #![trigger b.contains_key(other)]
        other != id implies {
        &&& a.contains_key(other) <==> b.contains_key(other)
        &&& a.contains_key(other) ==> same_entry(a[other], b[other])
    } by {
        assert(x.contains_key(other) == y.contains_key(other));
        assert(entries(a).contains_key(other) == x.contains_key(other));
        assert(entries(b).contains_key(other) == y.contains_key(other));
        if a.contains_key(other) {
            assert(x[other] == y[other]);
            assert(entries(a)[other] == entries(b)[other]);
            lemma_same_view(a[other], b[other]);
        }
    }
}

/// One entry was put in the place of another.
pub proof fn lemma_entry_put(
    a: Map<u64, LiveTransaction>,
    b: Map<u64, LiveTransaction>,
    id: u64,
    v: crate::transaction::live::LiveView,
)
    requires
        entries(b) == entries(a).insert(id, v),
    ensures
        same_but(a, b, id),
        b.contains_key(id),
        b[id]@ == v,
{
    lemma_entries(a);
    lemma_entries(b);
    assert(entries(b).remove(id) =~= entries(a).remove(id));
    lemma_same_but(a, b, id);
    assert(entries(b).contains_key(id));
    assert(entries(b)[id] == v);
}

proof fn lemma_kinds(e: ServiceError)
    ensures
        e@ == (e.kind, e.message@),
{
}

/// How many of the objects are a user's.
pub open spec fn objects_of(m: Map<u64, LiveTransaction>, uid: u32) -> nat {
    m.dom().filter(|id: u64| m[id].uid == uid).len()
}

proof fn lemma_objects_of(m: Map<u64, LiveTransaction>, uid: u32)
    ensures
        owned(entries(m), uid) == objects_of(m, uid),
        entries(m).dom() == m.dom(),
{
    lemma_entries(m);
    assert(entries(m).dom() =~= m.dom());
    let v = entries(m);
    assert forall|id: u64| m.contains_key(id) implies #[trigger] v[id].uid == m[id].uid by {
        assert(v[id] == m[id]@);
    }
    assert(v.dom().filter(|id: u64| v[id].uid == uid) =~= m.dom().filter(
        |id: u64| m[id].uid == uid,
    ));
}

/// An object is created exactly if there are fewer than 64 and its user has fewer than 16. Then
/// it stands dormant at the path with its number, in its user's and its creator's name, and the
/// others are left alone. If it is refused, nothing changes.
pub proof fn law_object_is_created_within_the_limits(
    live: &mut HashMap<u64, LiveTransaction>,
    id: u64,
    uid: u32,
    sender: String,
    now: Instant,
    r: Result<String, ServiceError>,
)
    requires
        call_ensures(create_transaction, (live, id, uid, sender, now), r),
    ensures
        r is Ok <==> old(live)@.dom().len() < 64 && objects_of(old(live)@, uid) < 16,
        r is Err ==> r->Err_0.kind == ErrorKind::LimitsExceeded && same_registry(
            old(live)@,
            final(live)@,
        ),
        r is Ok ==> {
            &&& same_but(old(live)@, final(live)@, id)
            &&& final(live)@.contains_key(id)
            &&& final(live)@[id].path@ == r->Ok_0@
            &&& final(live)@[id].uid == uid
            &&& final(live)@[id].sender@ == sender@
            &&& final(live)@[id].created_at == now
            &&& final(live)@[id].dormant_since == Some(now)
            &&& final(live)@[id].claimed_at is None
            &&& final(live)@[id].claim_generation@.len() == 0
            &&& final(live)@[id].cancellation_id is None
            &&& !final(live)@[id].started
            &&& !final(live)@[id].enqueued
        },
        r is Ok ==> exists|digits: Seq<char>|
            spells(digits, id as nat) && r->Ok_0@ == #[trigger] ("/io/aosc/Amo/Transaction/"@
                + digits),
{
    lemma_objects_of(old(live)@, uid);
    if r is Ok {
        law_decimal_spells_its_number(id as nat);
        assert(r->Ok_0@ == "/io/aosc/Amo/Transaction/"@ + decimal(id as nat));
        let v = crate::transaction::live::new_entry(id, uid, sender@, now);
        lemma_entry_put(old(live)@, final(live)@, id, v);
        let t = final(live)@[id];
        assert(t@.cancellation_id == text_of(t.cancellation_id));
    } else {
        lemma_kinds(r->Err_0);
        lemma_same_registry(old(live)@, final(live)@);
    }
}

/// An object's path ends with its number.
pub proof fn law_path_names_the_object(id: u64, path: String)
    requires
        call_ensures(object_path, (id,), path),
    ensures
        exists|digits: Seq<char>|
            spells(digits, id as nat) && path@ == #[trigger] ("/io/aosc/Amo/Transaction/"@ + digits),
{
    law_decimal_spells_its_number(id as nat);
    assert(path@ == "/io/aosc/Amo/Transaction/"@ + decimal(id as nat));
}

/// Two ids that a counter gives out one after the other differ, be they for one transaction or
/// for two, and so do claims and checks: no id is empty.
pub proof fn law_fresh_ids_differ(
    counter: &mut IdCounter,
    a: u64,
    x: String,
    later: &mut IdCounter,
    b: u64,
    y: String,
)
    requires
        call_ensures(next_claim_generation, (counter, a), x),
        *old(later) == *final(counter),
        call_ensures(next_claim_generation, (later, b), y),
    ensures
        x@ != y@,
        x@.len() > 0,
{
    law_ids_are_unique(a, old(counter).next(), b, old(later).next());
}

/// The same of authorization checks.
pub proof fn law_fresh_check_ids_differ(
    counter: &mut IdCounter,
    a: u64,
    x: String,
    later: &mut IdCounter,
    b: u64,
    y: String,
)
    requires
        call_ensures(next_cancellation_id, (counter, a), x),
        *old(later) == *final(counter),
        call_ensures(next_cancellation_id, (later, b), y),
    ensures
        x@ != y@,
        x@.len() > 0,
{
    law_ids_are_unique(a, old(counter).next(), b, old(later).next());
}

/// Giving a claim up makes its object dormant again, exactly if the claim is still to be given
/// up and still the object's. Otherwise nothing changes. It is given up once.
pub proof fn law_given_up_claim_is_undone(
    claim: &mut StartedClaim,
    live: &mut HashMap<u64, LiveTransaction>,
    now: Instant,
)
    requires
        call_ensures(StartedClaim::rollback, (claim, live, now), ()),
    ensures
        !final(claim).armed(),
        ({
            let id = old(claim).id();
            let a = old(live)@;
            let b = final(live)@;
            if old(claim).armed() && a.contains_key(id) && a[id].claim_generation@ == old(claim).generation() {
                same_but(a, b, id) && b.contains_key(id) && is_dormant_again(a[id], b[id], now)
            } else {
                same_registry(a, b)
            }
        }),
{
    lemma_given_up(old(live)@, final(live)@, *old(claim), now);
}

/// What giving up a claim comes to.
pub proof fn lemma_given_up(
    a: Map<u64, LiveTransaction>,
    b: Map<u64, LiveTransaction>,
    claim: StartedClaim,
    now: Instant,
)
    requires
        entries(b) == if claim.armed() {
            crate::transaction::live::claim_given_up(
                entries(a),
                claim.id(),
                claim.generation(),
                now,
            )
        } else {
            entries(a)
        },
    ensures
        ({
            let id = claim.id();
            if claim.armed() && a.contains_key(id) && a[id].claim_generation@
                == claim.generation() {
                same_but(a, b, id) && b.contains_key(id) && is_dormant_again(a[id], b[id], now)
            } else {
                same_registry(a, b)
            }
        }),
{
    let id = claim.id();
    lemma_entries(a);
    if a.contains_key(id) {
        assert(entries(a)[id] == a[id]@);
        assert(a[id]@.claim_generation == a[id].claim_generation@);
    }
    if claim.armed() && a.contains_key(id) && a[id].claim_generation@ == claim.generation() {
        lemma_rolled_back(a, b, id, now);
    } else {
        lemma_same_registry(a, b);
    }
}

pub proof fn lemma_rolled_back(
    a: Map<u64, LiveTransaction>,
    b: Map<u64, LiveTransaction>,
    id: u64,
    now: Instant,
)
    requires
        a.contains_key(id),
        entries(b) == entries(a).insert(
            id,
            crate::transaction::live::rolled_back(entries(a)[id], now),
        ),
    ensures
        same_but(a, b, id),
        b.contains_key(id),
        is_dormant_again(a[id], b[id], now),
{
    lemma_entries(a);
    let v = crate::transaction::live::rolled_back(entries(a)[id], now);
    lemma_entry_put(a, b, id, v);
    let (s, t) = (a[id], b[id]);
    assert(entries(a)[id] == s@);
    assert(t@.cancellation_id == text_of(t.cancellation_id));
    assert(t@.path == t.path@ && s@.path == s.path@);
    assert(t@.sender == t.sender@ && s@.sender == s.sender@);
    assert(t@.claim_generation == t.claim_generation@);
}

/// A claim is new, for its object and under its name.
pub proof fn law_claim_is_new(id: u64, generation: String, c: StartedClaim, name: &str)
    requires
        call_ensures(StartedClaim::new, (id, generation), c),
        call_ensures(StartedClaim::name, (&c,), name),
    ensures
        c.id() == id,
        name@ == generation@,
        c.armed(),
{
}

/// A committed claim is not given up any more.
pub proof fn law_committed_claim_stays(
    claim: &mut StartedClaim,
    later: &mut StartedClaim,
    live: &mut HashMap<u64, LiveTransaction>,
    now: Instant,
)
    requires
        call_ensures(StartedClaim::commit, (claim,), ()),
        *old(later) == *final(claim),
        call_ensures(StartedClaim::rollback, (later, live, now), ()),
    ensures
        same_registry(old(live)@, final(live)@),
{
    lemma_given_up(old(live)@, final(live)@, *old(later), now);
}

/// A claim still stands exactly if its object is there, is claimed, and by this claim. What is
/// missing is told apart from what was cancelled or replaced.
pub proof fn law_claim_stands_while_it_is_the_objects(
    live: HashMap<u64, LiveTransaction>,
    id: u64,
    generation: &str,
    r: Result<(), ServiceError>,
)
    requires
        call_ensures(check_claim_still_active, (&live, id, generation), r),
    ensures
        r is Ok <==> live@.contains_key(id) && live@[id].started && live@[id].claim_generation@
            == generation@,
        r is Err ==> (r->Err_0.kind == ErrorKind::UnknownObject <==> !live@.contains_key(id)),
        r is Err && live@.contains_key(id) ==> r->Err_0.kind == ErrorKind::Failed,
{
    lemma_entries(live@);
    if live@.contains_key(id) {
        assert(entries(live@)[id] == live@[id]@);
    }
    if r is Err {
        lemma_kinds(r->Err_0);
    }
}

/// The object is claimed, and its transaction was not handed to the scheduler.
pub open spec fn has_open_claim<T>(
    m: Map<u64, LiveTransaction>,
    id: u64,
    manager: TransactionManager<T>,
) -> bool {
    &&& m.contains_key(id)
    &&& m[id].started
    &&& !m[id].enqueued
    &&& !is_scheduled(manager, id)
}

/// The transaction is queued or runs.
pub open spec fn is_scheduled<T>(manager: TransactionManager<T>, id: u64) -> bool {
    ||| exists|i: int|
        0 <= i < manager.queued().len() && (#[trigger] manager.queued()[i]).id == id
    ||| manager.running() is Some && manager.running()->0.id == id
}

pub proof fn lemma_scheduled<T>(manager: TransactionManager<T>, id: u64)
    ensures
        manager.holds(id) <==> is_scheduled(manager, id),
{
}

/// An open claim is given up: its object is dormant again, and the id of its check is handed
/// back. Any other object is left as it is, and so are all others.
pub proof fn law_open_claim_is_given_up<T>(
    live: &mut HashMap<u64, LiveTransaction>,
    manager: TransactionManager<T>,
    id: u64,
    now: Instant,
    r: Option<ClaimRollback>,
)
    requires
        call_ensures(rollback_claim_if_not_enqueued::<T>, (live, &manager, id, now), r),
    ensures
        r is Some <==> old(live)@.contains_key(id),
        r is Some ==> (r->0.rolled_back <==> has_open_claim(old(live)@, id, manager)),
        has_open_claim(old(live)@, id, manager) ==> {
            &&& same_option(r->0.cancellation_id, old(live)@[id].cancellation_id)
            &&& same_but(old(live)@, final(live)@, id)
            &&& final(live)@.contains_key(id)
            &&& is_dormant_again(old(live)@[id], final(live)@[id], now)
        },
        !has_open_claim(old(live)@, id, manager) ==> same_registry(old(live)@, final(live)@) && (
        r is Some ==> r->0.cancellation_id is None),
{
    let (a, b) = (old(live)@, final(live)@);
    lemma_entries(a);
    lemma_scheduled(manager, id);
    if a.contains_key(id) {
        assert(entries(a)[id] == a[id]@);
        assert(a[id]@.cancellation_id == text_of(a[id].cancellation_id));
    }
    if has_open_claim(a, id, manager) {
        lemma_rolled_back(a, b, id, now);
        assert(text_of(r->0.cancellation_id) == text_of(a[id].cancellation_id));
    } else {
        lemma_same_registry(a, b);
    }
}

/// What destroying an object comes to: it succeeds exactly if the object is there, and its
/// transaction was not handed to the scheduler. Then the object is gone, the id of its check is
/// handed back, and the others are left alone. Else nothing changes.
pub open spec fn destroying_comes_to<T>(
    a: Map<u64, LiveTransaction>,
    manager: TransactionManager<T>,
    id: u64,
    b: Map<u64, LiveTransaction>,
    r: Result<Option<String>, ServiceError>,
) -> bool {
    &&& r is Ok <==> a.contains_key(id) && !a[id].enqueued && !is_scheduled(manager, id)
    &&& r is Ok ==> {
        &&& !b.contains_key(id)
        &&& same_but(a, b, id)
        &&& same_option(r->Ok_0, a[id].cancellation_id)
    }
    &&& r is Err ==> same_registry(a, b)
    &&& r is Err ==> r->Err_0.kind == if a.contains_key(id) {
        ErrorKind::Failed
    } else {
        ErrorKind::UnknownObject
    }
}

pub proof fn law_object_is_destroyed_unless_scheduled<T>(
    live: &mut HashMap<u64, LiveTransaction>,
    manager: TransactionManager<T>,
    id: u64,
    r: Result<Option<String>, ServiceError>,
)
    requires
        call_ensures(remove_for_destroy::<T>, (live, &manager, id), r),
    ensures
        destroying_comes_to(old(live)@, manager, id, final(live)@, r),
{
    lemma_destroyed(old(live)@, manager, id, final(live)@, r);
}

pub proof fn lemma_destroyed<T>(
    a: Map<u64, LiveTransaction>,
    manager: TransactionManager<T>,
    id: u64,
    b: Map<u64, LiveTransaction>,
    r: Result<Option<String>, ServiceError>,
)
    requires
        ({
            let m = entries(a);
            if !m.contains_key(id) {
                r is Err && r->Err_0@ == crate::transaction::live::no_longer_exists(id)
                    && entries(b) == m
            } else if m[id].enqueued || manager.holds(id) {
                r is Err && r->Err_0@ == crate::transaction::live::already_started(id)
                    && entries(b) == m
            } else {
                r is Ok && text_of(r->Ok_0) == m[id].cancellation_id && entries(b) == m.remove(id)
            }
        }),
    ensures
        destroying_comes_to(a, manager, id, b, r),
{
    lemma_entries(a);
    lemma_entries(b);
    lemma_scheduled(manager, id);
    if a.contains_key(id) {
        assert(entries(a)[id] == a[id]@);
        assert(a[id]@.cancellation_id == text_of(a[id].cancellation_id));
    }
    if r is Err {
        lemma_kinds(r->Err_0);
        lemma_same_registry(a, b);
    } else {
        assert(entries(b).remove(id) =~= entries(a).remove(id));
        lemma_same_but(a, b, id);
        assert(!entries(b).contains_key(id));
        assert(text_of(r->Ok_0) == text_of(a[id].cancellation_id));
    }
}

/// The reading is at least so many seconds after the other.
pub open spec fn is_later_by(now: Instant, since: Instant, seconds: nat) -> bool {
    now.nanos >= since.nanos + seconds * 1_000_000_000
}

/// A dormant object has overslept exactly once a minute has passed since it became dormant, or,
/// where that is not recorded, since it was created.
pub proof fn law_dormant_object_has_a_minute(
    dormant_since: Option<Instant>,
    created_at: Instant,
    now: Instant,
    b: bool,
)
    requires
        call_ensures(dormant_expired, (dormant_since, created_at, now), b),
    ensures
        dormant_since is Some ==> (b <==> is_later_by(now, dormant_since->0, 60)),
        dormant_since is None ==> (b <==> is_later_by(now, created_at, 60)),
{
}

/// A claim that was not handed to the scheduler has expired exactly once five minutes have passed,
/// or its owner's name, if it can be one on the bus, has no owner. One that was has not.
pub proof fn law_claim_has_five_minutes_and_an_owner<T>(
    manager: TransactionManager<T>,
    enqueued: bool,
    id: u64,
    sender: &str,
    claimed_at: Instant,
    now: Instant,
    has_owner: bool,
    b: bool,
)
    requires
        call_ensures(
            claim_expired::<T>,
            (&manager, enqueued, id, sender, claimed_at, now, has_owner),
            b,
        ),
    ensures
        enqueued || is_scheduled(manager, id) ==> !b,
        !enqueued && !is_scheduled(manager, id) ==> (b <==> is_later_by(now, claimed_at, 300) || (
        is_bus_name(sender@) && !has_owner)),
{
    lemma_scheduled(manager, id);
}

/// The bus is asked for an owner exactly if its answer decides.
pub proof fn law_owner_is_asked_for_if_it_decides<T>(
    manager: TransactionManager<T>,
    enqueued: bool,
    id: u64,
    sender: &str,
    claimed_at: Instant,
    now: Instant,
    asked: bool,
    with_owner: bool,
    without_owner: bool,
)
    requires
        call_ensures(
            owner_decides::<T>,
            (&manager, enqueued, id, sender, claimed_at, now),
            asked,
        ),
        call_ensures(
            claim_expired::<T>,
            (&manager, enqueued, id, sender, claimed_at, now, true),
            with_owner,
        ),
        call_ensures(
            claim_expired::<T>,
            (&manager, enqueued, id, sender, claimed_at, now, false),
            without_owner,
        ),
    ensures
        asked <==> with_owner != without_owner,
{
}

/// A claim that was judged is still the one exactly if the time of the claim is the same and its
/// transaction was not handed to the scheduler.
pub proof fn law_judged_claim_is_the_same<T>(
    manager: TransactionManager<T>,
    entry_claimed_at: Option<Instant>,
    snap_claimed_at: Option<Instant>,
    enqueued: bool,
    id: u64,
    b: bool,
)
    requires
        call_ensures(
            claim_still_abandoned::<T>,
            (&manager, entry_claimed_at, snap_claimed_at, enqueued, id),
            b,
        ),
    ensures
        b <==> !enqueued && !is_scheduled(manager, id) && match (
            entry_claimed_at,
            snap_claimed_at,
        ) {
            (Some(x), Some(y)) => x.nanos == y.nanos,
            (None, None) => true,
            _ => false,
        },
{
    lemma_scheduled(manager, id);
}

/// The text holds the number of the transaction.
pub open spec fn names_transaction(message: Seq<char>, id: u64) -> bool {
    exists|digits: Seq<char>, rest: Seq<char>|
        spells(digits, id as nat) && message == #[trigger] ("Transaction "@ + digits + rest)
}

pub proof fn lemma_names_transaction(id: u64, rest: Seq<char>)
    ensures
        names_transaction("Transaction "@ + decimal(id as nat) + rest, id),
{
    law_decimal_spells_its_number(id as nat);
}

/// Why a claim does not stand names the object, and tells whether it is gone, was cancelled or was
/// claimed anew.
pub proof fn law_lost_claim_is_told(
    live: HashMap<u64, LiveTransaction>,
    id: u64,
    generation: &str,
    r: Result<(), ServiceError>,
)
    requires
        call_ensures(check_claim_still_active, (&live, id, generation), r),
        r is Err,
    ensures
        names_transaction(r->Err_0.message@, id),
        r->Err_0.message@ == "Transaction "@ + decimal(id as nat) + if !live@.contains_key(id) {
            " no longer exists"@
        } else if !live@[id].started {
            " was cancelled while awaiting authorization"@
        } else {
            " claim was replaced by a newer invocation"@
        },
{
    lemma_entries(live@);
    if live@.contains_key(id) {
        assert(entries(live@)[id] == live@[id]@);
    }
    lemma_kinds(r->Err_0);
    lemma_names_transaction(id, " no longer exists"@);
    lemma_names_transaction(id, " was cancelled while awaiting authorization"@);
    lemma_names_transaction(id, " claim was replaced by a newer invocation"@);
}

/// Why no object is created tells the limit on all apart from that on one user.
pub proof fn law_refused_creation_is_told(
    live: &mut HashMap<u64, LiveTransaction>,
    id: u64,
    uid: u32,
    sender: String,
    now: Instant,
    r: Result<String, ServiceError>,
)
    requires
        call_ensures(create_transaction, (live, id, uid, sender, now), r),
        r is Err,
    ensures
        r->Err_0.message@ == if old(live)@.dom().len() >= 64 {
            "Too many live transactions, try again later"@
        } else {
            "Too many live transactions from this user"@
        },
{
    lemma_objects_of(old(live)@, uid);
    lemma_kinds(r->Err_0);
}

/// Why an object is not destroyed names it, and tells whether it is gone or its transaction was
/// handed to the scheduler.
pub proof fn law_refused_destruction_is_told<T>(
    live: &mut HashMap<u64, LiveTransaction>,
    manager: TransactionManager<T>,
    id: u64,
    r: Result<Option<String>, ServiceError>,
)
    requires
        call_ensures(remove_for_destroy::<T>, (live, &manager, id), r),
        r is Err,
    ensures
        names_transaction(r->Err_0.message@, id),
        r->Err_0.message@ == "Transaction "@ + decimal(id as nat) + if old(live)@.contains_key(
            id,
        ) {
            " already started"@
        } else {
            " no longer exists"@
        },
{
    lemma_entries(old(live)@);
    lemma_kinds(r->Err_0);
    lemma_names_transaction(id, " no longer exists"@);
    lemma_names_transaction(id, " already started"@);
}

} // verus!
