//! The calls on a transaction object.
use std::collections::HashMap;
use vstd::prelude::*;

use crate::clock::Instant;
use crate::error::{ErrorKind, ServiceError};
use crate::laws::registry::{
    destroying_comes_to, has_open_claim, is_dormant_again, lemma_destroyed, lemma_entries,
    lemma_entry_put, lemma_given_up, lemma_names_transaction, lemma_rolled_back,
    lemma_same_registry, lemma_scheduled, names_transaction, same_but, same_object, same_option,
    same_registry,
};
use crate::laws::scheduler::{
    busy, count_of, lemma_count, lemma_stands_first, nothing_changed, queueing_comes_to,
    stands_first_at,
};
use crate::text::{decimal, text_of};
use crate::transaction::live::{
    entries, law_ids_are_unique, IdCounter, LiveTransaction, StartedClaim,
};
use crate::transaction::object::{
    auth_action, auth_timed_out, cancel_error, enqueue_error, AuthFailure, AuthStep, AuthVerdict, Cancelled,
    Claimed, TransactionObject,
};
use crate::transaction::types::{
    CancelError, EnqueueError, TransactionRole, TransactionState, TransactionStateEvent,
};
use crate::transaction::TransactionManager;

verus! {

broadcast use vstd::std_specs::hash::group_hash_axioms;

proof fn lemma_error(e: ServiceError)
    ensures
        e@ == (e.kind, e.message@),
{
}

/// Refreshing and applying changes have to be authorized, each for an action of its own;
/// previews do not.
pub proof fn law_what_changes_things_is_authorized(
    role: TransactionRole,
    action: Option<&'static str>,
)
    requires
        call_ensures(auth_action, (role,), action),
    ensures
        action is Some <==> role == TransactionRole::Refresh || role
            == TransactionRole::ApplyChanges,
        role == TransactionRole::Refresh ==> action->0@ == "io.aosc.amo.refresh"@,
        role == TransactionRole::ApplyChanges ==> action->0@ == "io.aosc.Amo.apply.run"@,
{
}

/// The object is claimed since `now` under a name, and with the id of a check if there is one.
/// Whose it is, and whether its transaction was handed to the scheduler, is as it was.
pub open spec fn is_claimed(
    a: LiveTransaction,
    b: LiveTransaction,
    now: Instant,
    name: Seq<char>,
    check: Option<String>,
) -> bool {
    &&& same_object(a, b)
    &&& b.started
    &&& b.claimed_at == Some(now)
    &&& b.dormant_since is None
    &&& b.claim_generation@ == name
    &&& same_option(b.cancellation_id, check)
    &&& b.enqueued == a.enqueued
}

/// The id of the check that a claim has to pass.
pub open spec fn check_of(c: Claimed) -> Option<String> {
    match c.auth {
        Some(request) => Some(request.cancellation_id),
        None => None,
    }
}

/// An object is claimed exactly by the connection that created it, if it is there and not
/// claimed. The claim has a name, and a check if the operation has to be authorized; both are
/// noted in the entry, and other objects are left alone. A refused call changes nothing.
pub proof fn law_object_is_claimed_once_by_its_creator(
    o: TransactionObject,
    caller: &str,
    role: TransactionRole,
    live: &mut HashMap<u64, LiveTransaction>,
    generations: &mut IdCounter,
    cancellations: &mut IdCounter,
    now: Instant,
    r: Result<Claimed, ServiceError>,
)
    requires
        call_ensures(
            TransactionObject::claim,
            (&o, caller, role, live, generations, cancellations, now),
            r,
        ),
    ensures
        r is Ok <==> caller@ == o.sender@ && old(live)@.contains_key(o.id) && !old(live)@[o.id].started,
        r is Err ==> same_registry(old(live)@, final(live)@),
        caller@ != o.sender@ ==> r->Err_0.kind == ErrorKind::AccessDenied,
        r is Err && caller@ == o.sender@ ==> r->Err_0.kind == if old(live)@.contains_key(o.id) {
            ErrorKind::Failed
        } else {
            ErrorKind::UnknownObject
        },
        r is Ok ==> {
            &&& r->Ok_0.claim.id() == o.id
            &&& r->Ok_0.claim.armed()
            &&& r->Ok_0.claim.generation().len() > 0
            &&& same_but(old(live)@, final(live)@, o.id)
            &&& final(live)@.contains_key(o.id)
            &&& is_claimed(
                old(live)@[o.id],
                final(live)@[o.id],
                now,
                r->Ok_0.claim.generation(),
                check_of(r->Ok_0),
            )
            &&& r->Ok_0.auth is Some <==> role == TransactionRole::Refresh || role
                == TransactionRole::ApplyChanges
            &&& role == TransactionRole::Refresh ==> r->Ok_0.auth->0.action@
                == "io.aosc.amo.refresh"@
            &&& role == TransactionRole::ApplyChanges ==> r->Ok_0.auth->0.action@
                == "io.aosc.Amo.apply.run"@
        },
{
    let (a, b) = (old(live)@, final(live)@);
    lemma_entries(a);
    if a.contains_key(o.id) {
        assert(entries(a)[o.id] == a[o.id]@);
    }
    if r is Err {
        lemma_error(r->Err_0);
        lemma_same_registry(a, b);
    } else {
        let generation = r->Ok_0.claim.generation();
        law_ids_are_unique(o.id, old(generations).next(), o.id, old(generations).next());
        let cid = match r->Ok_0.auth {
            Some(request) => Some(request.cancellation_id@),
            None => None,
        };
        let v = crate::transaction::object::claimed(entries(a)[o.id], now, generation, cid);
        lemma_entry_put(a, b, o.id, v);
        let (s, t) = (a[o.id], b[o.id]);
        assert(t@.cancellation_id == text_of(t.cancellation_id));
        assert(t@.path == t.path@ && s@.path == s.path@);
        assert(t@.sender == t.sender@ && s@.sender == s.sender@);
        assert(t@.claim_generation == t.claim_generation@);
    }
}

/// Two claims never have the same name, one made after the other with the same counter, whichever
/// objects they are of; nor have their checks.
pub proof fn law_claims_are_told_apart(
    o: TransactionObject,
    caller: &str,
    role: TransactionRole,
    live: &mut HashMap<u64, LiveTransaction>,
    generations: &mut IdCounter,
    cancellations: &mut IdCounter,
    now: Instant,
    r: Result<Claimed, ServiceError>,
    p: TransactionObject,
    later_caller: &str,
    later_role: TransactionRole,
    later_live: &mut HashMap<u64, LiveTransaction>,
    later_generations: &mut IdCounter,
    later_cancellations: &mut IdCounter,
    later: Instant,
    q: Result<Claimed, ServiceError>,
)
    requires
        call_ensures(
            TransactionObject::claim,
            (&o, caller, role, live, generations, cancellations, now),
            r,
        ),
        call_ensures(
            TransactionObject::claim,
            (
                &p,
                later_caller,
                later_role,
                later_live,
                later_generations,
                later_cancellations,
                later,
            ),
            q,
        ),
        *old(later_generations) == *final(generations),
        *old(later_cancellations) == *final(cancellations),
        r is Ok,
        q is Ok,
    ensures
        r->Ok_0.claim.generation() != q->Ok_0.claim.generation(),
        r->Ok_0.auth is Some && q->Ok_0.auth is Some ==> r->Ok_0.auth->0.cancellation_id@
            != q->Ok_0.auth->0.cancellation_id@,
{
    law_ids_are_unique(o.id, old(generations).next(), p.id, old(later_generations).next());
    law_ids_are_unique(o.id, old(cancellations).next(), p.id, old(later_cancellations).next());
}

/// The answer of a check is passed on. Without one the call has timed out.
pub proof fn law_answer_of_the_check_is_passed_on<E>(
    id: u64,
    reply: Option<Result<(), E>>,
    r: Result<(), AuthFailure<E>>,
)
    requires
        call_ensures(TransactionObject::await_auth::<E>, (id, reply), r),
    ensures
        r is Ok <==> reply is Some && reply->0 is Ok,
        reply is Some && reply->0 is Err ==> r->Err_0 is Failed && r->Err_0->Failed_0
            == reply->0->Err_0,
        reply is None ==> r->Err_0 is TimedOut && r->Err_0->TimedOut_0.kind == ErrorKind::TimedOut,
{
    if reply is None {
        lemma_error(r->Err_0->TimedOut_0);
    }
}

/// A call goes on exactly if its check granted it; then its claim stands. Otherwise the claim is
/// given up, and the check is called off exactly if nobody answered it.
pub proof fn law_call_goes_on_if_granted(
    o: TransactionObject,
    verdict: AuthVerdict,
    claim: &mut StartedClaim,
    live: &mut HashMap<u64, LiveTransaction>,
    now: Instant,
    step: AuthStep,
)
    requires
        call_ensures(TransactionObject::after_auth, (&o, verdict, claim, live, now), step),
    ensures
        step is Proceed <==> verdict == AuthVerdict::Granted,
        verdict == AuthVerdict::Granted ==> same_registry(old(live)@, final(live)@) && final(claim).armed() == old(claim).armed(),
        verdict != AuthVerdict::Granted ==> !final(claim).armed() && (step->call_off <==> verdict
            == AuthVerdict::TimedOut),
        final(claim).id() == old(claim).id(),
        final(claim).generation() == old(claim).generation(),
        verdict != AuthVerdict::Granted ==> {
            let id = old(claim).id();
            let a = old(live)@;
            let b = final(live)@;
            if old(claim).armed() && a.contains_key(id) && a[id].claim_generation@ == old(claim).generation() {
                same_but(a, b, id) && b.contains_key(id) && is_dormant_again(a[id], b[id], now)
            } else {
                same_registry(a, b)
            }
        },
{
    if verdict == AuthVerdict::Granted {
        lemma_same_registry(old(live)@, final(live)@);
    } else {
        lemma_given_up(old(live)@, final(live)@, *old(claim), now);
    }
}

/// The claim is the one that the object's entry records.
pub open spec fn is_current(m: Map<u64, LiveTransaction>, id: u64, name: Seq<char>) -> bool {
    m.contains_key(id) && m[id].started && m[id].claim_generation@ == name
}

/// A claim's transaction is queued exactly if the claim is still the object's and the limits of the
/// scheduler allow it. Then it stands behind all others, its entry says so, and nothing else
/// changes. Otherwise the scheduler is left alone, and the claim is given up. Either way the claim
/// is over.
pub proof fn law_claimed_transaction_is_queued<T>(
    o: TransactionObject,
    claim: &mut StartedClaim,
    role: TransactionRole,
    caller: String,
    uid: u32,
    created_at: u64,
    task: T,
    live: &mut HashMap<u64, LiveTransaction>,
    manager: &mut TransactionManager<T>,
    now: Instant,
    r: Result<TransactionStateEvent, ServiceError>,
)
    requires
        call_ensures(
            TransactionObject::enqueue::<T>,
            (&o, claim, role, caller, uid, created_at, task, live, manager, now),
            r,
        ),
    ensures
        !final(claim).armed(),
        r is Ok <==> is_current(old(live)@, o.id, old(claim).generation()) && busy(*old(manager))
            < old(manager).max_queued() && count_of(old(manager).queued(), uid) < old(manager).max_per_uid(),
        r is Ok ==> {
            &&& queueing_comes_to(
                *old(manager),
                o.id,
                role,
                caller,
                uid,
                task,
                *final(manager),
                Ok(r->Ok_0),
            )
            &&& same_but(old(live)@, final(live)@, o.id)
            &&& final(live)@.contains_key(o.id)
            &&& final(live)@[o.id].enqueued
            &&& final(live)@[o.id].started
            &&& final(live)@[o.id].claim_generation@ == old(claim).generation()
            &&& final(live)@[o.id].claimed_at == old(live)@[o.id].claimed_at
            &&& same_object(old(live)@[o.id], final(live)@[o.id])
        },
        r is Err ==> nothing_changed(*old(manager), *final(manager)),
        r is Err && !is_current(old(live)@, o.id, old(claim).generation()) ==> r->Err_0.kind
            == if old(live)@.contains_key(o.id) {
            ErrorKind::Failed
        } else {
            ErrorKind::UnknownObject
        },
        r is Err && is_current(old(live)@, o.id, old(claim).generation()) ==> r->Err_0.kind
            == ErrorKind::LimitsExceeded,
        r is Err ==> {
            let id = old(claim).id();
            let a = old(live)@;
            let b = final(live)@;
            if old(claim).armed() && a.contains_key(id) && a[id].claim_generation@ == old(claim).generation() {
                same_but(a, b, id) && b.contains_key(id) && is_dormant_again(a[id], b[id], now)
            } else {
                same_registry(a, b)
            }
        },
{
    let (a, b) = (old(live)@, final(live)@);
    lemma_entries(a);
    lemma_count(old(manager).queued(), uid);
    if a.contains_key(o.id) {
        assert(entries(a)[o.id] == a[o.id]@);
    }
    if r is Err {
        lemma_error(r->Err_0);
        lemma_given_up(a, b, *old(claim), now);
    } else {
        let v = crate::transaction::live::LiveView { enqueued: true, ..entries(a)[o.id] };
        lemma_entry_put(a, b, o.id, v);
        let (s, t) = (a[o.id], b[o.id]);
        assert(t@.path == t.path@ && s@.path == s.path@);
        assert(t@.sender == t.sender@ && s@.sender == s.sender@);
        assert(t@.claim_generation == t.claim_generation@);
    }
}

/// Nobody but the connection that created an object cancels its transaction, and trying changes
/// nothing.
pub proof fn law_strangers_do_not_cancel<T>(
    o: TransactionObject,
    caller: &str,
    live: &mut HashMap<u64, LiveTransaction>,
    manager: &mut TransactionManager<T>,
    now: Instant,
    r: Result<Cancelled<T>, ServiceError>,
)
    requires
        call_ensures(TransactionObject::cancel::<T>, (&o, caller, live, manager, now), r),
        caller@ != o.sender@,
    ensures
        r is Err,
        r->Err_0.kind == ErrorKind::AccessDenied,
        same_registry(old(live)@, final(live)@),
        nothing_changed(*old(manager), *final(manager)),
{
    lemma_error(r->Err_0);
    lemma_same_registry(old(live)@, final(live)@);
}

/// A claim that waits is given up when its creator cancels: its object is dormant again, its check
/// is to be called off, and the scheduler is left alone.
pub proof fn law_waiting_claim_is_cancelled<T>(
    o: TransactionObject,
    caller: &str,
    live: &mut HashMap<u64, LiveTransaction>,
    manager: &mut TransactionManager<T>,
    now: Instant,
    r: Result<Cancelled<T>, ServiceError>,
)
    requires
        call_ensures(TransactionObject::cancel::<T>, (&o, caller, live, manager, now), r),
        caller@ == o.sender@,
        has_open_claim(old(live)@, o.id, *old(manager)),
    ensures
        r is Ok,
        r->Ok_0 is Claim,
        same_option(r->Ok_0->Claim_0, old(live)@[o.id].cancellation_id),
        same_but(old(live)@, final(live)@, o.id),
        final(live)@.contains_key(o.id),
        is_dormant_again(old(live)@[o.id], final(live)@[o.id], now),
        nothing_changed(*old(manager), *final(manager)),
{
    let (a, b) = (old(live)@, final(live)@);
    lemma_entries(a);
    lemma_scheduled(*old(manager), o.id);
    assert(entries(a)[o.id] == a[o.id]@);
    assert(a[o.id]@.cancellation_id == text_of(a[o.id].cancellation_id));
    lemma_rolled_back(a, b, o.id, now);
    assert(text_of(r->Ok_0->Claim_0) == text_of(a[o.id].cancellation_id));
}

/// A queued transaction leaves the queue when its creator cancels, wherever it stands.
pub proof fn law_queued_transaction_is_cancelled<T>(
    o: TransactionObject,
    caller: &str,
    live: &mut HashMap<u64, LiveTransaction>,
    manager: &mut TransactionManager<T>,
    now: Instant,
    r: Result<Cancelled<T>, ServiceError>,
    p: int,
)
    requires
        call_ensures(TransactionObject::cancel::<T>, (&o, caller, live, manager, now), r),
        caller@ == o.sender@,
        stands_first_at(old(manager).queued(), o.id, p),
        old(manager).queued()[p].state == TransactionState::Queued,
        o.uid == 0 || o.uid == old(manager).queued()[p].uid,
    ensures
        r is Ok,
        r->Ok_0 is Queued,
        r->Ok_0->Queued_0.id == o.id,
        r->Ok_0->Queued_0.state == TransactionState::Cancelled,
        r->Ok_0->Queued_0.task == old(manager).queued()[p].task,
        final(manager).queued().len() == old(manager).queued().len() - 1,
        forall|i: int|
            0 <= i < p ==> #[trigger] final(manager).queued()[i] == old(manager).queued()[i],
        forall|i: int|
            p < i < old(manager).queued().len() ==> final(manager).queued()[i - 1]
                == #[trigger] old(manager).queued()[i],
        final(manager).running() == old(manager).running(),
        same_registry(old(live)@, final(live)@),
{
    lemma_entries(old(live)@);
    lemma_scheduled(*old(manager), o.id);
    assert(old(manager).queued()[p].id == o.id);
    lemma_stands_first(old(manager).queued(), o.id, p);
    lemma_same_registry(old(live)@, final(live)@);
}

/// What neither waits nor is queued is not cancelled: it is told to be running if it is, else not
/// to be found. Nothing changes.
pub proof fn law_nothing_else_is_cancelled<T>(
    o: TransactionObject,
    caller: &str,
    live: &mut HashMap<u64, LiveTransaction>,
    manager: &mut TransactionManager<T>,
    now: Instant,
    r: Result<Cancelled<T>, ServiceError>,
)
    requires
        call_ensures(TransactionObject::cancel::<T>, (&o, caller, live, manager, now), r),
        caller@ == o.sender@,
        !has_open_claim(old(live)@, o.id, *old(manager)),
        forall|i: int|
            0 <= i < old(manager).queued().len() ==> (#[trigger] old(manager).queued()[i]).id
                != o.id,
    ensures
        r is Err,
        r->Err_0.kind == if old(manager).running() is Some && old(manager).running()->0.id == o.id {
            ErrorKind::Failed
        } else {
            ErrorKind::UnknownObject
        },
        same_registry(old(live)@, final(live)@),
        nothing_changed(*old(manager), *final(manager)),
{
    let a = old(live)@;
    lemma_entries(a);
    lemma_scheduled(*old(manager), o.id);
    if a.contains_key(o.id) {
        assert(entries(a)[o.id] == a[o.id]@);
    }
    lemma_same_registry(a, final(live)@);
    if r is Err {
        lemma_error(r->Err_0);
    }
}

/// An object is destroyed by its creator alone, unless its transaction was handed to the
/// scheduler.
pub proof fn law_creator_destroys_the_object<T>(
    o: TransactionObject,
    caller: &str,
    live: &mut HashMap<u64, LiveTransaction>,
    manager: TransactionManager<T>,
    r: Result<Option<String>, ServiceError>,
)
    requires
        call_ensures(TransactionObject::destroy::<T>, (&o, caller, live, &manager), r),
    ensures
        caller@ != o.sender@ ==> r is Err && r->Err_0.kind == ErrorKind::AccessDenied
            && same_registry(old(live)@, final(live)@),
        caller@ == o.sender@ ==> destroying_comes_to(old(live)@, manager, o.id, final(live)@, r),
{
    if caller@ != o.sender@ {
        lemma_error(r->Err_0);
        lemma_same_registry(old(live)@, final(live)@);
    } else {
        lemma_destroyed(old(live)@, manager, o.id, final(live)@, r);
    }
}

/// Why a transaction was not queued is told as a limit, and which.
pub proof fn law_refused_queueing_is_told(e: EnqueueError, f: EnqueueError, x: ServiceError, y: ServiceError)
    requires
        call_ensures(enqueue_error, (e,), x),
        call_ensures(enqueue_error, (f,), y),
    ensures
        x.kind == ErrorKind::LimitsExceeded,
        e != f ==> x.message@ != y.message@,
{
    reveal_strlit("Transaction queue is full, try again later");
    reveal_strlit("Too many queued transactions from this user");
    lemma_error(x);
    lemma_error(y);
    assert(x.message@.len() == 42 || x.message@.len() == 43);
    assert(x.message@[1] == 'r' || x.message@[1] == 'o');
    assert(y.message@[1] == 'r' || y.message@[1] == 'o');
}

/// Why a transaction was not cancelled is told by the kind of the error.
pub proof fn law_refused_cancellation_is_told(e: CancelError, id: u64, r: ServiceError)
    requires
        call_ensures(cancel_error, (e, id), r),
    ensures
        e is NotFound ==> r.kind == ErrorKind::UnknownObject,
        e is NotOwner ==> r.kind == ErrorKind::AccessDenied,
        e is Running || e is AlreadyCancelled ==> r.kind == ErrorKind::Failed,
{
    lemma_error(r);
}

/// Why an object is not claimed, or not destroyed, tells its creator which object it is.
pub proof fn law_refused_claim_is_told(
    o: TransactionObject,
    caller: &str,
    role: TransactionRole,
    live: &mut HashMap<u64, LiveTransaction>,
    generations: &mut IdCounter,
    cancellations: &mut IdCounter,
    now: Instant,
    r: Result<Claimed, ServiceError>,
)
    requires
        call_ensures(
            TransactionObject::claim,
            (&o, caller, role, live, generations, cancellations, now),
            r,
        ),
        r is Err,
        caller@ == o.sender@,
    ensures
        names_transaction(r->Err_0.message@, o.id),
        r->Err_0.message@ == "Transaction "@ + decimal(o.id as nat) + if old(live)@.contains_key(
            o.id,
        ) {
            " already started"@
        } else {
            " no longer exists"@
        },
{
    lemma_entries(old(live)@);
    lemma_error(r->Err_0);
    lemma_names_transaction(o.id, " no longer exists"@);
    lemma_names_transaction(o.id, " already started"@);
}

/// Why a transaction is not cancelled is told in words, with its number where the caller owns it.
pub proof fn law_refused_cancellation_is_worded(e: CancelError, id: u64, r: ServiceError)
    requires
        call_ensures(cancel_error, (e, id), r),
    ensures
        e is NotFound ==> r.message@ == "Transaction "@ + decimal(id as nat) + " not found"@,
        e is Running ==> r.message@ == "Transaction "@ + decimal(id as nat) + " is already running"@,
        e is AlreadyCancelled ==> r.message@ == "Transaction "@ + decimal(id as nat)
            + " is already cancelled"@,
        e is NotOwner ==> r.message@ == "Not the owner of this transaction"@,
{
    lemma_error(r);
}

/// A check that nobody answered is told to have timed out, for its transaction.
pub proof fn law_time_out_is_told(id: u64, e: ServiceError)
    requires
        call_ensures(auth_timed_out, (id,), e),
    ensures
        e.kind == ErrorKind::TimedOut,
        e.message@ == "Authorization for transaction "@ + decimal(id as nat) + " timed out"@,
{
    lemma_error(e);
}

} // verus!
