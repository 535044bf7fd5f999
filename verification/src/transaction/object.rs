//! The object of one transaction. An operation on it claims it, awaits authorization
//! where it needs one, and queues its transaction; the object can be cancelled and
//! destroyed. Only the connection that created it may use it.
use std::collections::HashMap;
use vstd::prelude::*;

use crate::clock::Instant;
use crate::error::{answer, ErrorKind, ServiceError};
use crate::text::{decimal, numbered, same_text, text_of};
use crate::transaction::live::{
    already_started, already_started_error, check_claim_still_active, claim_check, claim_given_up,
    claim_waits, entries, next_cancellation_id, next_claim_generation, no_longer_exists,
    no_longer_exists_error, numbered_id, remove_for_destroy, rollback_claim_if_not_enqueued,
    rolled_back, IdCounter, LiveTransaction, LiveView, StartedClaim,
};
use crate::transaction::types::{
    CancelError, EnqueueError, TransactionRole, TransactionStateEvent,
};
use crate::transaction::{Transaction, TransactionManager};

verus! {

broadcast use vstd::std_specs::hash::group_hash_axioms;

/// The action that an operation has to be authorized for.
pub open spec fn action_of(role: TransactionRole) -> Option<Seq<char>> {
    match role {
        TransactionRole::Refresh => Some("io.aosc.amo.refresh"@),
        TransactionRole::ApplyChanges => Some("io.aosc.Amo.apply.run"@),
        TransactionRole::Simulate => None,
        TransactionRole::UpdatesList => None,
    }
}

pub fn auth_action(role: TransactionRole) -> (action: Option<&'static str>)
    ensures
        action is Some <==> action_of(role) is Some,
        action is Some ==> action->0@ == action_of(role)->0,
{
    match role {
        TransactionRole::Refresh => Some("io.aosc.amo.refresh"),
        TransactionRole::ApplyChanges => Some("io.aosc.Amo.apply.run"),
        TransactionRole::Simulate => None,
        TransactionRole::UpdatesList => None,
    }
}

/// The answer to a connection that did not create the object.
pub open spec fn not_the_owner() -> (ErrorKind, Seq<char>) {
    (ErrorKind::AccessDenied, "Not the owner of this transaction"@)
}

/// The answer to a refused queueing.
pub open spec fn refused(e: EnqueueError) -> (ErrorKind, Seq<char>) {
    match e {
        EnqueueError::QueueFull => (
            ErrorKind::LimitsExceeded,
            "Transaction queue is full, try again later"@,
        ),
        EnqueueError::QuotaExceeded => (
            ErrorKind::LimitsExceeded,
            "Too many queued transactions from this user"@,
        ),
    }
}

pub fn enqueue_error(e: EnqueueError) -> (r: ServiceError)
    ensures
        r@ == refused(e),
{
    match e {
        EnqueueError::QueueFull => ServiceError::new(
            ErrorKind::LimitsExceeded,
            "Transaction queue is full, try again later",
        ),
        EnqueueError::QuotaExceeded => ServiceError::new(
            ErrorKind::LimitsExceeded,
            "Too many queued transactions from this user",
        ),
    }
}

/// The answer to a refused cancellation.
pub open spec fn not_cancelled(e: CancelError, id: u64) -> (ErrorKind, Seq<char>) {
    match e {
        CancelError::NotFound => (
            ErrorKind::UnknownObject,
            "Transaction "@ + decimal(id as nat) + " not found"@,
        ),
        CancelError::NotOwner => not_the_owner(),
        CancelError::Running => (
            ErrorKind::Failed,
            "Transaction "@ + decimal(id as nat) + " is already running"@,
        ),
        CancelError::AlreadyCancelled => (
            ErrorKind::Failed,
            "Transaction "@ + decimal(id as nat) + " is already cancelled"@,
        ),
    }
}

pub fn cancel_error(e: CancelError, id: u64) -> (r: ServiceError)
    ensures
        r@ == not_cancelled(e, id),
{
    match e {
        CancelError::NotFound => ServiceError {
            kind: ErrorKind::UnknownObject,
            message: numbered("Transaction ", id, " not found"),
        },
        CancelError::NotOwner => ServiceError::new(
            ErrorKind::AccessDenied,
            "Not the owner of this transaction",
        ),
        CancelError::Running => ServiceError {
            kind: ErrorKind::Failed,
            message: numbered("Transaction ", id, " is already running"),
        },
        CancelError::AlreadyCancelled => ServiceError {
            kind: ErrorKind::Failed,
            message: numbered("Transaction ", id, " is already cancelled"),
        },
    }
}

/// The answer to a call whose authorization took too long.
pub fn auth_timed_out(id: u64) -> (r: ServiceError)
    ensures
        r@ == (
            ErrorKind::TimedOut,
            "Authorization for transaction "@ + decimal(id as nat) + " timed out"@,
        ),
{
    ServiceError {
        kind: ErrorKind::TimedOut,
        message: numbered("Authorization for transaction ", id, " timed out"),
    }
}

/// Why an authorization check did not let a call go on.
pub enum AuthFailure<E> {
    /// Nobody answered in time.
    TimedOut(ServiceError),
    /// The check itself failed.
    Failed(E),
}

/// What came of an authorization check.
#[derive(Clone, Copy, Debug, PartialEq, Eq, Structural)]
pub enum AuthVerdict {
    Granted,
    /// Nobody answered in time: the check is still open.
    TimedOut,
    /// The check failed in any other way.
    Refused,
}

/// What the call does after the authorization check.
#[derive(Clone, Copy, Debug, PartialEq, Eq, Structural)]
pub enum AuthStep {
    /// Queue the transaction.
    Proceed,
    /// Answer with the check's error; the claim is given up. Call the check off before, if
    /// so told.
    GiveUp { call_off: bool },
}

/// An authorization check that a claim has to pass.
pub struct AuthRequest {
    pub action: &'static str,
    pub cancellation_id: String,
}

/// A claim, and the authorization check that it has to pass.
pub struct Claimed {
    pub claim: StartedClaim,
    pub auth: Option<AuthRequest>,
}

/// What came of a cancellation.
pub enum Cancelled<T> {
    /// The claim was given up; its authorization check is to be called off.
    Claim(Option<String>),
    /// The transaction left the queue; it is to be announced and cleaned up behind.
    Queued(Transaction<T>),
}

/// The object of one transaction: its id, and the connection and the user that created
/// it.
pub struct TransactionObject {
    pub id: u64,
    pub sender: String,
    pub uid: u32,
}

/// The entry of an object as it is claimed.
pub open spec fn claimed(
    t: LiveView,
    now: Instant,
    generation: Seq<char>,
    cancellation_id: Option<Seq<char>>,
) -> LiveView {
    LiveView {
        started: true,
        claimed_at: Some(now),
        claim_generation: generation,
        cancellation_id,
        dormant_since: None,
        ..t
    }
}

/// Why an object cannot be claimed.
pub open spec fn claim_refused(m: Map<u64, LiveView>, id: u64) -> Option<(ErrorKind, Seq<char>)> {
    if !m.contains_key(id) {
        Some(no_longer_exists(id))
    } else if m[id].started {
        Some(already_started(id))
    } else {
        None
    }
}

impl TransactionObject {
    fn owner_check(&self, caller: &str) -> (r: Result<(), ServiceError>)
        ensures
            answer(r) == if caller@ == self.sender@ {
                Ok(())
            } else {
                Err(not_the_owner())
            },
    {
        if same_text(caller, self.sender.as_str()) {
            Ok(())
        } else {
            Err(ServiceError::new(ErrorKind::AccessDenied, "Not the owner of this transaction"))
        }
    }

    /// Claims the object for an operation: it is started once. Every claim has a name of
    /// its own, and, where it has to be authorized, so has the check.
    pub fn claim(
        &self,
        caller: &str,
        role: TransactionRole,
        live: &mut HashMap<u64, LiveTransaction>,
        generations: &mut IdCounter,
        cancellations: &mut IdCounter,
        now: Instant,
    ) -> (r: Result<Claimed, ServiceError>)
        ensures
            caller@ != self.sender@ ==> {
                &&& r is Err && r->Err_0@ == not_the_owner()
                &&& final(live)@ == old(live)@
                &&& *final(generations) == *old(generations)
                &&& *final(cancellations) == *old(cancellations)
            },
            caller@ == self.sender@ ==> {
                let m = entries(old(live)@);
                let generation = numbered_id(self.id, old(generations).next());
                let cid = if action_of(role) is Some {
                    Some(numbered_id(self.id, old(cancellations).next()))
                } else {
                    None
                };
                &&& IdCounter::counted_on(*old(generations), *final(generations))
                &&& if action_of(role) is Some {
                    IdCounter::counted_on(*old(cancellations), *final(cancellations))
                } else {
                    *final(cancellations) == *old(cancellations)
                }
                &&& match claim_refused(m, self.id) {
                    Some(e) => r is Err && r->Err_0@ == e && entries(final(live)@) == m,
                    None => {
                        &&& r is Ok
                        &&& entries(final(live)@) == m.insert(
                            self.id,
                            claimed(m[self.id], now, generation, cid),
                        )
                        &&& r->Ok_0.claim.id() == self.id
                        &&& r->Ok_0.claim.generation() == generation
                        &&& r->Ok_0.claim.armed()
                        &&& r->Ok_0.auth is Some <==> action_of(role) is Some
                        &&& r->Ok_0.auth is Some ==> {
                            &&& r->Ok_0.auth->0.action@ == action_of(role)->0
                            &&& r->Ok_0.auth->0.cancellation_id@ == cid->0
                        }
                    },
                }
            },
    {
        if let Err(e) = self.owner_check(caller) {
            return Err(e);
        }
        let generation = next_claim_generation(generations, self.id);
        let auth = match auth_action(role) {
            Some(action) => Some(
                AuthRequest { action, cancellation_id: next_cancellation_id(cancellations, self.id) },
            ),
            None => None,
        };
        match live.remove(&self.id) {
            None => {
                assert(entries(live@) =~= entries(old(live)@));
                Err(no_longer_exists_error(self.id))
            },
            Some(mut t) => {
                if t.started {
                    live.insert(self.id, t);
                    assert(entries(live@) =~= entries(old(live)@));
                    return Err(already_started_error(self.id));
                }
                t.started = true;
                t.claimed_at = Some(now);
                t.claim_generation = generation.clone();
                t.cancellation_id = match &auth {
                    Some(a) => Some(a.cancellation_id.clone()),
                    None => None,
                };
                t.dormant_since = None;
                let ghost cid = text_of(t.cancellation_id);
                live.insert(self.id, t);
                proof {
                    let m = entries(old(live)@);
                    assert(entries(live@) =~= m.insert(
                        self.id,
                        claimed(m[self.id], now, generation@, cid),
                    ));
                }
                Ok(Claimed { claim: StartedClaim::new(self.id, generation), auth })
            },
        }
    }

    /// What waiting for the authorization check came to: its answer, or `None` if there was
    /// none in time.
    pub fn await_auth<E>(id: u64, reply: Option<Result<(), E>>) -> (r: Result<(), AuthFailure<E>>)
        ensures
            match reply {
                Some(Ok(())) => r == Ok::<(), AuthFailure<E>>(()),
                Some(Err(e)) => r == Err::<(), _>(AuthFailure::Failed(e)),
                None => r is Err && r->Err_0 is TimedOut && r->Err_0->TimedOut_0@ == (
                    ErrorKind::TimedOut,
                    "Authorization for transaction "@ + decimal(id as nat) + " timed out"@,
                ),
            },
    {
        match reply {
            Some(Ok(())) => Ok(()),
            Some(Err(e)) => Err(AuthFailure::Failed(e)),
            None => Err(AuthFailure::TimedOut(auth_timed_out(id))),
        }
    }

    /// What the call does once the authorization check has ended. A claim that was not
    /// authorized is given up.
    pub fn after_auth(
        &self,
        verdict: AuthVerdict,
        claim: &mut StartedClaim,
        live: &mut HashMap<u64, LiveTransaction>,
        now: Instant,
    ) -> (step: AuthStep)
        ensures
            step == match verdict {
                AuthVerdict::Granted => AuthStep::Proceed,
                AuthVerdict::TimedOut => AuthStep::GiveUp { call_off: true },
                AuthVerdict::Refused => AuthStep::GiveUp { call_off: false },
            },
            final(claim).id() == old(claim).id(),
            final(claim).generation() == old(claim).generation(),
            final(claim).armed() == (old(claim).armed() && verdict is Granted),
            entries(final(live)@) == if old(claim).armed() && verdict !is Granted {
                claim_given_up(
                    entries(old(live)@),
                    old(claim).id(),
                    old(claim).generation(),
                    now,
                )
            } else {
                entries(old(live)@)
            },
    {
        match verdict {
            AuthVerdict::Granted => AuthStep::Proceed,
            AuthVerdict::TimedOut => {
                claim.rollback(live, now);
                AuthStep::GiveUp { call_off: true }
            },
            AuthVerdict::Refused => {
                claim.rollback(live, now);
                AuthStep::GiveUp { call_off: false }
            },
        }
    }

    /// Queues the transaction of a claim that still stands, and marks its entry. If the
    /// claim does not stand any more, or queueing is refused, it is given up.
    pub fn enqueue<T>(
        &self,
        claim: &mut StartedClaim,
        role: TransactionRole,
        caller: String,
        uid: u32,
        created_at: u64,
        task: T,
        live: &mut HashMap<u64, LiveTransaction>,
        manager: &mut TransactionManager<T>,
        now: Instant,
    ) -> (r: Result<TransactionStateEvent, ServiceError>)
        ensures
            !final(claim).armed(),
            final(claim).id() == old(claim).id(),
            final(claim).generation() == old(claim).generation(),
            old(manager).wf() ==> final(manager).wf(),
            ({
                let m = entries(old(live)@);
                let given_up = if old(claim).armed() {
                    claim_given_up(m, old(claim).id(), old(claim).generation(), now)
                } else {
                    m
                };
                match claim_check(m, self.id, old(claim).generation()) {
                    Err(e) => {
                        &&& r is Err && r->Err_0@ == e
                        &&& entries(final(live)@) == given_up
                        &&& final(manager).same_as(*old(manager))
                    },
                    Ok(()) => {
                        let tx = TransactionManager::waiting(
                            self.id,
                            role,
                            caller,
                            uid,
                            created_at,
                            task,
                        );
                        match old(manager).refusal(uid) {
                            Some(e) => {
                                &&& r is Err && r->Err_0@ == refused(e)
                                &&& entries(final(live)@) == given_up
                                &&& final(manager).same_as(*old(manager))
                            },
                            None => {
                                &&& r == Ok::<_, ServiceError>(tx.announced())
                                &&& entries(final(live)@) == m.insert(
                                    self.id,
                                    LiveView { enqueued: true, ..m[self.id] },
                                )
                                &&& TransactionManager::enqueues(
                                    *old(manager),
                                    tx,
                                    *final(manager),
                                    Ok(tx.announced()),
                                )
                            },
                        }
                    },
                }
            }),
    {
        let ghost m = entries(live@);
        if let Err(e) = check_claim_still_active(live, self.id, claim.name()) {
            claim.rollback(live, now);
            return Err(e);
        }
        match manager.enqueue_at(self.id, role, caller, uid, created_at, task) {
            Ok(event) => {
                let mut t = live.remove(&self.id).unwrap();
                t.enqueued = true;
                live.insert(self.id, t);
                assert(entries(live@) =~= m.insert(
                    self.id,
                    LiveView { enqueued: true, ..m[self.id] },
                ));
                claim.commit();
                Ok(event)
            },
            Err(e) => {
                claim.rollback(live, now);
                Err(enqueue_error(e))
            },
        }
    }

    /// Cancels the object's transaction: a claim that is not queued is given up, a
    /// queued transaction leaves the queue.
    pub fn cancel<T>(
        &self,
        caller: &str,
        live: &mut HashMap<u64, LiveTransaction>,
        manager: &mut TransactionManager<T>,
        now: Instant,
    ) -> (r: Result<Cancelled<T>, ServiceError>)
        ensures
            old(manager).wf() ==> final(manager).wf(),
            ({
                let m = entries(old(live)@);
                if caller@ != self.sender@ {
                    &&& r is Err && r->Err_0@ == not_the_owner()
                    &&& entries(final(live)@) == m
                    &&& final(manager).same_as(*old(manager))
                } else if m.contains_key(self.id) && claim_waits(m[self.id], self.id, *old(manager)) {
                    &&& r is Ok && r->Ok_0 is Claim
                    &&& text_of(r->Ok_0->Claim_0) == m[self.id].cancellation_id
                    &&& entries(final(live)@) == m.insert(self.id, rolled_back(m[self.id], now))
                    &&& final(manager).same_as(*old(manager))
                } else {
                    &&& entries(final(live)@) == m
                    &&& match r {
                        Ok(c) => c is Queued && TransactionManager::cancels(
                            *old(manager),
                            self.id,
                            self.uid,
                            *final(manager),
                            Ok(c->Queued_0),
                        ),
                        Err(e) => exists|why: CancelError|
                            e@ == not_cancelled(why, self.id)
                                && #[trigger] TransactionManager::cancels(
                                *old(manager),
                                self.id,
                                self.uid,
                                *final(manager),
                                Err(why),
                            ),
                    }
                }
            }),
    {
        if let Err(e) = self.owner_check(caller) {
            return Err(e);
        }
        if let Some(outcome) = rollback_claim_if_not_enqueued(live, manager, self.id, now) {
            if outcome.rolled_back {
                return Ok(Cancelled::Claim(outcome.cancellation_id));
            }
        }
        match manager.cancel(self.id, self.uid) {
            Ok(tx) => Ok(Cancelled::Queued(tx)),
            Err(e) => Err(cancel_error(e, self.id)),
        }
    }

    /// Destroys the object, unless its transaction was handed to the scheduler. Hands back
    /// the id of an authorization check that is to be called off.
    pub fn destroy<T>(
        &self,
        caller: &str,
        live: &mut HashMap<u64, LiveTransaction>,
        manager: &TransactionManager<T>,
    ) -> (r: Result<Option<String>, ServiceError>)
        ensures
            ({
                let m = entries(old(live)@);
                if caller@ != self.sender@ {
                    r is Err && r->Err_0@ == not_the_owner() && entries(final(live)@) == m
                } else if !m.contains_key(self.id) {
                    r is Err && r->Err_0@ == no_longer_exists(self.id) && entries(final(live)@) == m
                } else if m[self.id].enqueued || manager.holds(self.id) {
                    r is Err && r->Err_0@ == already_started(self.id) && entries(final(live)@) == m
                } else {
                    r is Ok && text_of(r->Ok_0) == m[self.id].cancellation_id
                        && entries(final(live)@) == m.remove(self.id)
                }
            }),
    {
        if let Err(e) = self.owner_check(caller) {
            return Err(e);
        }
        remove_for_destroy(live, manager, self.id)
    }
}

} // verus!
