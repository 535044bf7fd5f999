//! Exiting: what is refused, and when the service can exit.
use vstd::prelude::*;

use crate::clock::Instant;
use crate::error::{ErrorKind, ServiceError};
use crate::shutdown::{begin_activity, decide_exit, grace_left, Exit};

verus! {

/// Work is admitted exactly if its lock was got and the service is not to exit. Without the lock
/// it is told that other work is going on, else why the service exits.
pub proof fn law_work_is_admitted_unless_exiting(
    lock_taken: bool,
    exit: Exit,
    pending: bool,
    reason: &'static str,
    r: Result<(), ServiceError>,
)
    requires
        call_ensures(Exit::pending, (&exit,), pending),
        call_ensures(Exit::reason, (&exit,), reason),
        call_ensures(begin_activity, (lock_taken, &exit), r),
    ensures
        r is Ok <==> lock_taken && !pending,
        r is Err ==> r->Err_0.kind == ErrorKind::Failed,
        !lock_taken ==> r->Err_0.message@ == "Another task is already running!"@,
        lock_taken && pending ==> r->Err_0.message@ == reason@,
{
    if r is Err {
        assert(r->Err_0@ == (r->Err_0.kind, r->Err_0.message@));
    }
}

/// A service that was just started neither is to exit nor can.
pub proof fn law_new_service_stays(exit: Exit, pending: bool, ready: bool)
    requires
        call_ensures(<Exit as Default>::default, (), exit),
        call_ensures(Exit::pending, (&exit,), pending),
        call_ensures(Exit::ready, (&exit,), ready),
    ensures
        !pending,
        !ready,
{
}

/// Once a replacement was noted the service is to exit, for that reason, whatever was noted
/// before. Whether it can exit does not change.
pub proof fn law_replacement_is_noted(
    exit: &mut Exit,
    pending: bool,
    reason: &'static str,
    before: bool,
    after: bool,
)
    requires
        call_ensures(Exit::mark_replaced, (exit,), ()),
        call_ensures(Exit::pending, (&*final(exit),), pending),
        call_ensures(Exit::reason, (&*final(exit),), reason),
        call_ensures(Exit::ready, (&*old(exit),), before),
        call_ensures(Exit::ready, (&*final(exit),), after),
    ensures
        pending,
        reason@ == "The service is restarting to pick up an update"@,
        after == before,
{
}

/// Once an order to stop was noted the service is to exit. The reason is that order if nothing
/// was noted before, else what it was before. Whether it can exit does not change.
pub proof fn law_order_to_stop_is_noted(
    exit: &mut Exit,
    was_pending: bool,
    old_reason: &'static str,
    pending: bool,
    reason: &'static str,
    before: bool,
    after: bool,
)
    requires
        call_ensures(Exit::mark_stopping, (exit,), ()),
        call_ensures(Exit::pending, (&*old(exit),), was_pending),
        call_ensures(Exit::reason, (&*old(exit),), old_reason),
        call_ensures(Exit::pending, (&*final(exit),), pending),
        call_ensures(Exit::reason, (&*final(exit),), reason),
        call_ensures(Exit::ready, (&*old(exit),), before),
        call_ensures(Exit::ready, (&*final(exit),), after),
    ensures
        pending,
        !was_pending ==> reason@ == "The service is shutting down"@,
        was_pending ==> reason@ == old_reason@,
        after == before,
{
}

/// The service can exit once nothing goes on: neither package work nor a refresh. That stays, and
/// why it exits does not change.
pub proof fn law_idle_service_can_exit(
    run_free: bool,
    refresh_free: bool,
    exit: &mut Exit,
    decided: bool,
    before: bool,
    after: bool,
    was_pending: bool,
    pending: bool,
    old_reason: &'static str,
    reason: &'static str,
)
    requires
        call_ensures(decide_exit, (run_free, refresh_free, exit), decided),
        call_ensures(Exit::ready, (&*old(exit),), before),
        call_ensures(Exit::ready, (&*final(exit),), after),
        call_ensures(Exit::pending, (&*old(exit),), was_pending),
        call_ensures(Exit::pending, (&*final(exit),), pending),
        call_ensures(Exit::reason, (&*old(exit),), old_reason),
        call_ensures(Exit::reason, (&*final(exit),), reason),
    ensures
        decided <==> run_free && refresh_free,
        after <==> before || (run_free && refresh_free),
        pending == was_pending,
        reason@ == old_reason@,
{
}

/// An exit waits until its deadline, and not at all without one or after it.
pub proof fn law_exit_waits_until_its_deadline(deadline: Option<Instant>, now: Instant, d: u64)
    requires
        call_ensures(grace_left, (deadline, now), d),
    ensures
        deadline is None ==> d == 0,
        deadline is Some && now.nanos >= deadline->0.nanos ==> d == 0,
        deadline is Some && now.nanos < deadline->0.nanos ==> now.nanos + d == deadline->0.nanos,
{
}

} // verus!
