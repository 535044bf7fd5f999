//! Exiting in two steps: first no new work is admitted, then the work that was admitted
//! ends.
use vstd::prelude::*;

use crate::clock::{Instant, SECOND};
use crate::error::{answer, ErrorKind, ServiceError};

verus! {

/// How long an exit waits for what is still going on, in nanoseconds.
pub const SHUTDOWN_GRACE: u64 = 30 * SECOND;

/// Why the service exits.
#[derive(Clone, Copy, Debug, PartialEq, Eq, Structural)]
pub enum Trigger {
    /// It does not.
    Running,
    /// Its binary was replaced.
    Replaced,
    /// It was told to stop.
    Stopping,
}

/// Whether the service is to exit, and whether it can.
pub struct Exit {
    trigger: Trigger,
    exit_ready: bool,
}

impl Default for Exit {
    fn default() -> (e: Exit)
        ensures
            e.trigger() == Trigger::Running,
            !e.is_ready(),
    {
        Exit { trigger: Trigger::Running, exit_ready: false }
    }
}

/// The reason that is given for a trigger. Without one, nobody asks.
pub open spec fn reason_of(trigger: Trigger) -> Seq<char> {
    match trigger {
        Trigger::Replaced => Exit::REASON@,
        Trigger::Stopping => Exit::STOPPING_REASON@,
        Trigger::Running => Exit::STOPPING_REASON@,
    }
}

/// What the trigger is after a replacement was noted.
pub open spec fn after_replaced(t: Trigger) -> Trigger {
    Trigger::Replaced
}

/// What the trigger is after an order to stop was noted.
pub open spec fn after_stopping(t: Trigger) -> Trigger {
    if t == Trigger::Running {
        Trigger::Stopping
    } else {
        t
    }
}

impl Exit {
    /// Why new work is refused after the binary was replaced.
    pub const REASON: &'static str = "The service is restarting to pick up an update";

    /// Why new work is refused after the service was told to stop.
    pub const STOPPING_REASON: &'static str = "The service is shutting down";

    pub closed spec fn trigger(self) -> Trigger {
        self.trigger
    }

    /// The work that was admitted has ended.
    pub closed spec fn is_ready(self) -> bool {
        self.exit_ready
    }

    /// Whether the service is to exit. A request asks this once it holds the lock for its
    /// work.
    pub fn pending(&self) -> (b: bool)
        ensures
            b == (self.trigger() != Trigger::Running),
    {
        self.trigger != Trigger::Running
    }

    /// Why new work is refused.
    pub fn reason(&self) -> (s: &'static str)
        ensures
            s@ == reason_of(self.trigger()),
    {
        match self.trigger {
            Trigger::Replaced => Self::REASON,
            Trigger::Stopping => Self::STOPPING_REASON,
            Trigger::Running => Self::STOPPING_REASON,
        }
    }

    /// Notes that the binary was replaced.
    pub fn mark_replaced(&mut self)
        ensures
            final(self).trigger() == after_replaced(old(self).trigger()),
            final(self).is_ready() == old(self).is_ready(),
    {
        self.trigger = Trigger::Replaced;
    }

    /// Notes that the service was told to stop. A replacement that was noted stays noted.
    pub fn mark_stopping(&mut self)
        ensures
            final(self).trigger() == after_stopping(old(self).trigger()),
            final(self).is_ready() == old(self).is_ready(),
    {
        if self.trigger == Trigger::Running {
            self.trigger = Trigger::Stopping;
        }
    }

    /// Whether the service can exit.
    pub fn ready(&self) -> (b: bool)
        ensures
            b == self.is_ready(),
    {
        self.exit_ready
    }

    fn notify_exit(&mut self)
        ensures
            final(self).is_ready(),
            final(self).trigger() == old(self).trigger(),
    {
        self.exit_ready = true;
    }
}

/// Lets the service exit if it is idle: if neither the lock for package operations nor
/// the one for the index is held. The caller holds both while this is called.
pub fn decide_exit(run_free: bool, refresh_free: bool, exit: &mut Exit) -> (decided: bool)
    ensures
        decided == (run_free && refresh_free),
        final(exit).trigger() == old(exit).trigger(),
        final(exit).is_ready() == (old(exit).is_ready() || decided),
{
    if !run_free {
        return false;
    }
    if !refresh_free {
        return false;
    }
    exit.notify_exit();
    true
}

/// What a request for work is answered: it is admitted if it got the lock for its work
/// and the service is not to exit.
pub open spec fn admission(lock_taken: bool, trigger: Trigger) -> Result<
    (),
    (ErrorKind, Seq<char>),
> {
    if !lock_taken {
        Err((ErrorKind::Failed, "Another task is already running!"@))
    } else if trigger != Trigger::Running {
        Err((ErrorKind::Failed, reason_of(trigger)))
    } else {
        Ok(())
    }
}

/// Admits work, or refuses it. The lock for the work is tried first.
pub fn begin_activity(lock_taken: bool, exit: &Exit) -> (r: Result<(), ServiceError>)
    ensures
        answer(r) == admission(lock_taken, exit.trigger()),
{
    if !lock_taken {
        return Err(ServiceError::new(ErrorKind::Failed, "Another task is already running!"));
    }
    if exit.pending() {
        return Err(ServiceError::new(ErrorKind::Failed, exit.reason()));
    }
    Ok(())
}

/// How much longer an exit waits. Without a deadline it does not wait.
pub fn grace_left(deadline: Option<Instant>, now: Instant) -> (d: u64)
    ensures
        d == match deadline {
            Some(t) => t.since(now),
            None => 0,
        },
{
    match deadline {
        Some(t) => t.saturating_duration_since(now),
        None => 0,
    }
}

/// Once a replacement was noted, that is the reason given, whichever came first.
pub proof fn law_replacement_wins(t: Trigger)
    ensures
        reason_of(after_stopping(after_replaced(t))) == Exit::REASON@,
        reason_of(after_replaced(after_stopping(t))) == Exit::REASON@,
{
}

/// Once either was noted, work is refused from then on, whether or not its lock was got.
pub proof fn law_no_work_after_trigger(t: Trigger, lock_taken: bool)
    ensures
        admission(lock_taken, after_replaced(t)) is Err,
        admission(lock_taken, after_stopping(t)) is Err,
{
}

/// The service at work: whether the lock for package operations and the one for the index
/// are held, what was noted, and whether it can exit.
pub struct Activity {
    pub run_held: bool,
    pub refresh_held: bool,
    pub trigger: Trigger,
    pub ready: bool,
}

/// Something that happens to the service.
pub enum ActivityMove {
    /// A request for package work.
    Request,
    /// Package work ends.
    WorkEnds,
    /// A request for the index.
    Refresh,
    /// A refresh ends.
    RefreshEnds,
    /// The binary is replaced.
    Replaced,
    /// The service is told to stop.
    Stopping,
    /// After either was noted, it is asked whether the service can exit.
    Decide,
}

/// What a move makes of the service: work starts only if its lock is free and it is
/// admitted, a refresh only as long as the service cannot exit, and the service can exit only
/// if both locks are free.
pub open spec fn after_move(a: Activity, mv: ActivityMove) -> Activity {
    match mv {
        ActivityMove::Request => Activity {
            run_held: a.run_held || admission(!a.run_held, a.trigger) is Ok,
            ..a
        },
        ActivityMove::WorkEnds => Activity { run_held: false, ..a },
        ActivityMove::Refresh => Activity {
            refresh_held: a.refresh_held || !a.ready,
            ..a
        },
        ActivityMove::RefreshEnds => Activity { refresh_held: false, ..a },
        ActivityMove::Replaced => Activity { trigger: after_replaced(a.trigger), ..a },
        ActivityMove::Stopping => Activity { trigger: after_stopping(a.trigger), ..a },
        ActivityMove::Decide => Activity {
            ready: a.ready || (a.trigger != Trigger::Running && !a.run_held && !a.refresh_held),
            ..a
        },
    }
}

/// What the service is after some moves.
pub open spec fn after_moves(a: Activity, moves: Seq<ActivityMove>) -> Activity
    decreases moves.len(),
{
    if moves.len() == 0 {
        a
    } else {
        after_move(after_moves(a, moves.drop_last()), moves.last())
    }
}

/// Once the service can exit nothing is going on in it, and nothing begins any more,
/// whatever happens: what was admitted has ended, and all else is refused.
pub proof fn law_idle_once_ready(a: Activity, moves: Seq<ActivityMove>)
    requires
        !a.ready,
    ensures
        after_moves(a, moves).ready ==> {
            &&& after_moves(a, moves).trigger != Trigger::Running
            &&& !after_moves(a, moves).run_held
            &&& !after_moves(a, moves).refresh_held
        },
    decreases moves.len(),
{
    if moves.len() > 0 {
        law_idle_once_ready(a, moves.drop_last());
    }
}

/// Work that was admitted ends in full: as long as it goes on, a refresh of the index that
/// belongs to it may begin, whatever was noted meanwhile.
pub proof fn law_admitted_work_may_refresh(a: Activity, moves: Seq<ActivityMove>)
    requires
        !a.ready,
        after_moves(a, moves).run_held,
    ensures
        !after_moves(a, moves).ready,
        after_move(after_moves(a, moves), ActivityMove::Refresh).refresh_held,
{
    law_idle_once_ready(a, moves);
}

} // verus!
