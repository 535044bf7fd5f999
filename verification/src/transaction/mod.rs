//! The scheduler: transactions stand in one queue and are executed one at a time,
//! first come first served. Only a queued transaction can be cancelled: one that
//! runs may be changing the system.
use vstd::prelude::*;
use std::collections::VecDeque;

use crate::clock::now_epoch;
use crate::sorting::{stable_sort, Ranked};
use crate::transaction::events::{detail_of, panic_detail, status_text, TaskFailure};
use crate::transaction::types::{
    CancelError, EnqueueError, ResultReport, TaskStatus, TransactionEvent, TransactionRole,
    TransactionState, TransactionStateEvent,
};

pub mod events;
pub mod laws;
pub mod limits;
pub mod live;
pub mod object;
pub mod reclaim;
pub mod registry_laws;
pub mod types;

verus! {

/// A transaction. `task` is what is needed to execute it, announce it and clean up
/// behind it.
pub struct Transaction<T> {
    pub id: u64,
    pub role: TransactionRole,
    pub state: TransactionState,
    pub cancelled: bool,
    pub caller: String,
    pub uid: u32,
    pub created_at: u64,
    pub task: Option<T>,
}

/// What is told of a transaction.
#[derive(Clone, Debug)]
pub struct TransactionInfo {
    pub transaction_id: u64,
    pub role: TransactionRole,
    pub state: TransactionState,
    pub caller: String,
    pub uid: u32,
    pub created_at: u64,
}

impl Ranked for TransactionInfo {
    open spec fn precedes(&self, other: &Self) -> bool {
        self.transaction_id < other.transaction_id
    }

    proof fn precedes_asymmetric(a: &Self, b: &Self) {
    }

    proof fn precedes_transitive(a: &Self, b: &Self, c: &Self) {
    }

    fn is_before(&self, other: &Self) -> bool {
        self.transaction_id < other.transaction_id
    }
}

impl<T> Transaction<T> {
    /// What is told of the transaction.
    pub open spec fn told(self) -> TransactionInfo {
        TransactionInfo {
            transaction_id: self.id,
            role: self.role,
            state: self.state,
            caller: self.caller,
            uid: self.uid,
            created_at: self.created_at,
        }
    }

    pub fn info(&self) -> (i: TransactionInfo)
        ensures
            i == self.told(),
    {
        TransactionInfo {
            transaction_id: self.id,
            role: self.role,
            state: self.state,
            caller: self.caller.clone(),
            uid: self.uid,
            created_at: self.created_at,
        }
    }

    /// The announcement of the transaction's state.
    pub open spec fn announced(self) -> TransactionStateEvent {
        TransactionStateEvent { transaction_id: self.id, role: self.role, state: self.state }
    }

    pub fn event(&self) -> (e: TransactionStateEvent)
        ensures
            e == self.announced(),
    {
        TransactionStateEvent { transaction_id: self.id, role: self.role, state: self.state }
    }
}

/// How many of the transactions are a user's.
pub open spec fn owned_by<T>(s: Seq<Transaction<T>>, uid: u32) -> nat
    decreases s.len(),
{
    if s.len() == 0 {
        0
    } else {
        owned_by(s.drop_last(), uid) + if s.last().uid == uid {
            1nat
        } else {
            0nat
        }
    }
}

/// Where the first transaction with an id stands, or `s.len()`.
pub open spec fn position<T>(s: Seq<Transaction<T>>, id: u64) -> nat
    decreases s.len(),
{
    if s.len() == 0 {
        0
    } else if s[0].id == id {
        0
    } else {
        1 + position(s.drop_first(), id)
    }
}

/// Some transaction has the id.
pub open spec fn has_id<T>(s: Seq<Transaction<T>>, id: u64) -> bool {
    exists|i: int| 0 <= i < s.len() && (#[trigger] s[i]).id == id
}

/// What the queue tells, followed by what the running slot tells.
pub open spec fn told_all<T>(queue: Seq<Transaction<T>>, running: Option<Transaction<T>>) -> Seq<
    TransactionInfo,
> {
    let queued = queue.map_values(|t: Transaction<T>| t.told());
    match running {
        Some(t) => queued.push(t.told()),
        None => queued,
    }
}

proof fn lemma_owned_by_add<T>(a: Seq<Transaction<T>>, b: Seq<Transaction<T>>, uid: u32)
    ensures
        owned_by(a + b, uid) == owned_by(a, uid) + owned_by(b, uid),
    decreases b.len(),
{
    if b.len() == 0 {
        assert(a + b =~= a);
    } else {
        assert((a + b).drop_last() =~= a + b.drop_last());
        lemma_owned_by_add(a, b.drop_last(), uid);
    }
}

/// Taking a transaction out takes one from its owner's count and none from others'.
pub proof fn lemma_owned_by_remove<T>(s: Seq<Transaction<T>>, p: int, uid: u32)
    requires
        0 <= p < s.len(),
    ensures
        owned_by(s.remove(p), uid) + (if s[p].uid == uid {
            1nat
        } else {
            0nat
        }) == owned_by(s, uid),
{
    let head = s.subrange(0, p);
    let one = seq![s[p]];
    let tail = s.subrange(p + 1, s.len() as int);
    assert(s =~= head + one + tail);
    assert(s.remove(p) =~= head + tail);
    lemma_owned_by_add(head, tail, uid);
    lemma_owned_by_add(head + one, tail, uid);
    lemma_owned_by_add(head, one, uid);
    reveal_with_fuel(owned_by, 2);
    assert(one.drop_last() =~= Seq::<Transaction<T>>::empty());
}

proof fn lemma_owned_by_prefix<T>(s: Seq<Transaction<T>>, n: int, uid: u32)
    requires
        0 <= n < s.len(),
    ensures
        owned_by(s.subrange(0, n + 1), uid) == owned_by(s.subrange(0, n), uid) + if s[n].uid == uid {
            1nat
        } else {
            0nat
        },
{
    assert(s.subrange(0, n + 1).drop_last() =~= s.subrange(0, n));
}

/// `position` is where the first transaction with the id stands.
pub proof fn lemma_position<T>(s: Seq<Transaction<T>>, id: u64)
    ensures
        position(s, id) <= s.len(),
        position(s, id) < s.len() <==> has_id(s, id),
        position(s, id) < s.len() ==> s[position(s, id) as int].id == id,
        forall|i: int| 0 <= i < position(s, id) ==> (#[trigger] s[i]).id != id,
    decreases s.len(),
{
    if s.len() > 0 {
        let rest = s.drop_first();
        lemma_position(rest, id);
        if s[0].id != id {
            assert forall|i: int| 0 <= i < position(s, id) implies (#[trigger] s[i]).id != id by {
                if i > 0 {
                    assert(s[i] == rest[i - 1]);
                }
            }
            if has_id(s, id) {
                let i = choose|i: int| 0 <= i < s.len() && (#[trigger] s[i]).id == id;
                assert(rest[i - 1].id == id);
            }
            if has_id(rest, id) {
                let i = choose|i: int| 0 <= i < rest.len() && (#[trigger] rest[i]).id == id;
                assert(s[i + 1].id == id);
            }
        } else {
            assert(has_id(s, id));
        }
    }
}

/// A transaction with the id stands at `p` and none before it: `p` is its position.
proof fn lemma_position_is<T>(s: Seq<Transaction<T>>, id: u64, p: int)
    requires
        0 <= p < s.len(),
        s[p].id == id,
        forall|i: int| 0 <= i < p ==> (#[trigger] s[i]).id != id,
    ensures
        position(s, id) == p,
{
    lemma_position(s, id);
    assert(has_id(s, id));
}

/// What the runner does next.
pub enum NextStep<T> {
    /// The queue is empty.
    Wait,
    /// This transaction was cancelled: clean up behind it.
    Discard(Transaction<T>),
    /// The transaction is in the running slot: announce it and execute its task.
    Start { event: TransactionStateEvent, task: Option<T> },
}

/// The event reports that the transaction's task died, and how: then nobody else reports.
pub open spec fn reports_failure<T>(
    tx: Transaction<T>,
    how: TaskFailure,
    event: TransactionEvent,
) -> bool {
    &&& event is Result
    &&& event->Result_0.transaction_id == tx.id
    &&& event->Result_0.role == tx.role
    &&& status_text(event->Result_0.status) == Some(detail_of(how))
    &&& event->Result_0.result is None
}

/// The queue and the running slot, with their limits.
pub struct TransactionManager<T> {
    queue: VecDeque<Transaction<T>>,
    running: Option<Transaction<T>>,
    max_queued: usize,
    max_per_uid: usize,
}

impl<T> TransactionManager<T> {
    /// The queued transactions, the first come first.
    pub closed spec fn queued(self) -> Seq<Transaction<T>> {
        self.queue@
    }

    /// The transaction that is being executed.
    pub closed spec fn running(self) -> Option<Transaction<T>> {
        self.running
    }

    /// How many transactions may be queued and running.
    pub closed spec fn max_queued(self) -> nat {
        self.max_queued as nat
    }

    /// How many of one user's transactions may be queued.
    pub closed spec fn max_per_uid(self) -> nat {
        self.max_per_uid as nat
    }

    /// How many transactions are queued and running.
    pub open spec fn in_flight(self) -> nat {
        self.queued().len() + if self.running() is Some {
            1nat
        } else {
            0nat
        }
    }

    /// The transaction is queued or running.
    pub open spec fn holds(self, id: u64) -> bool {
        has_id(self.queued(), id) || (self.running() is Some && self.running()->0.id == id)
    }

    /// The limits are kept, what is queued waits, and what is in the slot runs.
    pub open spec fn wf(self) -> bool {
        &&& self.in_flight() <= self.max_queued()
        &&& forall|uid: u32| #[trigger] owned_by(self.queued(), uid) <= self.max_per_uid()
        &&& forall|i: int|
            0 <= i < self.queued().len() ==> (#[trigger] self.queued()[i]).state
                == TransactionState::Queued && !self.queued()[i].cancelled
        &&& self.running() is Some ==> self.running()->0.state == TransactionState::Running
    }

    pub fn new() -> (m: Self)
        ensures
            m.wf(),
            m.queued() == Seq::<Transaction<T>>::empty(),
            m.running() is None,
            m.max_queued() == 64,
            m.max_per_uid() == 8,
    {
        Self::with_limits(64, 8)
    }

    pub fn with_limits(max_queued: usize, max_per_uid: usize) -> (m: Self)
        ensures
            m.wf(),
            m.queued() == Seq::<Transaction<T>>::empty(),
            m.running() is None,
            m.max_queued() == max_queued,
            m.max_per_uid() == max_per_uid,
    {
        TransactionManager { queue: VecDeque::new(), running: None, max_queued, max_per_uid }
    }

    /// Why a transaction of this user would not be queued now.
    pub open spec fn refusal(self, uid: u32) -> Option<EnqueueError> {
        if self.in_flight() >= self.max_queued() {
            Some(EnqueueError::QueueFull)
        } else if owned_by(self.queued(), uid) >= self.max_per_uid() {
            Some(EnqueueError::QuotaExceeded)
        } else {
            None
        }
    }

    /// A transaction as it is queued.
    pub open spec fn waiting(
        id: u64,
        role: TransactionRole,
        caller: String,
        uid: u32,
        created_at: u64,
        task: T,
    ) -> Transaction<T> {
        Transaction {
            id,
            role,
            state: TransactionState::Queued,
            cancelled: false,
            caller,
            uid,
            created_at,
            task: Some(task),
        }
    }

    /// The limits stay as they were.
    pub open spec fn same_limits(self, other: Self) -> bool {
        self.max_queued() == other.max_queued() && self.max_per_uid() == other.max_per_uid()
    }

    /// The same transactions are queued and running, under the same limits.
    pub open spec fn same_as(self, other: Self) -> bool {
        &&& self.same_limits(other)
        &&& self.queued() == other.queued()
        &&& self.running() == other.running()
    }

    /// What queueing `tx` does and answers: it is refused and leaves no trace, or
    /// stands behind all others.
    pub open spec fn enqueues(
        pre: Self,
        tx: Transaction<T>,
        post: Self,
        r: Result<TransactionStateEvent, EnqueueError>,
    ) -> bool {
        match pre.refusal(tx.uid) {
            Some(e) => r == Err::<TransactionStateEvent, _>(e) && post.same_as(pre),
            None => {
                &&& r == Ok::<_, EnqueueError>(tx.announced())
                &&& post.same_limits(pre)
                &&& post.queued() == pre.queued().push(tx)
                &&& post.running() == pre.running()
            },
        }
    }

    /// What cancelling does and answers: the first queued transaction with the id
    /// leaves the queue, if it is waiting and the user may take it out. A refusal changes
    /// nothing.
    pub open spec fn cancels(
        pre: Self,
        id: u64,
        uid: u32,
        post: Self,
        r: Result<Transaction<T>, CancelError>,
    ) -> bool {
        let p = position(pre.queued(), id) as int;
        let tx = pre.queued()[p];
        if !has_id(pre.queued(), id) {
            &&& post.same_as(pre)
            &&& r == Err::<Transaction<T>, _>(
                if pre.running() is Some && pre.running()->0.id == id {
                    CancelError::Running
                } else {
                    CancelError::NotFound
                },
            )
        } else if uid != 0 && tx.uid != uid {
            &&& post.same_as(pre)
            &&& r == Err::<Transaction<T>, _>(CancelError::NotOwner)
        } else if tx.state != TransactionState::Queued {
            &&& post.same_as(pre)
            &&& r == Err::<Transaction<T>, _>(
                match tx.state {
                    TransactionState::Running => CancelError::Running,
                    TransactionState::Cancelled => CancelError::AlreadyCancelled,
                    _ => CancelError::NotFound,
                },
            )
        } else {
            &&& post.same_limits(pre)
            &&& post.running() == pre.running()
            &&& post.queued() == pre.queued().remove(p)
            &&& r == Ok::<_, CancelError>(
                Transaction { state: TransactionState::Cancelled, cancelled: true, ..tx },
            )
        }
    }

    /// What the runner's next step does and is: the transaction that came first moves
    /// to the running slot, if the slot is free.
    pub open spec fn steps(pre: Self, post: Self, r: NextStep<T>) -> bool {
        if pre.running() is Some || pre.queued().len() == 0 {
            r is Wait && post.same_as(pre)
        } else {
            let tx = pre.queued()[0];
            let started = Transaction { state: TransactionState::Running, task: None::<T>, ..tx };
            &&& post.same_limits(pre)
            &&& post.queued() == pre.queued().drop_first()
            &&& if tx.cancelled {
                r == NextStep::Discard(tx) && post.running() is None
            } else {
                &&& r == (NextStep::Start { event: started.announced(), task: tx.task })
                &&& post.running() == Some(started)
            }
        }
    }

    /// What ending the running transaction does and hands back.
    pub open spec fn finishes(pre: Self, post: Self, r: Option<Transaction<T>>) -> bool {
        &&& post.same_limits(pre)
        &&& post.queued() == pre.queued()
        &&& post.running() is None
        &&& r == match pre.running() {
            Some(tx) => Some(Transaction { state: TransactionState::Finished, ..tx }),
            None => None,
        }
    }

    /// Queues a transaction that was created at `created_at`, behind all others. The
    /// event is to be announced before the runner can take the transaction. What is
    /// refused leaves no trace.
    pub fn enqueue_at(
        &mut self,
        id: u64,
        role: TransactionRole,
        caller: String,
        uid: u32,
        created_at: u64,
        task: T,
    ) -> (r: Result<TransactionStateEvent, EnqueueError>)
        ensures
            old(self).wf() ==> final(self).wf(),
            Self::enqueues(
                *old(self),
                Self::waiting(id, role, caller, uid, created_at, task),
                *final(self),
                r,
            ),
    {
        let full = if self.running.is_some() {
            self.max_queued == 0 || self.queue.len() >= self.max_queued - 1
        } else {
            self.queue.len() >= self.max_queued
        };
        if full {
            return Err(EnqueueError::QueueFull);
        }
        let mut per_uid: usize = 0;
        let mut i: usize = 0;
        while i < self.queue.len()
            invariant
                i <= self.queue.len(),
                per_uid <= i,
                per_uid == owned_by(self.queue@.subrange(0, i as int), uid),
                *self == *old(self),
            decreases self.queue.len() - i,
        {
            proof {
                lemma_owned_by_prefix(self.queue@, i as int, uid);
            }
            if self.queue[i].uid == uid {
                per_uid = per_uid + 1;
            }
            i = i + 1;
        }
        proof {
            assert(self.queue@.subrange(0, self.queue.len() as int) =~= self.queue@);
        }
        if per_uid >= self.max_per_uid {
            return Err(EnqueueError::QuotaExceeded);
        }
        let tx = Transaction {
            id,
            role,
            state: TransactionState::Queued,
            cancelled: false,
            caller,
            uid,
            created_at,
            task: Some(task),
        };
        let event = tx.event();
        self.queue.push_back(tx);
        proof {
            let before = old(self).queue@;
            assert(self.queue@.drop_last() =~= before);
            assert(forall|u: u32| #[trigger] owned_by(self.queue@, u) == owned_by(before, u) + if u == uid {
                1nat
            } else {
                0nat
            });
        }
        Ok(event)
    }

    /// Queues a transaction that is created now.
    pub fn enqueue(
        &mut self,
        id: u64,
        role: TransactionRole,
        caller: String,
        uid: u32,
        task: T,
    ) -> (r: Result<TransactionStateEvent, EnqueueError>)
        ensures
            old(self).wf() ==> final(self).wf(),
            exists|created_at: u64|
                Self::enqueues(
                    *old(self),
                    #[trigger] Self::waiting(id, role, caller, uid, created_at, task),
                    *final(self),
                    r,
                ),
    {
        let created_at: u64 = now_epoch();
        let r = self.enqueue_at(id, role, caller, uid, created_at, task);
        proof {
            let tx = Self::waiting(id, role, caller, uid, created_at, task);
            assert(Self::enqueues(*old(self), tx, *self, r));
        }
        r
    }

    /// Cancels a queued transaction: it leaves the queue at once and is never executed.
    /// Only its owner and root may do so. What is handed back is to be announced and
    /// cleaned up behind.
    pub fn cancel(&mut self, id: u64, uid: u32) -> (r: Result<Transaction<T>, CancelError>)
        ensures
            old(self).wf() ==> final(self).wf(),
            Self::cancels(*old(self), id, uid, *final(self), r),
    {
        let ghost before = self.queue@;
        let mut i: usize = 0;
        while i < self.queue.len() && self.queue[i].id != id
            invariant
                i <= self.queue.len(),
                forall|j: int| 0 <= j < i ==> (#[trigger] self.queue@[j]).id != id,
                *self == *old(self),
            decreases self.queue.len() - i,
        {
            i = i + 1;
        }
        if i >= self.queue.len() {
            if let Some(t) = &self.running {
                if t.id == id {
                    return Err(CancelError::Running);
                }
            }
            return Err(CancelError::NotFound);
        }
        proof {
            lemma_position_is(before, id, i as int);
            assert(has_id(before, id));
        }
        if uid != 0 && self.queue[i].uid != uid {
            return Err(CancelError::NotOwner);
        }
        match self.queue[i].state {
            TransactionState::Queued => {},
            TransactionState::Running => {
                return Err(CancelError::Running);
            },
            TransactionState::Cancelled => {
                return Err(CancelError::AlreadyCancelled);
            },
            TransactionState::Finished => {
                return Err(CancelError::NotFound);
            },
        }
        let mut tx = self.queue.remove(i).unwrap();
        proof {
            assert forall|u: u32| #[trigger] owned_by(self.queue@, u) <= owned_by(before, u) by {
                lemma_owned_by_remove(before, i as int, u);
            }
            if old(self).wf() {
                assert forall|j: int| 0 <= j < self.queue@.len() implies (
                #[trigger] self.queue@[j]).state == TransactionState::Queued
                    && !self.queue@[j].cancelled by {
                    let k = if j < i {
                        j
                    } else {
                        j + 1
                    };
                    assert(self.queue@[j] == old(self).queued()[k]);
                }
                assert forall|u: u32| #[trigger]
                    owned_by(self.queued(), u) <= self.max_per_uid() by {
                    assert(owned_by(old(self).queued(), u) <= self.max_per_uid());
                }
            }
        }
        tx.state = TransactionState::Cancelled;
        tx.cancelled = true;
        Ok(tx)
    }

    /// All transactions that are queued or running, by id.
    pub fn list(&self) -> (r: Vec<TransactionInfo>)
        ensures
            crate::sorting::stably_sorted(told_all(self.queued(), self.running()), r@),
    {
        let mut out: Vec<TransactionInfo> = Vec::new();
        let mut i: usize = 0;
        while i < self.queue.len()
            invariant
                i <= self.queue.len(),
                out@ == self.queue@.subrange(0, i as int).map_values(|t: Transaction<T>| t.told()),
            decreases self.queue.len() - i,
        {
            out.push(self.queue[i].info());
            i = i + 1;
            proof {
                assert(out@ =~= self.queue@.subrange(0, i as int).map_values(
                    |t: Transaction<T>| t.told(),
                ));
            }
        }
        proof {
            assert(self.queue@.subrange(0, self.queue.len() as int) =~= self.queue@);
        }
        if let Some(t) = &self.running {
            out.push(t.info());
        }
        stable_sort(out)
    }

    /// Whether the transaction is queued or running.
    pub fn contains(&self, id: u64) -> (b: bool)
        ensures
            b == self.holds(id),
    {
        let mut i: usize = 0;
        while i < self.queue.len()
            invariant
                i <= self.queue.len(),
                forall|j: int| 0 <= j < i ==> (#[trigger] self.queue@[j]).id != id,
            decreases self.queue.len() - i,
        {
            if self.queue[i].id == id {
                assert(has_id(self.queue@, id));
                return true;
            }
            i = i + 1;
        }
        match &self.running {
            Some(t) => t.id == id,
            None => false,
        }
    }

    /// What the runner does next: it takes the transaction that came first. While one
    /// is running, no other is started.
    pub fn next_step(&mut self) -> (r: NextStep<T>)
        ensures
            old(self).wf() ==> final(self).wf() && r !is Discard,
            Self::steps(*old(self), *final(self), r),
    {
        if self.running.is_some() {
            return NextStep::Wait;
        }
        let ghost before = self.queue@;
        match self.queue.pop_front() {
            None => {
                NextStep::Wait
            },
            Some(mut tx) => {
                proof {
                    assert(self.queue@ =~= before.drop_first());
                    assert(before.drop_first() =~= before.remove(0));
                    assert forall|u: u32| #[trigger]
                        owned_by(self.queue@, u) <= owned_by(before, u) by {
                        lemma_owned_by_remove(before, 0, u);
                    }
                    if old(self).wf() {
                        assert(before[0] == old(self).queued()[0]);
                        assert forall|j: int| 0 <= j < self.queue@.len() implies (
                        #[trigger] self.queue@[j]).state == TransactionState::Queued
                            && !self.queue@[j].cancelled by {
                            assert(self.queue@[j] == old(self).queued()[j + 1]);
                        }
                        assert forall|u: u32| #[trigger]
                            owned_by(self.queued(), u) <= self.max_per_uid() by {
                            assert(owned_by(old(self).queued(), u) <= self.max_per_uid());
                        }
                    }
                }
                if tx.cancelled {
                    return NextStep::Discard(tx);
                }
                let task = tx.task.take();
                tx.state = TransactionState::Running;
                let event = tx.event();
                self.running = Some(tx);
                NextStep::Start { event, task }
            },
        }
    }

    /// The running transaction has ended: its slot is free. What is handed back is to
    /// be announced and cleaned up behind.
    pub fn finish(&mut self) -> (r: Option<Transaction<T>>)
        ensures
            old(self).wf() ==> final(self).wf(),
            Self::finishes(*old(self), *final(self), r),
    {
        match self.running.take() {
            Some(mut tx) => {
                tx.state = TransactionState::Finished;
                Some(tx)
            },
            None => None,
        }
    }

    /// The report on the running transaction, whose task died as `how` says. It is to be
    /// announced while the transaction is still in its slot, before its final state.
    pub fn failure_event(&self, how: TaskFailure) -> (r: Option<TransactionEvent>)
        ensures
            r is Some <==> self.running() is Some,
            r is Some ==> reports_failure(self.running()->0, how, r->0),
    {
        match &self.running {
            None => None,
            Some(tx) => {
                let report = ResultReport {
                    transaction_id: tx.id,
                    role: tx.role,
                    status: TaskStatus::Failed(panic_detail(how)),
                    result: None,
                };
                Some(TransactionEvent::Result(report))
            },
        }
    }
}

} // verus!
