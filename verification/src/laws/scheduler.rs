//! The scheduler: who gets in, in which order transactions are executed, who gets out, and what
//! is told of them.
use vstd::prelude::*;

use crate::transaction::events::TaskFailure;
use crate::transaction::types::{
    CancelError, EnqueueError, TransactionEvent, TransactionRole, TransactionState,
    TransactionStateEvent,
};
use crate::transaction::{
    lemma_position, owned_by, position, told_all, NextStep, Transaction, TransactionInfo,
    TransactionManager,
};

verus! {

/// How many of the transactions are a user's.
pub open spec fn count_of<T>(s: Seq<Transaction<T>>, uid: u32) -> nat {
    s.filter(|t: Transaction<T>| t.uid == uid).len()
}

pub proof fn lemma_count<T>(s: Seq<Transaction<T>>, uid: u32)
    ensures
        owned_by(s, uid) == count_of(s, uid),
    decreases s.len(),
{
    reveal(Seq::filter);
    if s.len() > 0 {
        lemma_count(s.drop_last(), uid);
    }
}

/// How many transactions are queued and running.
pub open spec fn busy<T>(m: TransactionManager<T>) -> nat {
    if m.running() is Some {
        m.queued().len() + 1
    } else {
        m.queued().len()
    }
}

/// Nothing in the scheduler differs.
pub open spec fn nothing_changed<T>(a: TransactionManager<T>, b: TransactionManager<T>) -> bool {
    &&& a.queued() == b.queued()
    &&& a.running() == b.running()
    &&& a.max_queued() == b.max_queued()
    &&& a.max_per_uid() == b.max_per_uid()
}

/// A new scheduler is empty, and holds 64 transactions, 8 of them queued by one user.
pub proof fn law_new_scheduler_is_empty<T>(m: TransactionManager<T>)
    requires
        call_ensures(TransactionManager::<T>::new, (), m),
    ensures
        m.queued().len() == 0,
        m.running() is None,
        m.max_queued() == 64,
        m.max_per_uid() == 8,
{
}

/// A scheduler has the limits that it was made with.
pub proof fn law_limits_are_those_given<T>(
    max_queued: usize,
    max_per_uid: usize,
    m: TransactionManager<T>,
)
    requires
        call_ensures(TransactionManager::<T>::with_limits, (max_queued, max_per_uid), m),
    ensures
        m.queued().len() == 0,
        m.running() is None,
        m.max_queued() == max_queued,
        m.max_per_uid() == max_per_uid,
{
}

/// The transaction waits, with all that it was queued with.
pub open spec fn waits_with<T>(
    t: Transaction<T>,
    id: u64,
    role: TransactionRole,
    caller: String,
    uid: u32,
    task: T,
) -> bool {
    &&& t.id == id
    &&& t.role == role
    &&& t.state == TransactionState::Queued
    &&& !t.cancelled
    &&& t.caller@ == caller@
    &&& t.uid == uid
    &&& t.task == Some(task)
}

/// What queueing comes to: it succeeds exactly if there is a place in the scheduler and one left
/// for the user. Then the transaction stands behind all others and is told to be queued. If it is
/// refused it is told which limit stood against it, and leaves no trace.
pub open spec fn queueing_comes_to<T>(
    a: TransactionManager<T>,
    id: u64,
    role: TransactionRole,
    caller: String,
    uid: u32,
    task: T,
    b: TransactionManager<T>,
    r: Result<TransactionStateEvent, EnqueueError>,
) -> bool {
    &&& r is Ok <==> busy(a) < a.max_queued() && count_of(a.queued(), uid) < a.max_per_uid()
    &&& r is Err ==> nothing_changed(a, b)
    &&& r is Err ==> (r->Err_0 is QueueFull <==> busy(a) >= a.max_queued())
    &&& r is Ok ==> {
        &&& r->Ok_0.transaction_id == id
        &&& r->Ok_0.role == role
        &&& r->Ok_0.state == TransactionState::Queued
        &&& b.queued().len() == a.queued().len() + 1
        &&& forall|i: int|
            0 <= i < a.queued().len() ==> #[trigger] b.queued()[i] == a.queued()[i]
        &&& waits_with(b.queued()[a.queued().len() as int], id, role, caller, uid, task)
        &&& b.running() == a.running()
        &&& b.max_queued() == a.max_queued()
        &&& b.max_per_uid() == a.max_per_uid()
    }
}

/// Queueing succeeds exactly if the limits allow it, and puts the transaction behind all others.
pub proof fn law_queueing_succeeds_within_the_limits<T>(
    m: &mut TransactionManager<T>,
    id: u64,
    role: TransactionRole,
    caller: String,
    uid: u32,
    created_at: u64,
    task: T,
    r: Result<TransactionStateEvent, EnqueueError>,
)
    requires
        call_ensures(
            TransactionManager::<T>::enqueue_at,
            (m, id, role, caller, uid, created_at, task),
            r,
        ),
    ensures
        queueing_comes_to(*old(m), id, role, caller, uid, task, *final(m), r),
        r is Ok ==> final(m).queued()[old(m).queued().len() as int].created_at == created_at,
{
    lemma_count(old(m).queued(), uid);
}

/// The same holds of a transaction that is created now.
pub proof fn law_queueing_now_succeeds_within_the_limits<T>(
    m: &mut TransactionManager<T>,
    id: u64,
    role: TransactionRole,
    caller: String,
    uid: u32,
    task: T,
    r: Result<TransactionStateEvent, EnqueueError>,
)
    requires
        call_ensures(TransactionManager::<T>::enqueue, (m, id, role, caller, uid, task), r),
    ensures
        queueing_comes_to(*old(m), id, role, caller, uid, task, *final(m), r),
{
    lemma_count(old(m).queued(), uid);
}

/// The first transaction with the id stands at `p`.
pub open spec fn stands_first_at<T>(s: Seq<Transaction<T>>, id: u64, p: int) -> bool {
    &&& 0 <= p < s.len()
    &&& s[p].id == id
    &&& forall|i: int| 0 <= i < p ==> (#[trigger] s[i]).id != id
}

pub proof fn lemma_stands_first<T>(s: Seq<Transaction<T>>, id: u64, p: int)
    requires
        stands_first_at(s, id, p),
    ensures
        position(s, id) == p,
        crate::transaction::has_id(s, id),
{
    assert(s[p].id == id);
    lemma_position(s, id);
}

/// Whoever queued a transaction takes it out again, wherever it stands, and so does root. It
/// leaves its place, it is told to be cancelled, with all that belongs to it, and nothing else
/// changes.
pub proof fn law_cancelling_succeeds_at_any_place<T>(
    m: &mut TransactionManager<T>,
    id: u64,
    uid: u32,
    p: int,
    r: Result<Transaction<T>, CancelError>,
)
    requires
        call_ensures(TransactionManager::<T>::cancel, (m, id, uid), r),
        stands_first_at(old(m).queued(), id, p),
        old(m).queued()[p].state == TransactionState::Queued,
        uid == 0 || uid == old(m).queued()[p].uid,
    ensures
        r is Ok,
        r->Ok_0.id == id,
        r->Ok_0.state == TransactionState::Cancelled,
        r->Ok_0.cancelled,
        r->Ok_0.role == old(m).queued()[p].role,
        r->Ok_0.caller@ == old(m).queued()[p].caller@,
        r->Ok_0.uid == old(m).queued()[p].uid,
        r->Ok_0.created_at == old(m).queued()[p].created_at,
        r->Ok_0.task == old(m).queued()[p].task,
        final(m).queued().len() == old(m).queued().len() - 1,
        forall|i: int| 0 <= i < p ==> #[trigger] final(m).queued()[i] == old(m).queued()[i],
        forall|i: int|
            p < i < old(m).queued().len() ==> final(m).queued()[i - 1] == #[trigger] old(m).queued()[i],
        final(m).running() == old(m).running(),
        final(m).max_queued() == old(m).max_queued(),
        final(m).max_per_uid() == old(m).max_per_uid(),
{
    lemma_stands_first(old(m).queued(), id, p);
}

/// Nobody but its owner and root takes a transaction out, and trying changes nothing.
pub proof fn law_cancelling_is_for_the_owner<T>(
    m: &mut TransactionManager<T>,
    id: u64,
    uid: u32,
    p: int,
    r: Result<Transaction<T>, CancelError>,
)
    requires
        call_ensures(TransactionManager::<T>::cancel, (m, id, uid), r),
        stands_first_at(old(m).queued(), id, p),
        uid != 0,
        uid != old(m).queued()[p].uid,
    ensures
        r is Err,
        r->Err_0 is NotOwner,
        nothing_changed(*old(m), *final(m)),
{
    lemma_stands_first(old(m).queued(), id, p);
}

/// What is not queued is not taken out, by anybody: it is told to be running if it is, else not
/// to be found. Nothing changes.
pub proof fn law_only_the_queued_is_cancelled<T>(
    m: &mut TransactionManager<T>,
    id: u64,
    uid: u32,
    r: Result<Transaction<T>, CancelError>,
)
    requires
        call_ensures(TransactionManager::<T>::cancel, (m, id, uid), r),
        forall|i: int| 0 <= i < old(m).queued().len() ==> (#[trigger] old(m).queued()[i]).id != id,
    ensures
        r is Err,
        r->Err_0 is Running <==> old(m).running() is Some && old(m).running()->0.id == id,
        r->Err_0 is NotFound <==> !(old(m).running() is Some && old(m).running()->0.id == id),
        nothing_changed(*old(m), *final(m)),
{
}

/// The runner starts the transaction that came first as soon as nothing runs: it hands out its
/// task and tells that it is running, and the others move up.
pub proof fn law_first_is_started<T>(m: &mut TransactionManager<T>, r: NextStep<T>)
    requires
        call_ensures(TransactionManager::<T>::next_step, (m,), r),
        old(m).running() is None,
        old(m).queued().len() > 0,
        !old(m).queued()[0].cancelled,
    ensures
        r is Start,
        r->task == old(m).queued()[0].task,
        r->event.transaction_id == old(m).queued()[0].id,
        r->event.role == old(m).queued()[0].role,
        r->event.state == TransactionState::Running,
        final(m).running() is Some,
        final(m).running()->0.id == old(m).queued()[0].id,
        final(m).running()->0.role == old(m).queued()[0].role,
        final(m).running()->0.state == TransactionState::Running,
        final(m).running()->0.caller@ == old(m).queued()[0].caller@,
        final(m).running()->0.uid == old(m).queued()[0].uid,
        final(m).running()->0.created_at == old(m).queued()[0].created_at,
        final(m).queued().len() == old(m).queued().len() - 1,
        forall|i: int|
            0 < i < old(m).queued().len() ==> final(m).queued()[i - 1] == #[trigger] old(m).queued()[i],
        final(m).max_queued() == old(m).max_queued(),
        final(m).max_per_uid() == old(m).max_per_uid(),
{
}

/// Nothing is started while something runs, nor if nothing is queued; and nothing changes.
pub proof fn law_runner_waits<T>(m: &mut TransactionManager<T>, r: NextStep<T>)
    requires
        call_ensures(TransactionManager::<T>::next_step, (m,), r),
        old(m).running() is Some || old(m).queued().len() == 0,
    ensures
        r is Wait,
        nothing_changed(*old(m), *final(m)),
{
}

/// A transaction that was cancelled is not started.
pub proof fn law_cancelled_is_not_started<T>(m: &mut TransactionManager<T>, r: NextStep<T>)
    requires
        call_ensures(TransactionManager::<T>::next_step, (m,), r),
        old(m).queued().len() > 0,
        old(m).queued()[0].cancelled,
    ensures
        r !is Start,
        final(m).running() == old(m).running(),
{
}

/// What ran has ended: it is told to be finished, and its place is free. The queue stays.
pub proof fn law_ended_is_finished<T>(m: &mut TransactionManager<T>, r: Option<Transaction<T>>)
    requires
        call_ensures(TransactionManager::<T>::finish, (m,), r),
    ensures
        r is Some <==> old(m).running() is Some,
        r is Some ==> {
            &&& r->0.id == old(m).running()->0.id
            &&& r->0.role == old(m).running()->0.role
            &&& r->0.state == TransactionState::Finished
        },
        final(m).running() is None,
        final(m).queued() == old(m).queued(),
        final(m).max_queued() == old(m).max_queued(),
        final(m).max_per_uid() == old(m).max_per_uid(),
{
}

/// A task that died is reported, for the transaction that runs and no other, with how it died.
pub proof fn law_dead_task_is_reported<T>(
    m: TransactionManager<T>,
    how: TaskFailure,
    r: Option<TransactionEvent>,
)
    requires
        call_ensures(TransactionManager::<T>::failure_event, (&m, how), r),
    ensures
        r is Some <==> m.running() is Some,
        r is Some ==> {
            &&& r->0 is Result
            &&& r->0->Result_0.transaction_id == m.running()->0.id
            &&& r->0->Result_0.role == m.running()->0.role
            &&& r->0->Result_0.result is None
            &&& r->0->Result_0.status is Failed
            &&& how matches TaskFailure::Panicked(Some(message))
                ==> r->0->Result_0.status->Failed_0@ == message@
        },
{
}

/// A transaction is in the scheduler exactly if it is queued or runs.
pub proof fn law_scheduler_knows_what_it_holds<T>(m: TransactionManager<T>, id: u64, b: bool)
    requires
        call_ensures(TransactionManager::<T>::contains, (&m, id), b),
    ensures
        b <==> (exists|i: int| 0 <= i < m.queued().len() && (#[trigger] m.queued()[i]).id == id) || (
        m.running() is Some && m.running()->0.id == id),
{
}

/// The line tells what the transaction is.
pub open spec fn tells_of<T>(line: TransactionInfo, t: Transaction<T>) -> bool {
    &&& line.transaction_id == t.id
    &&& line.role == t.role
    &&& line.state == t.state
    &&& line.caller@ == t.caller@
    &&& line.uid == t.uid
    &&& line.created_at == t.created_at
}

/// The line tells of a transaction that is queued or runs.
pub open spec fn tells_of_one<T>(line: TransactionInfo, m: TransactionManager<T>) -> bool {
    ||| exists|k: int| 0 <= k < m.queued().len() && tells_of(line, #[trigger] m.queued()[k])
    ||| m.running() is Some && tells_of(line, m.running()->0)
}

/// A line of the list tells of the transaction.
pub open spec fn is_in_list<T>(t: Transaction<T>, list: Seq<TransactionInfo>) -> bool {
    exists|i: int| 0 <= i < list.len() && tells_of(#[trigger] list[i], t)
}

/// The list has a line for each transaction that is queued or runs, and no other; a line tells
/// all of its transaction; and the lines are in the order of the ids.
pub proof fn law_list_has_a_line_for_each<T>(m: TransactionManager<T>, list: Vec<TransactionInfo>)
    requires
        call_ensures(TransactionManager::<T>::list, (&m,), list),
    ensures
        list@.len() == busy(m),
        forall|i: int| 0 <= i < list@.len() ==> tells_of_one(#[trigger] list@[i], m),
        forall|k: int| 0 <= k < m.queued().len() ==> is_in_list(#[trigger] m.queued()[k], list@),
        m.running() is Some ==> is_in_list(m.running()->0, list@),
        forall|i: int, j: int|
            0 <= i < j < list@.len() ==> (#[trigger] list@[i]).transaction_id <= (
            #[trigger] list@[j]).transaction_id,
{
    let told = told_all(m.queued(), m.running());
    let n = m.queued().len() as int;
    told.to_multiset_ensures();
    list@.to_multiset_ensures();
    assert forall|k: int| 0 <= k < n implies tells_of(#[trigger] told[k], m.queued()[k]) by {}
    assert(m.running() is Some ==> tells_of(told[n], m.running()->0));
    assert forall|i: int| 0 <= i < list@.len() implies tells_of_one(#[trigger] list@[i], m) by {
        assert(list@.contains(list@[i]));
        assert(told.to_multiset().count(list@[i]) > 0);
        let k = choose|k: int| 0 <= k < told.len() && told[k] == list@[i];
        if k < n {
            assert(tells_of(list@[i], m.queued()[k]));
        }
    }
    assert forall|k: int| 0 <= k < told.len() implies list@.contains(#[trigger] told[k]) by {
        assert(told.contains(told[k]));
        assert(list@.to_multiset().count(told[k]) > 0);
    }
    assert forall|k: int| 0 <= k < m.queued().len() implies is_in_list(
        #[trigger] m.queued()[k],
        list@,
    ) by {
        assert(list@.contains(told[k]));
        let i = choose|i: int| 0 <= i < list@.len() && list@[i] == told[k];
        assert(tells_of(list@[i], m.queued()[k]));
    }
    if m.running() is Some {
        assert(list@.contains(told[n]));
        let i = choose|i: int| 0 <= i < list@.len() && list@[i] == told[n];
        assert(tells_of(list@[i], m.running()->0));
    }
    assert forall|i: int, j: int| 0 <= i < j < list@.len() implies (
    #[trigger] list@[i]).transaction_id <= (#[trigger] list@[j]).transaction_id by {
        assert(!crate::sorting::Ranked::precedes(&list@[j], &list@[i]));
    }
}

/// What is announced of a transaction is its id, its role and its state.
pub proof fn law_announcement_names_the_transaction<T>(t: Transaction<T>, e: TransactionStateEvent)
    requires
        call_ensures(Transaction::<T>::event, (&t,), e),
    ensures
        e.transaction_id == t.id,
        e.role == t.role,
        e.state == t.state,
{
}

/// A line on a transaction tells all of it.
pub proof fn law_line_tells_all<T>(t: Transaction<T>, line: TransactionInfo)
    requires
        call_ensures(Transaction::<T>::info, (&t,), line),
    ensures
        tells_of(line, t),
{
}

} // verus!
