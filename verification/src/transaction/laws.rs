//! What holds of the scheduler across its operations.
use vstd::prelude::*;

use crate::sorting::{lemma_occurs_twice, stably_sorted};
use crate::transaction::events::TaskFailure;
use crate::transaction::types::{
    CancelError, EnqueueError, TransactionEvent, TransactionState, TransactionStateEvent,
};
use crate::transaction::{
    has_id, lemma_owned_by_remove, lemma_position, owned_by, position, reports_failure, told_all,
    NextStep, Transaction, TransactionInfo, TransactionManager,
};

verus! {

/// No two transactions that are queued or running have the same id.
pub open spec fn distinct_ids<T>(m: TransactionManager<T>) -> bool {
    &&& forall|i: int, j: int|
        0 <= i < j < m.queued().len() ==> (#[trigger] m.queued()[i]).id != (
        #[trigger] m.queued()[j]).id
    &&& m.running() is Some ==> !has_id(m.queued(), m.running()->0.id)
}

/// Something that the scheduler does, and its answer.
pub enum Move<T> {
    Enqueue(Transaction<T>, Result<TransactionStateEvent, EnqueueError>),
    Cancel(u64, u32, Result<Transaction<T>, CancelError>),
    Step(NextStep<T>),
    Report(TaskFailure, Option<TransactionEvent>),
    Finish(Option<Transaction<T>>),
}

/// The move leads from one state to the other.
pub open spec fn leads<T>(
    pre: TransactionManager<T>,
    mv: Move<T>,
    post: TransactionManager<T>,
) -> bool {
    match mv {
        Move::Enqueue(tx, r) => {
            &&& tx.state == TransactionState::Queued
            &&& !tx.cancelled
            &&& TransactionManager::enqueues(pre, tx, post, r)
        },
        Move::Cancel(id, uid, r) => TransactionManager::cancels(pre, id, uid, post, r),
        Move::Step(r) => TransactionManager::steps(pre, post, r),
        Move::Report(how, r) => {
            &&& post.same_as(pre)
            &&& r is Some <==> pre.running() is Some
            &&& r is Some ==> reports_failure(pre.running()->0, how, r->0)
        },
        Move::Finish(r) => TransactionManager::finishes(pre, post, r),
    }
}

/// The moves lead from each state to the next.
pub open spec fn is_history<T>(states: Seq<TransactionManager<T>>, moves: Seq<Move<T>>) -> bool {
    &&& states.len() == moves.len() + 1
    &&& forall|i: int|
        0 <= i < moves.len() ==> leads(states[i], #[trigger] moves[i], states[i + 1])
}

/// The move queues a transaction with this id.
pub open spec fn queues<T>(mv: Move<T>, id: u64) -> bool {
    mv matches Move::Enqueue(tx, _) && tx.id == id
}

/// The move starts the transaction with this id.
pub open spec fn starts<T>(mv: Move<T>, id: u64) -> bool {
    mv matches Move::Step(NextStep::Start { event, .. }) && event.transaction_id == id
}

/// Where the queue's transactions stood before the move: one may have been taken out, at
/// `p`, or one put in at the end.
proof fn lemma_queue_after<T>(pre: TransactionManager<T>, mv: Move<T>, post: TransactionManager<T>) -> (p:
    int)
    requires
        leads(pre, mv, post),
    ensures
        0 <= p <= pre.queued().len(),
        post.queued() == pre.queued() || (p < pre.queued().len() && post.queued()
            == pre.queued().remove(p)) || (mv is Enqueue && post.queued() == pre.queued().push(
            mv->Enqueue_0,
        )),
        post.running() == pre.running() || post.running() is None || (pre.queued().len() > 0 && p
            == 0 && post.queued() == pre.queued().remove(0) && post.running()->0.id
            == pre.queued()[0].id),
{
    match mv {
        Move::Enqueue(tx, r) => 0,
        Move::Cancel(id, uid, r) => {
            lemma_position(pre.queued(), id);
            position(pre.queued(), id) as int
        },
        Move::Step(r) => {
            assert(pre.queued().len() > 0 ==> pre.queued().drop_first() =~= pre.queued().remove(0));
            0
        },
        Move::Report(how, r) => 0,
        Move::Finish(r) => 0,
    }
}

/// Every move keeps the limits, and leaves waiting what is queued and running what is in
/// the slot.
pub proof fn law_moves_keep_limits<T>(
    pre: TransactionManager<T>,
    mv: Move<T>,
    post: TransactionManager<T>,
)
    requires
        pre.wf(),
        leads(pre, mv, post),
    ensures
        post.wf(),
{
    let p = lemma_queue_after(pre, mv, post);
    let a = pre.queued();
    let b = post.queued();
    assert forall|uid: u32| #[trigger] owned_by(b, uid) <= post.max_per_uid() by {
        assert(owned_by(a, uid) <= pre.max_per_uid());
        if b == a {
        } else if p < a.len() && b == a.remove(p) {
            lemma_owned_by_remove(a, p, uid);
        } else {
            assert(b.drop_last() =~= a);
        }
    }
    assert forall|i: int| 0 <= i < b.len() implies (#[trigger] b[i]).state
        == TransactionState::Queued && !b[i].cancelled by {
        if i < a.len() && b[i] == a[i] {
            assert(a[i].state == TransactionState::Queued && !a[i].cancelled);
        } else if i + 1 < a.len() && b[i] == a[i + 1] {
            assert(a[i + 1].state == TransactionState::Queued && !a[i + 1].cancelled);
        }
    }
}

/// However the scheduler is used, its limits are never exceeded.
pub proof fn law_limits_hold_always<T>(
    states: Seq<TransactionManager<T>>,
    moves: Seq<Move<T>>,
    n: int,
)
    requires
        is_history(states, moves),
        states[0].wf(),
        0 <= n < states.len(),
    ensures
        states[n].wf(),
    decreases n,
{
    if n > 0 {
        law_limits_hold_always(states, moves, n - 1);
        law_moves_keep_limits(states[n - 1], moves[n - 1], states[n]);
    }
}

/// The transaction `x` stands before `y` in the queue.
pub open spec fn stands_before<T>(m: TransactionManager<T>, x: u64, y: u64) -> bool {
    exists|i: int, j: int|
        0 <= i < j < m.queued().len() && (#[trigger] m.queued()[i]).id == x && (
        #[trigger] m.queued()[j]).id == y
}

proof fn lemma_order_kept<T>(
    pre: TransactionManager<T>,
    mv: Move<T>,
    post: TransactionManager<T>,
    x: u64,
    y: u64,
)
    requires
        distinct_ids(pre),
        leads(pre, mv, post),
        stands_before(pre, x, y),
        !queues(mv, x),
        !queues(mv, y),
        has_id(post.queued(), x),
        has_id(post.queued(), y),
    ensures
        stands_before(post, x, y),
{
    let p = lemma_queue_after(pre, mv, post);
    let a = pre.queued();
    let b = post.queued();
    let (i, j) = choose|i: int, j: int|
        0 <= i < j < a.len() && (#[trigger] a[i]).id == x && (#[trigger] a[j]).id == y;
    if p < a.len() && b == a.remove(p) && b != a {
        let u = choose|u: int| 0 <= u < b.len() && (#[trigger] b[u]).id == x;
        let v = choose|v: int| 0 <= v < b.len() && (#[trigger] b[v]).id == y;
        let k = if u < p {
            u
        } else {
            u + 1
        };
        let l = if v < p {
            v
        } else {
            v + 1
        };
        assert(b[u] == a[k] && b[v] == a[l]);
        assert(k == i && l == j);
        assert(b[u].id == x && b[v].id == y);
    } else {
        assert(b[i] == a[i] && b[j] == a[j]);
    }
}

/// First come, first served, over any time: if `x` stood before `y` in the queue, then by
/// the time `y` is started `x` is no longer queued.
pub proof fn law_no_overtaking<T>(
    states: Seq<TransactionManager<T>>,
    moves: Seq<Move<T>>,
    n: int,
    x: u64,
    y: u64,
)
    requires
        is_history(states, moves),
        distinct_ids(states[0]),
        forall|i: int|
            0 <= i < moves.len() ==> (#[trigger] moves[i] matches Move::Enqueue(tx, _)
                ==> !states[i].holds(tx.id) && tx.id != x && tx.id != y),
        stands_before(states[0], x, y),
        0 <= n < moves.len(),
        starts(moves[n], y),
    ensures
        !has_id(states[n].queued(), x),
{
    lemma_standing(states, moves, n, x, y);
    assert(leads(states[n], moves[n], states[n + 1]));
    let q = states[n].queued();
    assert(q[0].id == y);
    if has_id(q, x) {
        let (i, j) = choose|i: int, j: int|
            0 <= i < j < q.len() && (#[trigger] q[i]).id == x && (#[trigger] q[j]).id == y;
        assert(q[0].id == q[j].id);
    }
}

proof fn lemma_standing<T>(
    states: Seq<TransactionManager<T>>,
    moves: Seq<Move<T>>,
    n: int,
    x: u64,
    y: u64,
)
    requires
        is_history(states, moves),
        distinct_ids(states[0]),
        forall|i: int|
            0 <= i < moves.len() ==> (#[trigger] moves[i] matches Move::Enqueue(tx, _)
                ==> !states[i].holds(tx.id) && tx.id != x && tx.id != y),
        stands_before(states[0], x, y),
        0 <= n < states.len(),
    ensures
        distinct_ids(states[n]),
        has_id(states[n].queued(), x) && has_id(states[n].queued(), y) ==> stands_before(
            states[n],
            x,
            y,
        ),
    decreases n,
{
    if n > 0 {
        let pre = states[n - 1];
        let post = states[n];
        let mv = moves[n - 1];
        lemma_standing(states, moves, n - 1, x, y);
        assert(leads(pre, mv, post));
        law_ids_stay_distinct(pre, mv, post);
        if has_id(post.queued(), x) && has_id(post.queued(), y) {
            lemma_still_there(pre, mv, post, x);
            lemma_still_there(pre, mv, post, y);
            lemma_order_kept(pre, mv, post, x, y);
        }
    }
}

/// What is queued after a move that did not queue it was queued before.
proof fn lemma_still_there<T>(
    pre: TransactionManager<T>,
    mv: Move<T>,
    post: TransactionManager<T>,
    id: u64,
)
    requires
        leads(pre, mv, post),
        !queues(mv, id),
        has_id(post.queued(), id),
    ensures
        has_id(pre.queued(), id),
{
    let p = lemma_queue_after(pre, mv, post);
    let a = pre.queued();
    let b = post.queued();
    let i = choose|i: int| 0 <= i < b.len() && (#[trigger] b[i]).id == id;
    if i < a.len() && b[i] == a[i] {
        assert(a[i].id == id);
    } else if i + 1 < a.len() && b[i] == a[i + 1] {
        assert(a[i + 1].id == id);
    }
}

/// Where a transaction is.
pub enum Place {
    /// Neither queued nor running.
    Absent,
    Waiting,
    Running,
}

pub open spec fn place<T>(m: TransactionManager<T>, id: u64) -> Place {
    if has_id(m.queued(), id) {
        Place::Waiting
    } else if m.running() is Some && m.running()->0.id == id {
        Place::Running
    } else {
        Place::Absent
    }
}

/// The change of state that a move announces.
pub open spec fn announcement<T>(mv: Move<T>) -> Option<TransactionStateEvent> {
    match mv {
        Move::Enqueue(_, Ok(event)) => Some(event),
        Move::Cancel(_, _, Ok(tx)) => Some(tx.announced()),
        Move::Step(NextStep::Start { event, .. }) => Some(event),
        Move::Finish(Some(tx)) => Some(tx.announced()),
        _ => None,
    }
}

/// What is announced of a transaction is its life: it is announced as queued when it comes
/// in, as running when it leaves the queue to be executed, as finished when it has been
/// executed, and as cancelled when it leaves the queue without; and it goes nowhere
/// without an announcement.
pub proof fn law_announcements_tell_the_life<T>(
    pre: TransactionManager<T>,
    mv: Move<T>,
    post: TransactionManager<T>,
    id: u64,
)
    requires
        pre.wf(),
        distinct_ids(pre),
        leads(pre, mv, post),
        mv matches Move::Enqueue(tx, _) ==> !pre.holds(tx.id),
    ensures
        match announcement(mv) {
            Some(event) => {
                &&& event.transaction_id == id ==> match event.state {
                    TransactionState::Queued => place(pre, id) is Absent && place(post, id)
                        is Waiting,
                    TransactionState::Running => place(pre, id) is Waiting && place(post, id)
                        is Running,
                    TransactionState::Finished => place(pre, id) is Running && place(post, id)
                        is Absent,
                    TransactionState::Cancelled => place(pre, id) is Waiting && place(post, id)
                        is Absent,
                }
                &&& event.transaction_id != id ==> place(post, id) == place(pre, id)
            },
            None => place(post, id) == place(pre, id),
        },
{
    let p = lemma_queue_after(pre, mv, post);
    let a = pre.queued();
    let b = post.queued();
    law_ids_stay_distinct(pre, mv, post);
    if has_id(b, id) && !queues(mv, id) {
        lemma_still_there(pre, mv, post, id);
    }
    if has_id(a, id) {
        let i = choose|i: int| 0 <= i < a.len() && (#[trigger] a[i]).id == id;
        if b == a {
        } else if p < a.len() && b == a.remove(p) {
            if i < p {
                assert(b[i].id == id);
            } else if i > p {
                assert(b[i - 1].id == id);
            } else if has_id(b, id) {
                let k = choose|k: int| 0 <= k < b.len() && (#[trigger] b[k]).id == id;
                let l = if k < p {
                    k
                } else {
                    k + 1
                };
                assert(b[k] == a[l]);
            }
        } else {
            assert(b[i].id == id);
        }
    }
    match mv {
        Move::Enqueue(tx, Ok(event)) => {
            assert(b[b.len() - 1].id == tx.id);
        },
        Move::Cancel(cid, uid, r) => {
            lemma_position(a, cid);
        },
        Move::Step(r) => {
            if a.len() > 0 {
                assert(!a[0].cancelled);
                assert(has_id(a, a[0].id));
            }
        },
        _ => {},
    }
}

/// First come, first served: what is started is what came first, and the others keep
/// their order. Nothing is started while something runs.
pub proof fn law_first_come_first_served<T>(
    pre: TransactionManager<T>,
    post: TransactionManager<T>,
    r: NextStep<T>,
)
    requires
        TransactionManager::steps(pre, post, r),
    ensures
        r is Start ==> {
            &&& pre.running() is None
            &&& pre.queued().len() > 0
            &&& post.running() is Some
            &&& post.running()->0.id == pre.queued()[0].id
            &&& post.queued().len() == pre.queued().len() - 1
            &&& forall|i: int|
                0 < i < pre.queued().len() ==> post.queued()[i - 1] == #[trigger] pre.queued()[i]
        },
        r !is Start ==> post.running() == pre.running(),
{
    if r is Start {
        assert(pre.running() is None);
    }
}

/// Whatever is queued comes up: as long as the queue is not empty and nothing runs, the
/// next step starts a transaction, and when that has ended all others have moved up by
/// one.
pub proof fn law_queue_moves_up<T>(
    pre: TransactionManager<T>,
    mid: TransactionManager<T>,
    post: TransactionManager<T>,
    r: NextStep<T>,
    done: Option<Transaction<T>>,
    id: u64,
)
    requires
        pre.wf(),
        pre.running() is None,
        has_id(pre.queued(), id),
        TransactionManager::steps(pre, mid, r),
        TransactionManager::finishes(mid, post, done),
    ensures
        r is Start,
        position(pre.queued(), id) == 0 ==> r->event.transaction_id == id,
        position(pre.queued(), id) > 0 ==> has_id(post.queued(), id) && position(post.queued(), id)
            == position(pre.queued(), id) - 1,
        post.running() is None,
{
    lemma_position(pre.queued(), id);
    lemma_position(post.queued(), id);
    assert(pre.queued()[0].cancelled == false);
}

/// A transaction that was cancelled is no longer queued, it was not started, and what it
/// would have executed is handed back.
pub proof fn law_cancelled_is_gone<T>(
    pre: TransactionManager<T>,
    id: u64,
    uid: u32,
    post: TransactionManager<T>,
    tx: Transaction<T>,
)
    requires
        pre.wf(),
        distinct_ids(pre),
        TransactionManager::cancels(pre, id, uid, post, Ok(tx)),
    ensures
        !post.holds(id),
        tx.id == id,
        tx.state == TransactionState::Cancelled,
        tx.task == pre.queued()[position(pre.queued(), id) as int].task,
        uid == 0 || uid == tx.uid,
{
    let p = position(pre.queued(), id) as int;
    lemma_position(pre.queued(), id);
    if has_id(post.queued(), id) {
        let i = choose|i: int| 0 <= i < post.queued().len() && (#[trigger] post.queued()[i]).id
            == id;
        let k = if i < p {
            i
        } else {
            i + 1
        };
        assert(post.queued()[i] == pre.queued()[k]);
        assert(pre.queued()[k].id == pre.queued()[p].id);
        assert(false);
    }
    if post.running() is Some && post.running()->0.id == id {
        assert(has_id(pre.queued(), pre.running()->0.id));
    }
}

/// A transaction that is neither queued nor running stays so, and is not started, unless
/// it is queued again. So one that was cancelled is never executed.
pub proof fn law_gone_stays_gone<T>(
    pre: TransactionManager<T>,
    mv: Move<T>,
    post: TransactionManager<T>,
    id: u64,
)
    requires
        leads(pre, mv, post),
        !pre.holds(id),
        !queues(mv, id),
    ensures
        !post.holds(id),
        !starts(mv, id),
{
    if has_id(post.queued(), id) {
        lemma_still_there(pre, mv, post, id);
    }
    if pre.queued().len() > 0 {
        assert(pre.queued()[0].id == id ==> has_id(pre.queued(), id));
    }
    let p = lemma_queue_after(pre, mv, post);
}

/// Cancelling again finds nothing.
pub proof fn law_cancel_again_finds_nothing<T>(
    pre: TransactionManager<T>,
    id: u64,
    uid: u32,
    mid: TransactionManager<T>,
    tx: Transaction<T>,
    again: u32,
    post: TransactionManager<T>,
    r: Result<Transaction<T>, CancelError>,
)
    requires
        pre.wf(),
        distinct_ids(pre),
        TransactionManager::cancels(pre, id, uid, mid, Ok(tx)),
        TransactionManager::cancels(mid, id, again, post, r),
    ensures
        r == Err::<Transaction<T>, _>(CancelError::NotFound),
        post.same_as(mid),
{
    law_cancelled_is_gone(pre, id, uid, mid, tx);
}

/// A cancelled transaction gives its place back at once: its owner can queue another,
/// though the queue was full and the quota used up.
pub proof fn law_cancel_frees_a_place<T>(
    pre: TransactionManager<T>,
    id: u64,
    uid: u32,
    post: TransactionManager<T>,
    tx: Transaction<T>,
)
    requires
        pre.wf(),
        TransactionManager::cancels(pre, id, uid, post, Ok(tx)),
    ensures
        post.in_flight() == pre.in_flight() - 1,
        post.refusal(tx.uid) is None,
{
    let p = position(pre.queued(), id) as int;
    lemma_position(pre.queued(), id);
    lemma_owned_by_remove(pre.queued(), p, tx.uid);
    assert(owned_by(pre.queued(), tx.uid) <= pre.max_per_uid());
}

/// What runs cannot be cancelled, not even by root, and trying changes nothing.
pub proof fn law_running_cannot_be_cancelled<T>(
    pre: TransactionManager<T>,
    uid: u32,
    post: TransactionManager<T>,
    r: Result<Transaction<T>, CancelError>,
)
    requires
        distinct_ids(pre),
        pre.running() is Some,
        TransactionManager::cancels(pre, pre.running()->0.id, uid, post, r),
    ensures
        r == Err::<Transaction<T>, _>(CancelError::Running),
        post.same_as(pre),
{
}

/// Nobody but root cancels what another user queued, and trying changes nothing.
pub proof fn law_only_the_owner_cancels<T>(
    pre: TransactionManager<T>,
    id: u64,
    uid: u32,
    post: TransactionManager<T>,
    r: Result<Transaction<T>, CancelError>,
)
    requires
        TransactionManager::cancels(pre, id, uid, post, r),
        has_id(pre.queued(), id),
        uid != 0,
        pre.queued()[position(pre.queued(), id) as int].uid != uid,
    ensures
        r == Err::<Transaction<T>, _>(CancelError::NotOwner),
        post.same_as(pre),
{
}

/// A cancellation that is refused leaves everything as it was.
pub proof fn law_refused_cancel_changes_nothing<T>(
    pre: TransactionManager<T>,
    id: u64,
    uid: u32,
    post: TransactionManager<T>,
    e: CancelError,
)
    requires
        TransactionManager::cancels(pre, id, uid, post, Err(e)),
    ensures
        post.same_as(pre),
{
}

/// As long as every id is queued once, ids stay distinct.
pub proof fn law_ids_stay_distinct<T>(
    pre: TransactionManager<T>,
    mv: Move<T>,
    post: TransactionManager<T>,
)
    requires
        distinct_ids(pre),
        leads(pre, mv, post),
        mv matches Move::Enqueue(tx, _) ==> !pre.holds(tx.id),
    ensures
        distinct_ids(post),
{
    let p = lemma_queue_after(pre, mv, post);
    let a = pre.queued();
    let b = post.queued();
    assert forall|i: int, j: int| 0 <= i < j < b.len() implies (#[trigger] b[i]).id != (
    #[trigger] b[j]).id by {
        if b == a {
        } else if p < a.len() && b == a.remove(p) {
            let k = if i < p {
                i
            } else {
                i + 1
            };
            let l = if j < p {
                j
            } else {
                j + 1
            };
            assert(b[i] == a[k] && b[j] == a[l]);
        } else {
            assert(b[i] == a[i]);
            if j < a.len() {
                assert(b[j] == a[j]);
            }
        }
    }
    if post.running() is Some && has_id(b, post.running()->0.id) {
        let id = post.running()->0.id;
        let i = choose|i: int| 0 <= i < b.len() && (#[trigger] b[i]).id == id;
        if post.running() == pre.running() {
            if queues(mv, id) {
                assert(pre.holds(id));
            } else {
                lemma_still_there(pre, mv, post, id);
            }
        } else {
            assert(b[i] == a[i + 1]);
            assert(a[0].id == a[i + 1].id);
        }
    }
}

/// The list tells of exactly the transactions that are queued or running, in the order
/// of their ids, and of none that has ended.
pub proof fn law_list_tells_all<T>(m: TransactionManager<T>, list: Seq<TransactionInfo>)
    requires
        m.wf(),
        stably_sorted(told_all(m.queued(), m.running()), list),
    ensures
        list.len() == m.in_flight(),
        forall|id: u64|
            m.holds(id) <==> exists|i: int|
                0 <= i < list.len() && (#[trigger] list[i]).transaction_id == id,
        forall|i: int, j: int|
            0 <= i < j < list.len() ==> (#[trigger] list[i]).transaction_id <= (
            #[trigger] list[j]).transaction_id,
        forall|i: int|
            0 <= i < list.len() ==> (#[trigger] list[i]).state == TransactionState::Queued
                || list[i].state == TransactionState::Running,
{
    let told = told_all(m.queued(), m.running());
    told.to_multiset_ensures();
    list.to_multiset_ensures();
    assert forall|i: int, j: int| 0 <= i < j < list.len() implies (
    #[trigger] list[i]).transaction_id <= (#[trigger] list[j]).transaction_id by {
        assert(!crate::sorting::Ranked::precedes(&list[j], &list[i]));
    }
    assert forall|i: int| 0 <= i < list.len() implies exists|k: int|
        0 <= k < told.len() && #[trigger] told[k] == #[trigger] list[i] by {
        assert(list.contains(list[i]));
        assert(told.to_multiset().count(list[i]) > 0);
        assert(told.contains(list[i]));
    }
    assert forall|id: u64|
        m.holds(id) <==> exists|i: int|
            0 <= i < list.len() && (#[trigger] list[i]).transaction_id == id by {
        if m.holds(id) {
            let k = if has_id(m.queued(), id) {
                choose|k: int| 0 <= k < m.queued().len() && (#[trigger] m.queued()[k]).id == id
            } else {
                m.queued().len() as int
            };
            assert(told[k].transaction_id == id);
            assert(told.contains(told[k]));
            assert(list.to_multiset().count(told[k]) > 0);
            assert(list.contains(told[k]));
            let i = choose|i: int| 0 <= i < list.len() && list[i] == told[k];
            assert(list[i].transaction_id == id);
        }
        if exists|i: int| 0 <= i < list.len() && (#[trigger] list[i]).transaction_id == id {
            let i = choose|i: int| 0 <= i < list.len() && (#[trigger] list[i]).transaction_id == id;
            let k = choose|k: int| 0 <= k < told.len() && #[trigger] told[k] == list[i];
            if k < m.queued().len() {
                assert(m.queued()[k].id == id);
            }
        }
    }
    assert forall|i: int| 0 <= i < list.len() implies (#[trigger] list[i]).state
        == TransactionState::Queued || list[i].state == TransactionState::Running by {
        let k = choose|k: int| 0 <= k < told.len() && #[trigger] told[k] == list[i];
        if k < m.queued().len() {
            assert(m.queued()[k].state == TransactionState::Queued);
        }
    }
}

/// At most one of the transactions in the list is running.
pub proof fn law_one_runs_at_a_time<T>(m: TransactionManager<T>, list: Seq<TransactionInfo>)
    requires
        m.wf(),
        stably_sorted(told_all(m.queued(), m.running()), list),
    ensures
        forall|i: int, j: int|
            0 <= i < j < list.len() && (#[trigger] list[i]).state == TransactionState::Running ==> (
            #[trigger] list[j]).state != TransactionState::Running,
{
    let told = told_all(m.queued(), m.running());
    told.to_multiset_ensures();
    list.to_multiset_ensures();
    assert forall|k: int| 0 <= k < told.len() && (#[trigger] told[k]).state
        == TransactionState::Running implies k == m.queued().len() by {
        if k < m.queued().len() {
            assert(m.queued()[k].state == TransactionState::Queued);
        }
    }
    assert forall|i: int, j: int|
        0 <= i < j < list.len() && (#[trigger] list[i]).state == TransactionState::Running implies (
    #[trigger] list[j]).state != TransactionState::Running by {
        if list[j].state == TransactionState::Running {
            assert(list.contains(list[i]) && list.contains(list[j]));
            assert(told.to_multiset().count(list[i]) > 0 && told.to_multiset().count(list[j]) > 0);
            let k = choose|k: int| 0 <= k < told.len() && told[k] == list[i];
            let l = choose|l: int| 0 <= l < told.len() && told[l] == list[j];
            assert(k == l);
            let (p, q) = lemma_occurs_twice(told, list, i, j);
            assert(p == q);
        }
    }
}

/// The report on a task that died comes while its transaction is in the running slot, and
/// leaves the queue as it is: a full queue still refuses.
pub proof fn law_reported_while_running<T>(
    pre: TransactionManager<T>,
    how: TaskFailure,
    event: TransactionEvent,
    post: TransactionManager<T>,
    uid: u32,
)
    requires
        distinct_ids(pre),
        leads(pre, Move::Report(how, Some(event)), post),
    ensures
        place(pre, event->Result_0.transaction_id) is Running,
        place(post, event->Result_0.transaction_id) is Running,
        post.refusal(uid) == pre.refusal(uid),
{
}

/// A history from a sound state on, in which no id is queued while it is held.
pub open spec fn is_sound_history<T>(
    states: Seq<TransactionManager<T>>,
    moves: Seq<Move<T>>,
) -> bool {
    &&& is_history(states, moves)
    &&& states[0].wf()
    &&& distinct_ids(states[0])
    &&& forall|i: int|
        0 <= i < moves.len() ==> (#[trigger] moves[i] matches Move::Enqueue(tx, _)
            ==> !states[i].holds(tx.id))
}

proof fn lemma_history_stays_sound<T>(
    states: Seq<TransactionManager<T>>,
    moves: Seq<Move<T>>,
    n: int,
)
    requires
        is_sound_history(states, moves),
        0 <= n < states.len(),
    ensures
        states[n].wf(),
        distinct_ids(states[n]),
    decreases n,
{
    law_limits_hold_always(states, moves, n);
    if n > 0 {
        lemma_history_stays_sound(states, moves, n - 1);
        assert(leads(states[n - 1], moves[n - 1], states[n]));
        law_ids_stay_distinct(states[n - 1], moves[n - 1], states[n]);
    }
}

/// The move starts a transaction.
pub open spec fn is_start<T>(mv: Move<T>) -> bool {
    mv matches Move::Step(NextStep::Start { .. })
}

/// The move ends the transaction with this id, which was running.
pub open spec fn ends<T>(mv: Move<T>, id: u64) -> bool {
    mv matches Move::Finish(Some(tx)) && tx.id == id
}

/// The move cancels the transaction with this id.
pub open spec fn calls_off<T>(mv: Move<T>, id: u64) -> bool {
    mv matches Move::Cancel(_, _, Ok(tx)) && tx.id == id
}

/// The move announces a change of state of the transaction with this id.
pub open spec fn announces<T>(mv: Move<T>, id: u64) -> bool {
    announcement(mv) is Some && announcement(mv)->0.transaction_id == id
}

/// The move starts the transaction: it hands out its task and announces it as running.
pub open spec fn starts_task<T>(mv: Move<T>, tx: Transaction<T>) -> bool {
    &&& starts(mv, tx.id)
    &&& mv->Step_0->task == tx.task
    &&& announcement(mv)->0.state == TransactionState::Running
}

/// The transaction is queued at move `a`, and before move `n` it is neither queued again nor
/// cancelled.
pub open spec fn is_left_alone<T>(moves: Seq<Move<T>>, a: int, n: int, tx: Transaction<T>) -> bool {
    &&& 0 <= a < n <= moves.len()
    &&& moves[a] is Enqueue
    &&& moves[a]->Enqueue_0 == tx
    &&& moves[a]->Enqueue_1 is Ok
    &&& forall|i: int|
        a < i < n ==> !queues(#[trigger] moves[i], tx.id) && !calls_off(moves[i], tx.id)
}

/// Between the moves `a` and `n` nothing happens to the transaction.
pub open spec fn only_waits<T>(moves: Seq<Move<T>>, a: int, n: int, tx: Transaction<T>) -> bool {
    forall|i: int|
        a < i < n ==> !starts(#[trigger] moves[i], tx.id) && !ends(moves[i], tx.id) && !announces(
            moves[i],
            tx.id,
        )
}

/// Between the moves `a` and `n` the transaction is started once, at `s`, and has not ended;
/// nothing else was started since.
pub open spec fn is_under_way<T>(
    moves: Seq<Move<T>>,
    a: int,
    n: int,
    tx: Transaction<T>,
    s: int,
) -> bool {
    &&& a < s < n
    &&& starts_task(moves[s], tx)
    &&& forall|i: int|
        a < i < n ==> {
            &&& starts(#[trigger] moves[i], tx.id) ==> i == s
            &&& announces(moves[i], tx.id) ==> i == s
            &&& !ends(moves[i], tx.id)
            &&& s < i ==> !is_start(moves[i])
        }
}

/// Between the moves `a` and `n` the transaction is started once, at `s`, and ends once, at
/// `e`; nothing else is started in between. It is announced as running and as finished then,
/// and not otherwise.
pub open spec fn runs_once<T>(
    moves: Seq<Move<T>>,
    a: int,
    n: int,
    tx: Transaction<T>,
    s: int,
    e: int,
) -> bool {
    &&& a < s < e < n
    &&& starts_task(moves[s], tx)
    &&& ends(moves[e], tx.id)
    &&& announcement(moves[e])->0.state == TransactionState::Finished
    &&& forall|i: int|
        a < i < n ==> {
            &&& starts(#[trigger] moves[i], tx.id) ==> i == s
            &&& ends(moves[i], tx.id) ==> i == e
            &&& announces(moves[i], tx.id) ==> i == s || i == e
            &&& s < i < e ==> !is_start(moves[i])
        }
}

/// What has become by move `n` of the transaction that was queued at move `a`.
pub open spec fn fares<T>(
    states: Seq<TransactionManager<T>>,
    moves: Seq<Move<T>>,
    a: int,
    n: int,
    tx: Transaction<T>,
) -> bool {
    match place(states[n], tx.id) {
        Place::Waiting => {
            &&& states[n].queued()[position(states[n].queued(), tx.id) as int] == tx
            &&& only_waits(moves, a, n, tx)
        },
        Place::Running => exists|s: int| is_under_way(moves, a, n, tx, s),
        Place::Absent => exists|s: int, e: int| runs_once(moves, a, n, tx, s, e),
    }
}

/// Every transaction that is queued and not cancelled runs once, alone, and is told of: as
/// long as it waits nothing happens to it, then its task is handed out once, and when it is
/// no longer held it has ended once. No other transaction is started in between. So it is
/// announced as queued, running and finished, once each and in this order.
pub proof fn law_every_task_runs_once<T>(
    states: Seq<TransactionManager<T>>,
    moves: Seq<Move<T>>,
    a: int,
    n: int,
    tx: Transaction<T>,
)
    requires
        is_sound_history(states, moves),
        is_left_alone(moves, a, n, tx),
    ensures
        fares(states, moves, a, n, tx),
        announces(moves[a], tx.id),
        announcement(moves[a])->0.state == TransactionState::Queued,
    decreases n,
{
    let id = tx.id;
    if n == a + 1 {
        lemma_history_stays_sound(states, moves, a);
        assert(leads(states[a], moves[a], states[n]));
        law_announcements_tell_the_life(states[a], moves[a], states[n], id);
        let q = states[n].queued();
        lemma_position(q, id);
        assert(q[q.len() - 1] == tx);
        let p = position(q, id) as int;
        if p < q.len() - 1 {
            assert(states[a].queued()[p] == q[p]);
            assert(has_id(states[a].queued(), id));
        }
    } else {
        law_every_task_runs_once(states, moves, a, n - 1, tx);
        lemma_fares_on(states, moves, a, n - 1, tx);
    }
}

/// One more move.
proof fn lemma_fares_on<T>(
    states: Seq<TransactionManager<T>>,
    moves: Seq<Move<T>>,
    a: int,
    m: int,
    tx: Transaction<T>,
)
    requires
        is_sound_history(states, moves),
        is_left_alone(moves, a, m + 1, tx),
        a < m,
        fares(states, moves, a, m, tx),
    ensures
        fares(states, moves, a, m + 1, tx),
{
    let id = tx.id;
    let n = m + 1;
    let mv = moves[m];
    let pre = states[m];
    let post = states[n];
    lemma_history_stays_sound(states, moves, m);
    lemma_history_stays_sound(states, moves, n);
    assert(leads(pre, mv, post));
    assert(!queues(mv, id) && !calls_off(mv, id));
    law_announcements_tell_the_life(pre, mv, post, id);
    match place(pre, id) {
        Place::Waiting => {
            lemma_position(pre.queued(), id);
            assert(!ends(mv, id)) by {
                if ends(mv, id) {
                    assert(has_id(pre.queued(), pre.running()->0.id));
                }
            }
            if starts(mv, id) {
                let first = pre.queued()[0];
                assert(first.id == id);
                assert(position(pre.queued(), id) == 0);
                assert(is_under_way(moves, a, n, tx, m));
            } else {
                assert(place(post, id) is Waiting);
                lemma_entry_kept(pre, mv, post, id);
                assert(only_waits(moves, a, n, tx));
            }
        },
        Place::Running => {
            let s = choose|s: int| is_under_way(moves, a, m, tx, s);
            assert(!is_start(mv));
            if ends(mv, id) {
                assert(runs_once(moves, a, n, tx, s, m));
            } else {
                assert(place(post, id) is Running);
                assert(is_under_way(moves, a, n, tx, s));
            }
        },
        Place::Absent => {
            let (s, e) = choose|s: int, e: int| runs_once(moves, a, m, tx, s, e);
            law_gone_stays_gone(pre, mv, post, id);
            assert(!ends(mv, id));
            assert(!announces(mv, id));
            assert(runs_once(moves, a, n, tx, s, e));
        },
    }
}

/// What stays in the queue stays as it is.
proof fn lemma_entry_kept<T>(
    pre: TransactionManager<T>,
    mv: Move<T>,
    post: TransactionManager<T>,
    id: u64,
)
    requires
        distinct_ids(pre),
        distinct_ids(post),
        leads(pre, mv, post),
        !queues(mv, id),
        has_id(pre.queued(), id),
        has_id(post.queued(), id),
    ensures
        post.queued()[position(post.queued(), id) as int] == pre.queued()[position(
            pre.queued(),
            id,
        ) as int],
{
    let p = lemma_queue_after(pre, mv, post);
    let a = pre.queued();
    let b = post.queued();
    lemma_position(a, id);
    lemma_position(b, id);
    let i = position(a, id) as int;
    let k = position(b, id) as int;
    if b == a {
    } else if p < a.len() && b == a.remove(p) {
        let l = if k < p {
            k
        } else {
            k + 1
        };
        assert(b[k] == a[l]);
        assert(l == i);
    } else {
        assert(b[i] == a[i]);
        assert(k == i);
    }
}

/// Of two transactions of which neither is cancelled, the one that was queued first has ended
/// before the other is started.
pub proof fn law_one_ends_before_the_next_starts<T>(
    states: Seq<TransactionManager<T>>,
    moves: Seq<Move<T>>,
    a: int,
    first: Transaction<T>,
    b: int,
    second: Transaction<T>,
    n: int,
)
    requires
        is_sound_history(states, moves),
        a < b,
        is_left_alone(moves, a, n, first),
        is_left_alone(moves, b, n, second),
        n < moves.len(),
        starts(moves[n], second.id),
    ensures
        exists|s: int, e: int| runs_once(moves, a, n, first, s, e),
        !states[n].holds(first.id),
{
    let x = first.id;
    let y = second.id;
    assert(!queues(moves[b], x));
    assert(leads(states[n], moves[n], states[n + 1]));
    lemma_history_stays_sound(states, moves, n);
    law_every_task_runs_once(states, moves, a, n, first);
    if has_id(states[n].queued(), x) {
        let c = b + 1;
        lemma_history_stays_sound(states, moves, c);
        assert(leads(states[b], moves[b], states[c]));
        law_every_task_runs_once(states, moves, a, c, first);
        if place(states[c], x) is Running {
            let s = choose|s: int| is_under_way(moves, a, c, first, s);
            assert(starts(moves[s], x));
            assert(false);
        }
        if place(states[c], x) is Absent {
            let (s, e) = choose|s: int, e: int| runs_once(moves, a, c, first, s, e);
            assert(starts(moves[s], x));
            assert(false);
        }
        let q = states[c].queued();
        lemma_position(q, x);
        assert(q[q.len() - 1].id == y);
        assert(stands_before(states[c], x, y));
        let later_states = states.subrange(c, n + 2);
        let later_moves = moves.subrange(c, n + 1);
        assert forall|i: int| 0 <= i < later_moves.len() implies leads(
            later_states[i],
            #[trigger] later_moves[i],
            later_states[i + 1],
        ) && (later_moves[i] matches Move::Enqueue(tx, _) ==> !later_states[i].holds(tx.id) && tx.id
            != x && tx.id != y) by {
            let k = c + i;
            assert(leads(states[k], moves[k], states[k + 1]));
            if k < n {
                assert(!queues(moves[k], x) && !queues(moves[k], y));
            }
        }
        law_no_overtaking(later_states, later_moves, n - c, x, y);
        assert(later_states[n - c] == states[n]);
    }
}

/// How many transactions end between two moves.
pub open spec fn ended_between<T>(moves: Seq<Move<T>>, a: int, n: int) -> nat
    decreases n - a,
{
    if n <= a + 1 {
        0
    } else {
        ended_between(moves, a, n - 1) + if moves[n - 1] matches Move::Finish(Some(_)) {
            1nat
        } else {
            0nat
        }
    }
}

/// How many transactions are to end until the one with this id has ended: what runs, what
/// stands before it, and itself.
pub open spec fn turns_left<T>(m: TransactionManager<T>, id: u64) -> nat {
    match place(m, id) {
        Place::Waiting => position(m.queued(), id) + 1 + if m.running() is Some {
            1nat
        } else {
            0nat
        },
        Place::Running => 1,
        Place::Absent => 0,
    }
}

/// Every transaction that is queued and not cancelled has its turn: when as many have ended
/// as were before it, and one more, it has run.
pub proof fn law_every_task_has_its_turn<T>(
    states: Seq<TransactionManager<T>>,
    moves: Seq<Move<T>>,
    a: int,
    n: int,
    tx: Transaction<T>,
)
    requires
        is_sound_history(states, moves),
        is_left_alone(moves, a, n, tx),
        ended_between(moves, a, n) >= turns_left(states[a + 1], tx.id),
    ensures
        exists|s: int, e: int| runs_once(moves, a, n, tx, s, e),
        !states[n].holds(tx.id),
{
    lemma_turns_pass(states, moves, a, n, tx);
    law_every_task_runs_once(states, moves, a, n, tx);
}

proof fn lemma_turns_pass<T>(
    states: Seq<TransactionManager<T>>,
    moves: Seq<Move<T>>,
    a: int,
    n: int,
    tx: Transaction<T>,
)
    requires
        is_sound_history(states, moves),
        is_left_alone(moves, a, n, tx),
    ensures
        turns_left(states[n], tx.id) == 0 || turns_left(states[n], tx.id) + ended_between(
            moves,
            a,
            n,
        ) <= turns_left(states[a + 1], tx.id),
    decreases n,
{
    if n > a + 1 {
        let id = tx.id;
        let m = n - 1;
        lemma_turns_pass(states, moves, a, m, tx);
        lemma_history_stays_sound(states, moves, m);
        lemma_history_stays_sound(states, moves, n);
        let mv = moves[m];
        let pre = states[m];
        let post = states[n];
        assert(leads(pre, mv, post));
        assert(!queues(mv, id) && !calls_off(mv, id));
        law_announcements_tell_the_life(pre, mv, post, id);
        lemma_position(pre.queued(), id);
        lemma_position(post.queued(), id);
        if place(pre, id) is Waiting {
            let p = lemma_queue_after(pre, mv, post);
            let i = position(pre.queued(), id) as int;
            let b = post.queued();
            if place(post, id) is Waiting {
                let k = position(b, id) as int;
                if b == pre.queued() {
                } else if p < pre.queued().len() && b == pre.queued().remove(p) {
                    let l = if k < p {
                        k
                    } else {
                        k + 1
                    };
                    assert(b[k] == pre.queued()[l]);
                    assert(l == i);
                } else {
                    assert(b[i] == pre.queued()[i]);
                }
            }
        }
    }
}

} // verus!
