use amo::transaction::events::{failure_result_json, panic_detail, TaskFailure};
use amo::transaction::types::{
    CancelError, EnqueueError, TaskStatus, TransactionEvent, TransactionRole, TransactionState,
};
use amo::transaction::{NextStep, Transaction, TransactionManager};

/// A task that only has a name.
type Manager = TransactionManager<&'static str>;

fn enqueue(
    mgr: &mut Manager,
    id: u64,
    role: TransactionRole,
    caller: &str,
    uid: u32,
    task: &'static str,
) -> Result<(), EnqueueError> {
    let event = mgr.enqueue(id, role, caller.to_string(), uid, task)?;
    assert_eq!(event.transaction_id, id);
    assert_eq!(event.role, role);
    assert_eq!(event.state, TransactionState::Queued);
    Ok(())
}

fn start(mgr: &mut Manager) -> Option<(u64, Option<&'static str>)> {
    match mgr.next_step() {
        NextStep::Start { event, task } => {
            assert_eq!(event.state, TransactionState::Running);
            Some((event.transaction_id, task))
        }
        NextStep::Wait => None,
        NextStep::Discard(_) => panic!("nothing in the queue is cancelled"),
    }
}

/// Runs everything that is queued and returns the tasks in the order of execution.
fn drain(mgr: &mut Manager) -> Vec<&'static str> {
    let mut ran = Vec::new();
    while let Some((id, task)) = start(mgr) {
        ran.push(task.unwrap());
        let done = mgr.finish().unwrap();
        assert_eq!(done.id, id);
        assert_eq!(done.state, TransactionState::Finished);
    }
    ran
}

fn cancel(mgr: &mut Manager, id: u64, uid: u32) -> Result<(), CancelError> {
    mgr.cancel(id, uid).map(|tx: Transaction<&'static str>| {
        assert_eq!(tx.id, id);
        assert_eq!(tx.state, TransactionState::Cancelled);
        assert!(tx.cancelled);
    })
}

#[test]
fn panicking_task_emits_failure_result_and_runner_survives() {
    let json = failure_result_json(7, TransactionRole::ApplyChanges, "boom".into());
    let v: serde_json::Value = serde_json::from_str(&json).unwrap();
    assert_eq!(v["type"], "result");
    assert_eq!(v["transaction_id"], 7);
    assert_eq!(v["role"], "apply_changes");
    assert_eq!(v["status"]["Failed"], "boom");
    assert_eq!(v["status"].as_object().unwrap().len(), 1);
    assert!(v.get("result").is_none(), "panic failure must have no result payload");

    assert_eq!(panic_detail(TaskFailure::Panicked(Some("kaboom".into()))), "kaboom");
    assert_eq!(panic_detail(TaskFailure::Panicked(Some("literal-boom".into()))), "literal-boom");
    assert_eq!(panic_detail(TaskFailure::Panicked(None)), "transaction task panicked");
    assert_eq!(panic_detail(TaskFailure::Cancelled), "transaction task was cancelled");

    let mut mgr = Manager::new();
    enqueue(&mut mgr, 1, TransactionRole::UpdatesList, "tester", 0, "panics").unwrap();
    enqueue(&mut mgr, 2, TransactionRole::UpdatesList, "tester", 0, "counts").unwrap();
    assert_eq!(drain(&mut mgr), vec!["panics", "counts"]);
    assert!(mgr.list().is_empty());
}

#[test]
fn scheduler_runs_in_fifo_order() {
    let mut mgr = Manager::new();
    enqueue(&mut mgr, 1, TransactionRole::Refresh, "c1", 1000, "one").unwrap();
    enqueue(&mut mgr, 2, TransactionRole::ApplyChanges, "c2", 1000, "two").unwrap();
    assert_eq!(drain(&mut mgr), vec!["one", "two"]);
    assert!(mgr.list().is_empty());
}

#[test]
fn scheduler_cancel_queued_but_not_running() {
    let mut mgr = Manager::new();
    enqueue(&mut mgr, 1, TransactionRole::Refresh, "c1", 1000, "one").unwrap();
    assert_eq!(start(&mut mgr), Some((1, Some("one"))));
    enqueue(&mut mgr, 2, TransactionRole::UpdatesList, "c2", 1000, "two").unwrap();
    enqueue(&mut mgr, 3, TransactionRole::Simulate, "c3", 1000, "three").unwrap();

    let list = mgr.list();
    assert_eq!(list.len(), 3);
    let by_id = |id: u64| list.iter().find(|t| t.transaction_id == id).unwrap();
    assert_eq!(by_id(1).state, TransactionState::Running);
    assert_eq!(by_id(2).state, TransactionState::Queued);
    assert_eq!(by_id(3).state, TransactionState::Queued);

    assert_eq!(cancel(&mut mgr, 2, 1000), Ok(()));
    assert_eq!(cancel(&mut mgr, 1, 1000), Err(CancelError::Running));
    assert_eq!(cancel(&mut mgr, 2, 1000), Err(CancelError::NotFound));

    assert_eq!(start(&mut mgr), None, "one at a time");
    mgr.finish().unwrap();
    assert_eq!(drain(&mut mgr), vec!["three"]);
    assert!(mgr.list().is_empty());
}

#[test]
fn scheduler_cancel_requires_ownership() {
    let mut mgr = Manager::new();
    enqueue(&mut mgr, 1, TransactionRole::Refresh, "c1", 1000, "one").unwrap();
    start(&mut mgr).unwrap();
    enqueue(&mut mgr, 2, TransactionRole::ApplyChanges, "alice", 1000, "two").unwrap();

    assert_eq!(cancel(&mut mgr, 2, 1001), Err(CancelError::NotOwner));
    assert!(mgr.contains(2));
    assert_eq!(cancel(&mut mgr, 2, 1000), Ok(()));
    enqueue(&mut mgr, 3, TransactionRole::UpdatesList, "carol", 1002, "three").unwrap();
    assert_eq!(cancel(&mut mgr, 3, 0), Ok(()));
    assert_eq!(cancel(&mut mgr, 999, 1000), Err(CancelError::NotFound));

    mgr.finish().unwrap();
    assert!(drain(&mut mgr).is_empty());
    assert!(mgr.list().is_empty());
}

#[test]
fn transaction_runs_in_fifo_order() {
    let mut mgr = Manager::new();
    let mut order = 0;
    enqueue(&mut mgr, 1, TransactionRole::Refresh, "c1", 1000, "1").unwrap();
    enqueue(&mut mgr, 2, TransactionRole::ApplyChanges, "c2", 1000, "2").unwrap();
    for task in drain(&mut mgr) {
        order = task.parse().unwrap();
    }
    assert_eq!(order, 2);
    assert!(mgr.list().is_empty());
}

#[test]
fn ids_do_not_matter_for_the_order_of_execution() {
    let mut mgr = Manager::new();
    for (id, task) in [(5, "a"), (3, "b"), (4, "c")] {
        enqueue(&mut mgr, id, TransactionRole::Refresh, "c", 1000, task).unwrap();
    }
    assert_eq!(drain(&mut mgr), vec!["a", "b", "c"]);
}

#[test]
fn transaction_cancel_requires_ownership() {
    let mut mgr = Manager::new();
    let mut ran = Vec::new();
    enqueue(&mut mgr, 1, TransactionRole::Refresh, "c1", 1000, "blocks").unwrap();
    assert_eq!(start(&mut mgr), Some((1, Some("blocks"))));
    assert_eq!(mgr.list()[0].state, TransactionState::Running);
    enqueue(&mut mgr, 2, TransactionRole::ApplyChanges, "alice", 1000, "two").unwrap();

    assert_eq!(cancel(&mut mgr, 2, 1001), Err(CancelError::NotOwner));
    assert_eq!(cancel(&mut mgr, 2, 1000), Ok(()));
    enqueue(&mut mgr, 3, TransactionRole::UpdatesList, "carol", 1002, "three").unwrap();
    assert_eq!(cancel(&mut mgr, 3, 0), Ok(()));
    assert_eq!(cancel(&mut mgr, 999, 1000), Err(CancelError::NotFound));

    mgr.finish().unwrap();
    ran.extend(drain(&mut mgr));
    assert!(mgr.list().is_empty());
    assert!(!ran.contains(&"two"));
}

#[test]
fn cancel_frees_queue_slot_immediately() {
    let mut mgr = Manager::with_limits(3, 2);
    enqueue(&mut mgr, 1, TransactionRole::Refresh, "c1", 1000, "one").unwrap();
    start(&mut mgr).unwrap();
    enqueue(&mut mgr, 2, TransactionRole::UpdatesList, "alice", 1000, "two").unwrap();
    enqueue(&mut mgr, 3, TransactionRole::UpdatesList, "alice", 1000, "three").unwrap();
    assert_eq!(
        enqueue(&mut mgr, 4, TransactionRole::UpdatesList, "alice", 1000, "four"),
        Err(EnqueueError::QueueFull)
    );

    assert_eq!(cancel(&mut mgr, 2, 1000), Ok(()));
    assert!(!mgr.list().iter().any(|t| t.transaction_id == 2));
    enqueue(&mut mgr, 4, TransactionRole::UpdatesList, "alice", 1000, "four").unwrap();

    mgr.finish().unwrap();
    assert_eq!(drain(&mut mgr), vec!["three", "four"]);
}

#[test]
fn cancel_and_dequeue_are_mutually_exclusive() {
    // Whatever the interleaving, what was cancelled does not run.
    for pattern in 0..256u32 {
        let mut mgr = Manager::new();
        let tasks = ["0", "1", "2", "3", "4", "5", "6", "7"];
        for (i, task) in tasks.iter().enumerate() {
            enqueue(&mut mgr, i as u64 + 1, TransactionRole::ApplyChanges, "alice", 1000, task)
                .unwrap();
        }
        let mut ran = Vec::new();
        let mut cancelled = Vec::new();
        for i in 0..8u64 {
            if pattern & (1 << i) != 0 {
                if cancel(&mut mgr, i + 1, 1000).is_ok() {
                    cancelled.push(tasks[i as usize]);
                }
            } else if let Some((_, task)) = start(&mut mgr) {
                ran.push(task.unwrap());
                mgr.finish();
            }
        }
        ran.extend(drain(&mut mgr));
        assert!(mgr.list().is_empty());
        assert_eq!(ran.len() + cancelled.len(), 8);
        for task in cancelled {
            assert!(!ran.contains(&task), "cancel returned Ok but the task ran");
        }
    }
}

#[test]
fn enqueue_respects_limits() {
    let mut mgr = Manager::with_limits(5, 2);
    enqueue(&mut mgr, 1, TransactionRole::Refresh, "c1", 1000, "one").unwrap();
    start(&mut mgr).unwrap();
    for i in 2..=3u64 {
        enqueue(&mut mgr, i, TransactionRole::UpdatesList, "alice", 1000, "alice").unwrap();
    }
    assert_eq!(
        enqueue(&mut mgr, 4, TransactionRole::UpdatesList, "alice", 1000, "alice"),
        Err(EnqueueError::QuotaExceeded)
    );
    for (i, uid) in [(5u64, 1001u32), (6, 1002)] {
        enqueue(&mut mgr, i, TransactionRole::Simulate, "other", uid, "other").unwrap();
    }
    assert_eq!(
        enqueue(&mut mgr, 7, TransactionRole::Simulate, "dave", 1003, "dave"),
        Err(EnqueueError::QueueFull)
    );

    mgr.finish().unwrap();
    drain(&mut mgr);
    enqueue(&mut mgr, 8, TransactionRole::UpdatesList, "alice", 1000, "again").unwrap();
    assert_eq!(drain(&mut mgr), vec!["again"]);
}

#[test]
fn in_flight_never_exceeds_global_limit() {
    let mut mgr = Manager::with_limits(3, 100);
    enqueue(&mut mgr, 1, TransactionRole::Refresh, "c1", 1000, "one").unwrap();
    start(&mut mgr).unwrap();
    let mut admitted = 0;
    for i in 0..8 {
        if enqueue(&mut mgr, i + 2, TransactionRole::UpdatesList, "alice", 1000, "t").is_ok() {
            admitted += 1;
        }
    }
    assert_eq!(admitted, 2);
    for i in 0..16 {
        if i == 5 {
            mgr.finish();
        }
        let _ = enqueue(&mut mgr, 100 + i, TransactionRole::UpdatesList, "alice", 1000, "t");
        assert!(mgr.list().len() <= 3);
        if i % 3 == 0 {
            let _ = start(&mut mgr);
            assert!(mgr.list().len() <= 3);
        }
    }
}

#[test]
fn list_never_duplicates_transactions() {
    let mut mgr = Manager::with_limits(4, 100);
    for i in 0..50u64 {
        let _ = enqueue(&mut mgr, i, TransactionRole::UpdatesList, "alice", 1000, "t");
        if i % 2 == 0 {
            let _ = start(&mut mgr);
        } else {
            let _ = mgr.finish();
        }
        let ids: Vec<u64> = mgr.list().iter().map(|t| t.transaction_id).collect();
        assert!(ids.windows(2).all(|w| w[0] < w[1]), "{ids:?}");
        assert!(ids.len() <= 4);
        for id in &ids {
            assert!(mgr.contains(*id));
        }
    }
}

#[test]
fn list_never_returns_terminal_states() {
    let mut mgr = Manager::with_limits(8, 100);
    for i in 1..40u64 {
        let _ = enqueue(&mut mgr, i, TransactionRole::Simulate, "c", 0, "t");
        match i % 4 {
            0 => drop(start(&mut mgr)),
            1 => drop(mgr.cancel(i, 0)),
            2 => drop(mgr.finish()),
            _ => {}
        }
        for t in mgr.list() {
            assert!(matches!(t.state, TransactionState::Queued | TransactionState::Running));
        }
    }
}

#[test]
fn list_is_by_id_and_tells_everything() {
    let mut mgr = Manager::new();
    for (id, uid) in [(9u64, 1u32), (2, 2), (5, 3)] {
        mgr.enqueue_at(id, TransactionRole::Simulate, format!(":1.{id}"), uid, 1_700_000_000 + id, "t")
            .unwrap();
    }
    start(&mut mgr).unwrap();
    let list = mgr.list();
    let ids: Vec<u64> = list.iter().map(|t| t.transaction_id).collect();
    assert_eq!(ids, vec![2, 5, 9]);
    assert_eq!(list[2].state, TransactionState::Running);
    assert_eq!(list[0].caller, ":1.2");
    assert_eq!(list[0].uid, 2);
    assert_eq!(list[0].created_at, 1_700_000_002);
    assert_eq!(list[0].role, TransactionRole::Simulate);
}

#[test]
fn equal_ids_keep_their_order_in_the_list() {
    let mut mgr = Manager::new();
    for uid in [7u32, 8, 9] {
        mgr.enqueue_at(1, TransactionRole::Simulate, String::new(), uid, 0, "t").unwrap();
    }
    let uids: Vec<u32> = mgr.list().iter().map(|t| t.uid).collect();
    assert_eq!(uids, vec![7, 8, 9]);
}

#[test]
fn finish_without_a_running_transaction_is_nothing() {
    let mut mgr = Manager::new();
    assert!(mgr.finish().is_none());
    assert!(start(&mut mgr).is_none());
    assert!(!mgr.contains(1));
}

#[test]
fn no_place_at_all_is_always_full() {
    let mut mgr = Manager::with_limits(0, 5);
    assert_eq!(
        enqueue(&mut mgr, 1, TransactionRole::Refresh, "c", 1, "t"),
        Err(EnqueueError::QueueFull)
    );
    let mut mgr = Manager::with_limits(5, 0);
    assert_eq!(
        enqueue(&mut mgr, 1, TransactionRole::Refresh, "c", 1, "t"),
        Err(EnqueueError::QuotaExceeded)
    );
}

#[test]
fn a_transaction_is_created_now() {
    let before = amo::clock::now_epoch();
    let mut mgr = Manager::new();
    enqueue(&mut mgr, 1, TransactionRole::Refresh, "c", 1, "t").unwrap();
    let after = amo::clock::now_epoch();
    let created = mgr.list()[0].created_at;
    assert!(before <= created && created <= after);
    assert!(before > 1_600_000_000);
    assert_eq!(amo::clock::epoch_or_zero(Some(12)), 12);
    assert_eq!(amo::clock::epoch_or_zero(None), 0);
}

#[test]
fn a_dead_task_is_reported_before_the_final_state() {
    let mut mgr = Manager::new();
    enqueue(&mut mgr, 4, TransactionRole::ApplyChanges, "c", 1, "t").unwrap();
    start(&mut mgr).unwrap();
    let how = TaskFailure::Panicked(Some("boom".into()));
    match mgr.failure_event(how).unwrap() {
        TransactionEvent::Result(r) => {
            assert_eq!((r.transaction_id, r.role), (4, TransactionRole::ApplyChanges));
            assert_eq!(r.status, TaskStatus::Failed("boom".into()));
            assert!(r.result.is_none());
        }
        other => panic!("{other:?}"),
    }
    assert_eq!(mgr.list()[0].state, TransactionState::Running);
    let ended = mgr.finish().unwrap();
    assert_eq!(ended.id, 4);
    assert_eq!(ended.event().state, TransactionState::Finished);
    assert!(mgr.failure_event(TaskFailure::Cancelled).is_none());
}

#[test]
fn a_full_queue_still_refuses_while_a_dead_task_is_reported() {
    let mut mgr = Manager::with_limits(1, 8);
    enqueue(&mut mgr, 1, TransactionRole::Refresh, "c", 1, "t").unwrap();
    start(&mut mgr).unwrap();
    assert!(mgr.failure_event(TaskFailure::Panicked(None)).is_some());
    assert_eq!(
        enqueue(&mut mgr, 2, TransactionRole::Refresh, "c", 1, "t"),
        Err(EnqueueError::QueueFull)
    );
    mgr.finish().unwrap();
    enqueue(&mut mgr, 2, TransactionRole::Refresh, "c", 1, "t").unwrap();
}

#[test]
fn every_task_runs_once_and_ends_before_the_next() {
    let mut mgr = Manager::with_limits(4, 8);
    let mut told = Vec::new();
    for (id, task) in [(1, "one"), (2, "two"), (3, "three")] {
        let event = mgr.enqueue(id, TransactionRole::Refresh, "c".into(), 1, task).unwrap();
        told.push((event.transaction_id, event.state));
    }
    let mut ran = Vec::new();
    for _ in 0..5 {
        if let NextStep::Start { event, task } = mgr.next_step() {
            told.push((event.transaction_id, event.state));
            ran.push(task.unwrap());
            assert!(matches!(mgr.next_step(), NextStep::Wait), "one at a time");
            let event = mgr.finish().unwrap().event();
            told.push((event.transaction_id, event.state));
        }
    }
    assert_eq!(ran, vec!["one", "two", "three"]);
    for id in 1..=3u64 {
        let states: Vec<TransactionState> =
            told.iter().filter(|t| t.0 == id).map(|t| t.1).collect();
        assert_eq!(
            states,
            vec![TransactionState::Queued, TransactionState::Running, TransactionState::Finished]
        );
    }
    assert!(mgr.list().is_empty());
}

#[test]
fn announcements_follow_the_life_of_a_transaction() {
    let mut mgr = Manager::new();
    let queued = mgr.enqueue(1, TransactionRole::Refresh, "c".into(), 1, "t").unwrap();
    assert_eq!(queued.state, TransactionState::Queued);
    match mgr.next_step() {
        NextStep::Start { event, .. } => assert_eq!(event.state, TransactionState::Running),
        _ => panic!("nothing was started"),
    }
    let done = mgr.finish().unwrap();
    assert_eq!(done.event().state, TransactionState::Finished);
    mgr.enqueue(2, TransactionRole::Refresh, "c".into(), 1, "t").unwrap();
    assert_eq!(mgr.cancel(2, 1).unwrap().event().state, TransactionState::Cancelled);
    assert!(!mgr.contains(1) && !mgr.contains(2));
}
