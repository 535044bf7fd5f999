use amo::clock::{Instant, SECOND};
use amo::error::{ErrorKind, ServiceError};
use amo::transaction::events::{
    emit_progress, progress_event, request_report_json, role_name, state_name, summary_report,
    request_status, to_json, work_report, write_report, write_request_report, write_status,
    RequestWork, SummaryOutcome, WorkOutcome,
};
use amo::transaction::live::{
    create_transaction, IdCounter, LiveTransaction, CLAIM_TIMEOUT, DORMANT_TIMEOUT,
};
use amo::transaction::object::{
    auth_action, auth_timed_out, cancel_error, enqueue_error, AuthFailure, AuthStep, AuthVerdict,
    Cancelled, Claimed, TransactionObject,
};
use amo::transaction::reclaim::{judge, snapshot, sweep, Candidate, Swept};
use amo::transaction::types::{
    CancelError, EnqueueError, ResultReport, TaskStatus, TransactionEvent, TransactionRole,
    TransactionState, TransactionStateEvent,
};
use amo::transaction::{NextStep, TransactionManager};
use std::collections::HashMap;

/// A registry, a scheduler and the counters, with a clock that is set by hand.
struct World {
    live: HashMap<u64, LiveTransaction>,
    manager: TransactionManager<&'static str>,
    generations: IdCounter,
    cancellations: IdCounter,
    now: Instant,
}

const OWNER: &str = ":1.42";

fn world() -> World {
    World {
        live: HashMap::new(),
        manager: TransactionManager::with_limits(4, 2),
        generations: IdCounter::new(),
        cancellations: IdCounter::new(),
        now: Instant { nanos: 1_000 * SECOND },
    }
}

fn object(w: &mut World, id: u64) -> TransactionObject {
    create_transaction(&mut w.live, id, 1000, OWNER.into(), w.now).unwrap();
    TransactionObject { id, sender: OWNER.into(), uid: 1000 }
}

fn claim(w: &mut World, o: &TransactionObject, role: TransactionRole) -> Claimed {
    match o.claim(OWNER, role, &mut w.live, &mut w.generations, &mut w.cancellations, w.now) {
        Ok(c) => c,
        Err(e) => panic!("{e:?}"),
    }
}

fn queue(w: &mut World, o: &TransactionObject, c: &mut Claimed) -> Result<(), (ErrorKind, String)> {
    o.enqueue(
        &mut c.claim,
        TransactionRole::Simulate,
        OWNER.into(),
        1000,
        0,
        "task",
        &mut w.live,
        &mut w.manager,
        w.now,
    )
    .map(|event| {
        assert_eq!(event.transaction_id, o.id);
        assert_eq!(event.state, TransactionState::Queued);
    })
    .map_err(|e| (e.kind, e.message))
}

#[test]
fn an_operation_is_claimed_authorized_and_queued() {
    let mut w = world();
    let o = object(&mut w, 5);
    let mut c = claim(&mut w, &o, TransactionRole::Refresh);
    assert_eq!(c.claim.name(), "amo-5-0");
    {
        let auth = c.auth.as_ref().unwrap();
        assert_eq!(auth.action, "io.aosc.amo.refresh");
        assert_eq!(auth.cancellation_id, "amo-5-0");
        let e = &w.live[&5];
        assert!(e.started && !e.enqueued);
        assert_eq!(e.claimed_at, Some(w.now));
        assert!(e.dormant_since.is_none());
        assert_eq!(e.claim_generation, "amo-5-0");
        assert_eq!(e.cancellation_id.as_deref(), Some("amo-5-0"));
    }
    let step = o.after_auth(AuthVerdict::Granted, &mut c.claim, &mut w.live, w.now);
    assert_eq!(step, AuthStep::Proceed);
    queue(&mut w, &o, &mut c).unwrap();
    assert!(w.live[&5].enqueued);
    assert!(w.manager.contains(5));
    // What is queued is not given up any more.
    c.claim.rollback(&mut w.live, w.now);
    assert!(w.live[&5].started);
}

#[test]
fn an_object_is_started_once_and_only_by_its_owner() {
    let mut w = world();
    let o = object(&mut w, 1);
    let refused = |r: Result<Claimed, amo::error::ServiceError>| match r {
        Ok(_) => panic!("claimed"),
        Err(e) => (e.kind, e.message),
    };
    let stranger = o.claim(
        ":1.7",
        TransactionRole::Simulate,
        &mut w.live,
        &mut w.generations,
        &mut w.cancellations,
        w.now,
    );
    assert_eq!(
        refused(stranger),
        (ErrorKind::AccessDenied, "Not the owner of this transaction".to_string())
    );
    let c = claim(&mut w, &o, TransactionRole::Simulate);
    assert!(c.auth.is_none());
    assert_eq!(c.claim.name(), "amo-1-0");
    let twice = o.claim(
        OWNER,
        TransactionRole::Simulate,
        &mut w.live,
        &mut w.generations,
        &mut w.cancellations,
        w.now,
    );
    assert_eq!(
        refused(twice),
        (ErrorKind::Failed, "Transaction 1 already started".to_string())
    );
    let missing = TransactionObject { id: 9, sender: OWNER.into(), uid: 1000 }.claim(
        OWNER,
        TransactionRole::Simulate,
        &mut w.live,
        &mut w.generations,
        &mut w.cancellations,
        w.now,
    );
    assert_eq!(
        refused(missing),
        (ErrorKind::UnknownObject, "Transaction 9 no longer exists".to_string())
    );
}

#[test]
fn an_operation_that_is_not_authorized_is_given_up() {
    for (verdict, call_off) in [(AuthVerdict::TimedOut, true), (AuthVerdict::Refused, false)] {
        let mut w = world();
        let o = object(&mut w, 3);
        let mut c = claim(&mut w, &o, TransactionRole::ApplyChanges);
        assert_eq!(c.auth.as_ref().unwrap().action, "io.aosc.Amo.apply.run");
        w.now = Instant { nanos: w.now.nanos + 250 * SECOND };
        let step = o.after_auth(verdict, &mut c.claim, &mut w.live, w.now);
        assert_eq!(step, AuthStep::GiveUp { call_off });
        assert!(!w.live[&3].started);
        assert_eq!(w.live[&3].dormant_since, Some(w.now));
        // And can be tried again, under another name.
        let c = claim(&mut w, &o, TransactionRole::ApplyChanges);
        assert_eq!(c.claim.name(), "amo-3-1");
        assert_eq!(c.auth.unwrap().cancellation_id, "amo-3-1");
    }
}

#[test]
fn an_operation_that_was_cancelled_and_repeated_is_not_queued_twice() {
    let mut w = world();
    let o = object(&mut w, 8);
    let mut first = claim(&mut w, &o, TransactionRole::UpdatesList);
    match o.cancel(OWNER, &mut w.live, &mut w.manager, w.now) {
        Ok(Cancelled::Claim(cid)) => assert!(cid.is_none()),
        _ => panic!("the claim was waiting"),
    }
    assert_eq!(
        queue(&mut w, &o, &mut first),
        Err((
            ErrorKind::Failed,
            "Transaction 8 was cancelled while awaiting authorization".to_string()
        ))
    );

    let mut second = claim(&mut w, &o, TransactionRole::UpdatesList);
    let mut late = claim_named("amo-8-0", 8);
    assert_eq!(
        queue(&mut w, &o, &mut late),
        Err((
            ErrorKind::Failed,
            "Transaction 8 claim was replaced by a newer invocation".to_string()
        ))
    );
    assert!(w.live[&8].started, "the new claim is untouched");
    queue(&mut w, &o, &mut second).unwrap();
    assert_eq!(w.manager.list().len(), 1);
}

fn claim_named(name: &str, id: u64) -> Claimed {
    Claimed {
        claim: amo::transaction::live::StartedClaim::new(id, name.to_string()),
        auth: None,
    }
}

#[test]
fn a_refused_queueing_gives_the_claim_up() {
    let mut w = world();
    for id in 1..=2 {
        let o = object(&mut w, id);
        let mut c = claim(&mut w, &o, TransactionRole::Simulate);
        queue(&mut w, &o, &mut c).unwrap();
    }
    let o = object(&mut w, 3);
    let mut c = claim(&mut w, &o, TransactionRole::Simulate);
    assert_eq!(
        queue(&mut w, &o, &mut c),
        Err((
            ErrorKind::LimitsExceeded,
            "Too many queued transactions from this user".to_string()
        ))
    );
    assert!(!w.live[&3].started && !w.live[&3].enqueued);
    assert!(!w.manager.contains(3));
    // One leaves the queue, and there is a place again.
    assert!(matches!(w.manager.next_step(), NextStep::Start { .. }));
    let mut c = claim(&mut w, &o, TransactionRole::Simulate);
    queue(&mut w, &o, &mut c).unwrap();
}

#[test]
fn cancelling_answers_by_where_the_transaction_is() {
    let mut w = world();
    let o = object(&mut w, 6);
    let err = |r: Result<Cancelled<&'static str>, amo::error::ServiceError>| match r {
        Ok(_) => panic!("cancelled"),
        Err(e) => (e.kind, e.message),
    };
    assert_eq!(
        err(o.cancel(":1.7", &mut w.live, &mut w.manager, w.now)),
        (ErrorKind::AccessDenied, "Not the owner of this transaction".to_string())
    );
    assert_eq!(
        err(o.cancel(OWNER, &mut w.live, &mut w.manager, w.now)),
        (ErrorKind::UnknownObject, "Transaction 6 not found".to_string())
    );
    let mut c = claim(&mut w, &o, TransactionRole::Refresh);
    match o.cancel(OWNER, &mut w.live, &mut w.manager, w.now) {
        Ok(Cancelled::Claim(cid)) => assert_eq!(cid.as_deref(), Some("amo-6-0")),
        _ => panic!("the claim was waiting"),
    }
    let _ = c.claim.name();
    c = claim(&mut w, &o, TransactionRole::Refresh);
    queue(&mut w, &o, &mut c).unwrap();
    match o.cancel(OWNER, &mut w.live, &mut w.manager, w.now) {
        Ok(Cancelled::Queued(tx)) => {
            assert_eq!(tx.id, 6);
            assert_eq!(tx.task, Some("task"));
            assert_eq!(tx.state, TransactionState::Cancelled);
        }
        _ => panic!("the transaction was queued"),
    }
    let o = object(&mut w, 7);
    let mut c = claim(&mut w, &o, TransactionRole::Refresh);
    queue(&mut w, &o, &mut c).unwrap();
    let _ = w.manager.next_step();
    assert_eq!(
        err(o.cancel(OWNER, &mut w.live, &mut w.manager, w.now)),
        (ErrorKind::Failed, "Transaction 7 is already running".to_string())
    );
    assert_eq!(cancel_error(CancelError::AlreadyCancelled, 7).message, "Transaction 7 is already cancelled");
    assert_eq!(cancel_error(CancelError::NotOwner, 7).kind, ErrorKind::AccessDenied);
}

#[test]
fn destroying_is_for_objects_that_do_nothing() {
    let mut w = world();
    let o = object(&mut w, 2);
    let stranger = o.destroy(":1.7", &mut w.live, &w.manager).unwrap_err();
    assert_eq!(stranger.kind, ErrorKind::AccessDenied);
    let mut c = claim(&mut w, &o, TransactionRole::Refresh);
    queue(&mut w, &o, &mut c).unwrap();
    let busy = o.destroy(OWNER, &mut w.live, &w.manager).unwrap_err();
    assert_eq!((busy.kind, busy.message.as_str()), (ErrorKind::Failed, "Transaction 2 already started"));
    let o = object(&mut w, 3);
    let _c = claim(&mut w, &o, TransactionRole::Refresh);
    assert_eq!(o.destroy(OWNER, &mut w.live, &w.manager).unwrap().as_deref(), Some("amo-3-1"));
    let gone = o.destroy(OWNER, &mut w.live, &w.manager).unwrap_err();
    assert_eq!(gone.kind, ErrorKind::UnknownObject);
}

#[test]
fn object_auth_timeout_aborts_pending_auth() {
    // Nobody answers.
    match TransactionObject::await_auth::<ServiceError>(1, None) {
        Err(AuthFailure::TimedOut(e)) => {
            assert_eq!(e.kind, ErrorKind::TimedOut);
            assert_eq!(e.message, "Authorization for transaction 1 timed out");
        }
        _ => panic!("pending auth must time out"),
    }
    // A refusal is passed on as it is.
    let no = ServiceError::new(ErrorKind::AccessDenied, "no");
    match TransactionObject::await_auth(1, Some(Err(no))) {
        Err(AuthFailure::Failed(e)) => {
            assert_eq!((e.kind, e.message.as_str()), (ErrorKind::AccessDenied, "no"));
        }
        _ => panic!("denied auth must return its error"),
    }
    // An approval lets the call go on.
    assert!(
        TransactionObject::await_auth::<ServiceError>(1, Some(Ok(()))).is_ok(),
        "approved auth must succeed"
    );

    // A claim stands until the check has ended, and outlives it only if it was granted. A
    // check that is still open is called off.
    for (verdict, step, stays) in [
        (AuthVerdict::TimedOut, AuthStep::GiveUp { call_off: true }, false),
        (AuthVerdict::Refused, AuthStep::GiveUp { call_off: false }, false),
        (AuthVerdict::Granted, AuthStep::Proceed, true),
    ] {
        let mut w = world();
        let o = object(&mut w, 1);
        let mut c = claim(&mut w, &o, TransactionRole::ApplyChanges);
        assert!(w.live.get(&1).unwrap().started);
        assert_eq!(o.after_auth(verdict, &mut c.claim, &mut w.live, w.now), step);
        assert_eq!(w.live.get(&1).unwrap().started, stays);
    }
}

#[test]
fn previews_need_no_authorization() {
    assert_eq!(auth_timed_out(1).message, "Authorization for transaction 1 timed out");
    assert_eq!(auth_action(TransactionRole::Simulate), None);
    assert_eq!(auth_action(TransactionRole::UpdatesList), None);
    assert_eq!(
        enqueue_error(EnqueueError::QueueFull).message,
        "Transaction queue is full, try again later"
    );
}

fn sweep_all(w: &mut World, has_owner: bool) -> Swept {
    let candidates: Vec<(Candidate, bool)> =
        snapshot(&w.live).into_iter().map(|c| (c, has_owner)).collect();
    assert_eq!(candidates.len(), w.live.len());
    let stale = judge(&candidates, &w.manager, w.now);
    sweep(&mut w.live, &w.manager, &stale, w.now)
}

#[test]
fn stale_objects_are_reclaimed_and_others_are_not() {
    let mut w = world();
    let born = w.now;
    let _dormant = object(&mut w, 1);
    let claimed = object(&mut w, 2);
    let _c = claim(&mut w, &claimed, TransactionRole::Refresh);
    let queued = object(&mut w, 3);
    let mut q = claim(&mut w, &queued, TransactionRole::Simulate);
    queue(&mut w, &queued, &mut q).unwrap();

    w.now = Instant { nanos: born.nanos + DORMANT_TIMEOUT - 1 };
    let swept = sweep_all(&mut w, true);
    assert!(swept.dormant.is_empty() && swept.abandoned.is_empty());

    w.now = Instant { nanos: born.nanos + DORMANT_TIMEOUT };
    let _young = object(&mut w, 4);
    let swept = sweep_all(&mut w, true);
    assert_eq!(swept.dormant, vec!["/io/aosc/Amo/Transaction/1".to_string()]);
    assert!(swept.abandoned.is_empty() && swept.cancel_ids.is_empty());

    // The owner leaves: only the claim that waits is given up, its check is called off.
    let swept = sweep_all(&mut w, false);
    assert!(swept.dormant.is_empty());
    assert_eq!(swept.abandoned, vec!["/io/aosc/Amo/Transaction/2".to_string()]);
    assert_eq!(swept.cancel_ids, vec!["amo-2-0".to_string()]);

    // However long it takes, a queued transaction keeps its object.
    w.now = Instant { nanos: born.nanos + 100 * CLAIM_TIMEOUT };
    let swept = sweep_all(&mut w, false);
    assert_eq!(swept.dormant, vec!["/io/aosc/Amo/Transaction/4".to_string()]);
    assert!(w.live.contains_key(&3));
    assert_eq!(w.live.len(), 1);
}

#[test]
fn a_claim_outlasts_its_time_with_its_owner_there() {
    let mut w = world();
    let o = object(&mut w, 2);
    let _c = claim(&mut w, &o, TransactionRole::Simulate);
    w.now = Instant { nanos: w.now.nanos + CLAIM_TIMEOUT };
    let swept = sweep_all(&mut w, true);
    assert_eq!(swept.abandoned.len(), 1);
    assert!(swept.cancel_ids.is_empty(), "there was no check");
}

#[test]
fn what_changed_after_the_judgement_stays() {
    // A claim made anew, a claim queued, and a dormant object claimed in between.
    let mut w = world();
    let again = object(&mut w, 1);
    let mut c = claim(&mut w, &again, TransactionRole::Simulate);
    let queued = object(&mut w, 2);
    let mut q = claim(&mut w, &queued, TransactionRole::Simulate);
    let woken = object(&mut w, 3);
    let gone = object(&mut w, 4);
    let _g = claim(&mut w, &gone, TransactionRole::Simulate);
    w.now = Instant { nanos: w.now.nanos + 2 * CLAIM_TIMEOUT };
    let candidates: Vec<(Candidate, bool)> =
        snapshot(&w.live).into_iter().map(|c| (c, true)).collect();
    let stale = judge(&candidates, &w.manager, w.now);
    assert_eq!(stale.dormant.len(), 1);
    assert_eq!(stale.abandoned.len(), 3);

    c.claim.rollback(&mut w.live, w.now);
    let _fresh = claim(&mut w, &again, TransactionRole::Simulate);
    queue(&mut w, &queued, &mut q).unwrap();
    let _woken = claim(&mut w, &woken, TransactionRole::Simulate);

    let swept = sweep(&mut w.live, &w.manager, &stale, w.now);
    assert!(swept.dormant.is_empty());
    assert_eq!(swept.abandoned, vec!["/io/aosc/Amo/Transaction/4".to_string()]);
    let mut left: Vec<u64> = w.live.keys().copied().collect();
    left.sort_unstable();
    assert_eq!(left, vec![1, 2, 3]);
}

#[test]
fn object_progress_event_carries_scalar_and_map_payloads() {
    let json = emit_progress("\"Done\"").expect("scalar progress must serialize");
    let v: serde_json::Value = serde_json::from_str(&json).unwrap();
    assert_eq!(v["type"], "progress");
    assert_eq!(v["payload"], "Done");

    let json = emit_progress("{\"DownloadEvent\": {\"AllDone\": {}}}")
        .expect("map progress must serialize");
    let v: serde_json::Value = serde_json::from_str(&json).unwrap();
    assert_eq!(v["type"], "progress");
    assert_eq!(
        v["payload"]["DownloadEvent"]["AllDone"],
        serde_json::Value::Object(serde_json::Map::new())
    );
    assert_eq!(json, "{\"type\":\"progress\",\"payload\":{\"DownloadEvent\":{\"AllDone\":{}}}}");
}

#[test]
fn transaction_object_progress_event_carries_scalar_and_map_payloads() {
    let scalar = to_json(&TransactionEvent::Progress { payload: "\"Done\"".into() });
    let v: serde_json::Value = serde_json::from_str(&scalar).unwrap();
    assert_eq!(v["type"], "progress");
    assert_eq!(v["payload"], "Done");
    let map = to_json(&TransactionEvent::Progress {
        payload: "{\"DownloadEvent\":{\"AllDone\":{}}}".into(),
    });
    let v: serde_json::Value = serde_json::from_str(&map).unwrap();
    assert_eq!(v["type"], "progress");
    assert_eq!(
        v["payload"]["DownloadEvent"]["AllDone"],
        serde_json::Value::Object(serde_json::Map::new())
    );
}

#[test]
fn payloads_that_are_no_json_are_refused() {
    let e = emit_progress("{broken").unwrap_err();
    assert_eq!(e.kind, ErrorKind::Failed);
    assert!(e.message.starts_with("Invalid progress payload: "), "{}", e.message);
    assert!(e.message.len() > "Invalid progress payload: ".len());
    let e = progress_event(Err("why".into())).unwrap_err();
    assert_eq!(e.message, "Invalid progress payload: why");
    assert_eq!(
        progress_event(Ok("1".into())).unwrap(),
        "{\"type\":\"progress\",\"payload\":1}"
    );
}

#[test]
fn events_are_written_as_json() {
    let state = TransactionEvent::State(TransactionStateEvent {
        transaction_id: 20260101 << 32 | 7,
        role: TransactionRole::UpdatesList,
        state: TransactionState::Cancelled,
    });
    assert_eq!(
        to_json(&state),
        "{\"type\":\"state\",\"transaction_id\":87016471208656903,\"role\":\"updates_list\",\"state\":\"cancelled\"}"
    );
    let report = TransactionEvent::Result(ResultReport {
        transaction_id: 1,
        role: TransactionRole::Simulate,
        status: TaskStatus::Success,
        result: Some("{\"tum\":[]}".into()),
    });
    assert_eq!(
        to_json(&report),
        "{\"type\":\"result\",\"transaction_id\":1,\"role\":\"simulate\",\"status\":\"Success\",\"result\":{\"tum\":[]}}"
    );
    for (role, name) in [
        (TransactionRole::Refresh, "refresh"),
        (TransactionRole::ApplyChanges, "apply_changes"),
        (TransactionRole::Simulate, "simulate"),
        (TransactionRole::UpdatesList, "updates_list"),
    ] {
        assert_eq!(role_name(role), name);
    }
    for (state, name) in [
        (TransactionState::Queued, "queued"),
        (TransactionState::Running, "running"),
        (TransactionState::Finished, "finished"),
        (TransactionState::Cancelled, "cancelled"),
    ] {
        assert_eq!(state_name(state), name);
    }
}

#[test]
fn messages_are_escaped_in_json() {
    let nasty = "say \"no\"\\\n\u{1}\tü";
    let json = request_report_json(12, &TaskStatus::Failed(nasty.into()));
    let v: serde_json::Value = serde_json::from_str(&json).unwrap();
    assert_eq!(v["request_id"], 12);
    assert_eq!(v["status"]["Failed"], nasty);
    assert_eq!(
        request_report_json(12, &TaskStatus::Success),
        "{\"request_id\":12,\"status\":\"Success\"}"
    );
}

fn why(status: TaskStatus) -> Option<String> {
    match status {
        TaskStatus::Success => None,
        TaskStatus::Failed(e) => Some(e),
    }
}

#[test]
fn work_is_reported_with_its_own_failure_first() {
    let role = TransactionRole::ApplyChanges;
    let ok = work_report(4, role, WorkOutcome::Returned(Ok(())), Ok(()));
    assert_eq!((ok.transaction_id, ok.role), (4, role));
    assert!(ok.result.is_none());
    assert_eq!(why(ok.status), None);
    let both = work_report(4, role, WorkOutcome::Returned(Err("disk full".into())), Err("x".into()));
    assert_eq!(why(both.status).as_deref(), Some("disk full"));
    let refresh = work_report(4, role, WorkOutcome::Returned(Ok(())), Err("no lists".into()));
    assert_eq!(
        why(refresh.status).as_deref(),
        Some("Package operation succeeded but cache refresh failed: no lists")
    );
    let lost = work_report(4, role, WorkOutcome::Lost("panic".into()), Ok(()));
    assert_eq!(why(lost.status).as_deref(), Some("Task failed to join: panic"));
    let lost = request_status(RequestWork::Refresh, WorkOutcome::Lost("panic".into()), Ok(()));
    assert_eq!(why(lost).as_deref(), Some("Refresh task failed to join: panic"));
    let lost = request_status(RequestWork::ApplyChanges, WorkOutcome::Lost("panic".into()), Ok(()));
    assert_eq!(why(lost).as_deref(), Some("Apply task failed to join: panic"));
}

#[test]
fn previews_are_reported_with_their_result() {
    let role = TransactionRole::Simulate;
    let ok = summary_report(4, role, SummaryOutcome::Summary("{}".into()));
    assert_eq!(why(ok.status), None);
    assert_eq!(ok.result.as_deref(), Some("{}"));
    let r = summary_report(4, role, SummaryOutcome::Unwritable("nan".into()));
    assert_eq!(why(r.status).as_deref(), Some("Serialize Simulate result: nan"));
    assert!(r.result.is_none());
    let r = summary_report(4, role, SummaryOutcome::Failed("apt".into()));
    assert_eq!(why(r.status).as_deref(), Some("apt"));
    let r = summary_report(4, TransactionRole::UpdatesList, SummaryOutcome::Lost("panic".into()));
    assert_eq!(why(r.status).as_deref(), Some("UpdatesList task failed to join: panic"));
}

#[test]
fn reports_are_written_around_their_status() {
    assert_eq!(write_status(None), "\"Success\"");
    assert_eq!(write_status(Some("\"boom\"")), "{\"Failed\":\"boom\"}");
    let report = ResultReport {
        transaction_id: 7,
        role: TransactionRole::ApplyChanges,
        status: TaskStatus::Failed("boom".into()),
        result: None,
    };
    assert_eq!(
        write_report(&report, "{\"Failed\":\"boom\"}"),
        "{\"type\":\"result\",\"transaction_id\":7,\"role\":\"apply_changes\",\"status\":{\"Failed\":\"boom\"}}"
    );
    assert_eq!(
        to_json(&TransactionEvent::Result(report)),
        "{\"type\":\"result\",\"transaction_id\":7,\"role\":\"apply_changes\",\"status\":{\"Failed\":\"boom\"}}"
    );
    assert_eq!(write_request_report(9, "\"Success\""), "{\"request_id\":9,\"status\":\"Success\"}");
}

#[test]
fn every_character_is_escaped_as_json_asks() {
    for n in 0..0x300u32 {
        let c = char::from_u32(n).unwrap();
        let expected = match c {
            '"' => "\\\"".to_string(),
            '\\' => "\\\\".to_string(),
            '\u{8}' => "\\b".to_string(),
            '\t' => "\\t".to_string(),
            '\n' => "\\n".to_string(),
            '\u{c}' => "\\f".to_string(),
            '\r' => "\\r".to_string(),
            c if n < 0x20 => format!("\\u{:04x}", c as u32),
            c => c.to_string(),
        };
        let json = request_report_json(1, &TaskStatus::Failed(format!("a{c}b")));
        assert_eq!(
            json,
            format!("{{\"request_id\":1,\"status\":{{\"Failed\":\"a{expected}b\"}}}}")
        );
    }
}

#[test]
fn only_claims_that_wait_ask_for_their_owner() {
    let mut w = world();
    let _dormant = object(&mut w, 1);
    let waits = object(&mut w, 2);
    let _c = claim(&mut w, &waits, TransactionRole::Simulate);
    for c in snapshot(&w.live) {
        assert_eq!(c.asks_for_owner(&w.manager, w.now), c.id == 2);
        assert_eq!(c.claim_start(), w.now);
    }
}
