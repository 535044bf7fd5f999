use amo::clock::{Instant, SECOND};
use amo::error::{ErrorKind, ServiceError};
use amo::transaction::limits::{
    check_arg_size, MAX_TRANSACTION_ARG_BYTES, MAX_TRANSACTION_ARG_ITEMS,
};
use amo::transaction::live::{
    check_claim_still_active, claim_expired, claim_still_abandoned, create_transaction,
    dormant_expired, next_cancellation_id, next_claim_generation, object_path, owner_decides,
    remove_for_destroy, rollback_claim_if_not_enqueued, IdCounter, LiveTransaction, StartedClaim,
    CLAIM_TIMEOUT, DORMANT_TIMEOUT, MAX_LIVE_PER_UID, MAX_LIVE_TRANSACTIONS,
};
use amo::transaction::types::TransactionRole;
use amo::transaction::TransactionManager;
use std::collections::HashMap;

type Live = HashMap<u64, LiveTransaction>;

const NOW: Instant = Instant { nanos: 1_000_000_000_000 };

fn ago(nanos: u64) -> Instant {
    Instant { nanos: NOW.nanos - nanos }
}

fn claimed(id: u64, generation: &str, cancellation_id: Option<&str>) -> LiveTransaction {
    LiveTransaction {
        path: format!("/io/aosc/Amo/Transaction/{id}"),
        uid: 0,
        sender: ":1.999".into(),
        created_at: NOW,
        dormant_since: None,
        claimed_at: Some(NOW),
        claim_generation: generation.into(),
        cancellation_id: cancellation_id.map(|s| s.to_string()),
        started: true,
        enqueued: false,
    }
}

fn dormant(id: u64) -> LiveTransaction {
    LiveTransaction {
        path: format!("/io/aosc/Amo/Transaction/{id}"),
        uid: 0,
        sender: ":1.999".into(),
        created_at: NOW,
        dormant_since: Some(NOW),
        claimed_at: None,
        claim_generation: String::new(),
        cancellation_id: None,
        started: false,
        enqueued: false,
    }
}

fn live_with(id: u64) -> Live {
    let mut live = HashMap::new();
    live.insert(id, claimed(id, &format!("amo-{id}-0"), None));
    live
}

fn manager() -> TransactionManager<()> {
    TransactionManager::with_limits(10, 10)
}

fn manager_with(id: u64) -> TransactionManager<()> {
    let mut mgr = manager();
    mgr.enqueue(id, TransactionRole::Simulate, "tester".into(), 0, ()).expect("enqueue");
    mgr
}

fn kind<T>(r: Result<T, ServiceError>) -> Option<ErrorKind> {
    r.err().map(|e| e.kind)
}

#[test]
fn live_claim_rollback_clears_started() {
    let mut live = live_with(1);
    let mut claim = StartedClaim::new(1, "amo-1-0".into());
    claim.rollback(&mut live, NOW);
    assert!(!live.get(&1).unwrap().started);
}

#[test]
fn live_claim_rollback_clears_cancellation_id() {
    let mut live = HashMap::new();
    live.insert(1, claimed(1, "amo-1-0", Some("amo-1-0")));
    let mut claim = StartedClaim::new(1, "amo-1-0".into());
    claim.rollback(&mut live, NOW);
    let e = live.get(&1).unwrap();
    assert!(!e.started);
    assert!(e.claimed_at.is_none());
    assert!(e.claim_generation.is_empty());
    assert!(e.cancellation_id.is_none());
}

#[test]
fn cancel_rolls_back_claim_but_not_enqueued() {
    let mgr = manager();
    let mut live = HashMap::new();
    live.insert(1, claimed(1, "amo-1-0", Some("amo-1-0")));
    let outcome = rollback_claim_if_not_enqueued(&mut live, &mgr, 1, NOW).unwrap();
    assert!(outcome.rolled_back, "cancel must roll back the claim");
    assert_eq!(outcome.cancellation_id.as_deref(), Some("amo-1-0"));
    let e = live.get(&1).unwrap();
    assert!(!e.started, "cancel must roll back the claim");
    assert!(e.claimed_at.is_none());
    assert!(e.claim_generation.is_empty());
    assert!(e.cancellation_id.is_none());

    let mgr = manager_with(42);
    let mut live = HashMap::new();
    live.insert(42, claimed(42, "amo-42-0", Some("amo-42-0")));
    let outcome = rollback_claim_if_not_enqueued(&mut live, &mgr, 42, NOW).unwrap();
    assert!(!outcome.rolled_back, "enqueued transaction must not be rolled back by cancel");
    assert!(live.get(&42).unwrap().started);

    assert!(rollback_claim_if_not_enqueued(&mut live, &mgr, 7, NOW).is_none());
}

#[test]
fn cancel_rollback_without_cancellation_id_reports_success() {
    let mgr = manager();
    let mut live = HashMap::new();
    live.insert(1, claimed(1, "amo-1-0", None));
    let outcome = rollback_claim_if_not_enqueued(&mut live, &mgr, 1, NOW).unwrap();
    assert!(outcome.rolled_back);
    assert!(outcome.cancellation_id.is_none(), "no cancellation id to carry out");
    let e = live.get(&1).unwrap();
    assert!(!e.started, "claim must be cleared");
    assert!(e.claimed_at.is_none());
    assert!(e.claim_generation.is_empty());
}

#[test]
fn destroy_removes_claim_but_not_enqueued() {
    let mgr = manager();
    let mut live = HashMap::new();
    live.insert(1, claimed(1, "amo-1-0", Some("amo-1-0")));
    let cid = remove_for_destroy(&mut live, &mgr, 1).expect("destroy");
    assert_eq!(cid.as_deref(), Some("amo-1-0"));
    assert!(!live.contains_key(&1), "destroy must remove the entry");

    let mut live = HashMap::new();
    live.insert(2, dormant(2));
    let cid = remove_for_destroy(&mut live, &mgr, 2).expect("destroy");
    assert!(cid.is_none());
    assert!(!live.contains_key(&2));

    let mgr = manager_with(42);
    let mut live = HashMap::new();
    live.insert(42, claimed(42, "amo-42-0", Some("amo-42-0")));
    let refused = remove_for_destroy(&mut live, &mgr, 42).unwrap_err();
    assert_eq!(refused.kind, ErrorKind::Failed);
    assert_eq!(refused.message, "Transaction 42 already started");
    assert!(live.contains_key(&42), "enqueued transaction must survive");

    let missing = remove_for_destroy(&mut live, &mgr, 999).unwrap_err();
    assert_eq!(missing.kind, ErrorKind::UnknownObject);
    assert_eq!(missing.message, "Transaction 999 no longer exists");
}

#[test]
fn an_entry_marked_as_queued_is_left_alone() {
    // The slot may be free already while the entry still stands.
    let mgr = manager();
    let mut live = HashMap::new();
    let mut entry = claimed(3, "amo-3-0", None);
    entry.enqueued = true;
    live.insert(3, entry);
    assert!(!rollback_claim_if_not_enqueued(&mut live, &mgr, 3, NOW).unwrap().rolled_back);
    assert_eq!(kind(remove_for_destroy(&mut live, &mgr, 3)), Some(ErrorKind::Failed));
    assert!(!claim_expired(&mgr, true, 3, ":1.999", ago(2 * CLAIM_TIMEOUT), NOW, false));
    assert!(!claim_still_abandoned(&mgr, Some(NOW), Some(NOW), true, 3));
}

#[test]
fn begin_enqueue_recheck_requires_active_claim() {
    let mut live = HashMap::new();
    live.insert(1, claimed(1, "amo-1-0", Some("amo-1-0")));
    assert!(check_claim_still_active(&live, 1, "amo-1-0").is_ok());

    live.get_mut(&1).unwrap().started = false;
    let cancelled = check_claim_still_active(&live, 1, "amo-1-0").unwrap_err();
    assert_eq!(cancelled.kind, ErrorKind::Failed);
    assert_eq!(cancelled.message, "Transaction 1 was cancelled while awaiting authorization");

    live.remove(&1);
    let missing = check_claim_still_active(&live, 1, "amo-1-0").unwrap_err();
    assert_eq!(missing.kind, ErrorKind::UnknownObject);
    assert_eq!(missing.message, "Transaction 1 no longer exists");
}

#[test]
fn begin_enqueue_recheck_rejects_replaced_claim() {
    let mut live = HashMap::new();
    live.insert(1, claimed(1, "amo-1-1", None));
    let replaced = check_claim_still_active(&live, 1, "amo-1-0").unwrap_err();
    assert_eq!(replaced.kind, ErrorKind::Failed);
    assert_eq!(replaced.message, "Transaction 1 claim was replaced by a newer invocation");
    assert!(check_claim_still_active(&live, 1, "amo-1-1").is_ok());
}

#[test]
fn live_claim_commit_keeps_started() {
    let mut live = live_with(1);
    let mut claim = StartedClaim::new(1, "amo-1-0".into());
    claim.commit();
    claim.rollback(&mut live, NOW);
    assert!(live.get(&1).unwrap().started);
}

#[test]
fn a_claim_that_is_not_committed_can_be_given_up() {
    let mut live = live_with(1);
    let mut claim = StartedClaim::new(1, "amo-1-0".into());
    assert_eq!(claim.name(), "amo-1-0");
    claim.rollback(&mut live, NOW);
    assert!(!live.get(&1).unwrap().started);
}

#[test]
fn rollback_resets_dormant_timeout() {
    let mut live = live_with(1);
    assert!(live.get(&1).unwrap().dormant_since.is_none());

    let mut claim = StartedClaim::new(1, "amo-1-0".into());
    claim.rollback(&mut live, NOW);
    assert!(!live.get(&1).unwrap().started);
    assert_eq!(live.get(&1).unwrap().dormant_since, Some(NOW));

    {
        let e = live.get_mut(&1).unwrap();
        e.started = true;
        e.claimed_at = Some(NOW);
        e.claim_generation = "amo-1-1".into();
        e.dormant_since = None;
    }
    let mgr = manager();
    let outcome = rollback_claim_if_not_enqueued(&mut live, &mgr, 1, NOW).unwrap();
    assert!(outcome.rolled_back);
    assert!(outcome.cancellation_id.is_none());
    assert!(!live.get(&1).unwrap().started);
    assert_eq!(live.get(&1).unwrap().dormant_since, Some(NOW));
}

#[test]
fn dormant_expired_uses_reset_baseline() {
    let now = NOW;
    let created = ago(DORMANT_TIMEOUT + 30 * SECOND);
    assert!(dormant_expired(None, created, now));

    let reset = ago(10 * SECOND);
    assert!(!dormant_expired(Some(reset), created, now));

    let stale_reset = ago(DORMANT_TIMEOUT + SECOND);
    assert!(dormant_expired(Some(stale_reset), created, now));
}

#[test]
fn dormant_expiry_at_the_edge() {
    assert!(dormant_expired(Some(ago(DORMANT_TIMEOUT)), NOW, NOW));
    assert!(!dormant_expired(Some(ago(DORMANT_TIMEOUT - 1)), NOW, NOW));
    // A reading from after `now` is no age at all.
    assert!(!dormant_expired(Some(Instant { nanos: NOW.nanos + 5 }), NOW, NOW));
    assert_eq!(DORMANT_TIMEOUT, 60 * SECOND);
    assert_eq!(CLAIM_TIMEOUT, 300 * SECOND);
}

#[test]
fn stale_claim_rollback_does_not_clear_fresh_claim() {
    let mut live = HashMap::new();
    live.insert(1, claimed(1, "amo-1-0", Some("amo-1-0")));
    let mut old_claim = StartedClaim::new(1, "amo-1-0".into());
    old_claim.rollback(&mut live, NOW);
    {
        let e = live.get(&1).unwrap();
        assert!(!e.started);
        assert!(e.claimed_at.is_none());
        assert!(e.claim_generation.is_empty());
        assert!(e.cancellation_id.is_none());
    }
    {
        let e = live.get_mut(&1).unwrap();
        e.started = true;
        e.claimed_at = Some(NOW);
        e.claim_generation = "amo-1-1".into();
        e.cancellation_id = Some("amo-1-1".into());
    }
    let mut stale = StartedClaim::new(1, "amo-1-0".into());
    stale.rollback(&mut live, NOW);
    let e = live.get(&1).unwrap();
    assert!(e.started);
    assert!(e.claimed_at.is_some());
    assert_eq!(e.claim_generation.as_str(), "amo-1-1");
    assert_eq!(e.cancellation_id.as_deref(), Some("amo-1-1"));
}

#[test]
fn live_claim_expired_requires_dead_sender_or_timeout() {
    let mgr = manager();
    assert!(!claim_expired(&mgr, false, 1, ":1.42", NOW, NOW, true));
    assert!(claim_expired(&mgr, false, 1, ":1.42", ago(CLAIM_TIMEOUT + SECOND), NOW, true));
    assert!(claim_expired(&mgr, false, 1, ":1.999999999", NOW, NOW, false));

    let mgr = manager_with(42);
    assert!(!claim_expired(
        &mgr,
        false,
        42,
        ":1.999999999",
        ago(CLAIM_TIMEOUT + SECOND),
        NOW,
        false
    ));
}

#[test]
fn only_names_that_can_be_on_the_bus_lose_their_owner() {
    let mgr = manager();
    let gone = |sender: &str| claim_expired(&mgr, false, 1, sender, NOW, NOW, false);
    let long = format!(":1.{}", "9".repeat(252));
    let too_long = format!(":1.{}", "9".repeat(253));
    for name in [
        ":1.42",
        ":1.0",
        "org.freedesktop.DBus",
        "org.gnome.Service-for_you",
        "a.b",
        "_a.-b",
        ":org.gnome.Service-for_you",
        long.as_str(),
    ] {
        assert!(gone(name), "{name}");
        assert!(owner_decides(&mgr, false, 1, name, NOW, NOW), "{name}");
    }
    for name in [
        "",
        ".",
        ":",
        ":.",
        "no-dots",
        ":nodots",
        "double..dots",
        ".start.with.dot",
        "end.with.dot.",
        "1start.with.digit",
        "a.1b",
        "a b.c",
        "ä.b",
        ":1.4:2",
        too_long.as_str(),
    ] {
        assert!(!gone(name), "{name}");
        assert!(!owner_decides(&mgr, false, 1, name, NOW, NOW), "{name}");
    }
    assert!(!owner_decides(&mgr, true, 1, ":1.42", NOW, NOW));
    assert!(!owner_decides(&mgr, false, 1, ":1.42", ago(CLAIM_TIMEOUT), NOW));
    assert!(!owner_decides(&manager_with(1), false, 1, ":1.42", NOW, NOW));
}

#[test]
fn live_expired_claim_not_removed_after_fresh_retry() {
    let mgr = manager();
    assert!(!claim_still_abandoned(&mgr, Some(NOW), Some(ago(SECOND)), false, 1));
    assert!(!claim_still_abandoned(&mgr, None, Some(ago(SECOND)), false, 1));
    assert!(claim_still_abandoned(&mgr, Some(NOW), Some(NOW), false, 1));
    let mgr = manager_with(42);
    assert!(!claim_still_abandoned(&mgr, Some(NOW), Some(NOW), false, 42));
}

#[test]
fn live_cancellation_ids_are_unique_and_nonempty() {
    let mut ids = IdCounter::new();
    let a = next_cancellation_id(&mut ids, 1);
    let b = next_cancellation_id(&mut ids, 1);
    assert!(!a.is_empty() && !b.is_empty());
    assert!(a.starts_with("amo-1-"), "unexpected id {a}");
    assert_ne!(a, b, "counter must yield unique ids");
    assert_eq!(a, "amo-1-0");
    assert_eq!(b, "amo-1-1");
}

#[test]
fn transaction_object_cancellation_ids_are_unique_and_nonempty() {
    let mut ids = IdCounter::new();
    let a = next_cancellation_id(&mut ids, 1);
    let b = next_cancellation_id(&mut ids, 1);
    assert!(!a.is_empty() && !b.is_empty());
    assert!(a.starts_with("amo-1-"), "unexpected id {a}");
    assert_ne!(a, b, "counter must yield unique ids");
}

#[test]
fn claim_generations_are_unique_and_nonempty() {
    let mut ids = IdCounter::new();
    let a = next_claim_generation(&mut ids, 1);
    let b = next_claim_generation(&mut ids, 1);
    assert!(!a.is_empty() && !b.is_empty());
    assert!(a.starts_with("amo-1-"), "unexpected generation {a}");
    assert_ne!(a, b, "counter must yield unique generations");
}

#[test]
fn ids_of_many_transactions_differ() {
    let mut ids = IdCounter::new();
    let mut seen = std::collections::HashSet::new();
    for tx in [0u64, 1, 10, 11, 111, u64::MAX] {
        for _ in 0..12 {
            assert!(seen.insert(next_claim_generation(&mut ids, tx)));
        }
    }
    assert!(seen.contains("amo-18446744073709551615-71"));
}

#[test]
fn oversized_transaction_arguments_rejected() {
    assert!(check_arg_size(&["fish".into()], &["vim".into()]).is_ok());
    let big = "x".repeat(MAX_TRANSACTION_ARG_BYTES + 1);
    let refused = check_arg_size(&[big], &[]).unwrap_err();
    assert_eq!(refused.kind, ErrorKind::LimitsExceeded);
    assert_eq!(
        refused.message,
        "Transaction arguments too large (16777217 bytes, limit 16777216)"
    );
    let half = MAX_TRANSACTION_ARG_BYTES / 2 + 1;
    assert!(check_arg_size(&["a".repeat(half)], &["b".repeat(half)]).is_err());
    assert!(check_arg_size(&["y".repeat(MAX_TRANSACTION_ARG_BYTES)], &[]).is_ok());
    let many = vec![String::new(); MAX_TRANSACTION_ARG_ITEMS + 1];
    let refused = check_arg_size(&many, &[]).unwrap_err();
    assert_eq!(refused.kind, ErrorKind::LimitsExceeded);
    assert_eq!(refused.message, "Too many transaction arguments (65537, limit 65536)");
    let exactly = vec![String::new(); MAX_TRANSACTION_ARG_ITEMS];
    assert!(check_arg_size(&exactly, &[]).is_ok());
    let half_items = MAX_TRANSACTION_ARG_ITEMS / 2 + 1;
    assert!(check_arg_size(
        &vec![String::new(); half_items],
        &vec![String::new(); half_items]
    )
    .is_err());
}

#[test]
fn arguments_are_counted_in_bytes() {
    let third = MAX_TRANSACTION_ARG_BYTES / 3;
    assert!(check_arg_size(&["漢".repeat(third)], &[]).is_ok());
    assert!(check_arg_size(&["漢".repeat(third + 1)], &[]).is_err());
}

#[test]
fn objects_are_limited_in_all_and_per_user() {
    let mut live: Live = HashMap::new();
    let mut id: u64 = 0;
    for uid in 0..3u32 {
        for _ in 0..MAX_LIVE_PER_UID {
            id += 1;
            let path = create_transaction(&mut live, id, uid, ":1.5".into(), NOW).unwrap();
            assert_eq!(path, format!("/io/aosc/Amo/Transaction/{id}"));
            assert_eq!(path, object_path(id));
        }
        let refused = create_transaction(&mut live, 1000, uid, ":1.5".into(), NOW).unwrap_err();
        assert_eq!(refused.kind, ErrorKind::LimitsExceeded);
        assert_eq!(refused.message, "Too many live transactions from this user");
    }
    while live.len() < MAX_LIVE_TRANSACTIONS {
        id += 1;
        create_transaction(&mut live, id, id as u32 + 100, ":1.5".into(), NOW).unwrap();
    }
    let refused = create_transaction(&mut live, 1000, 77, ":1.5".into(), NOW).unwrap_err();
    assert_eq!(refused.kind, ErrorKind::LimitsExceeded);
    assert_eq!(refused.message, "Too many live transactions, try again later");
    let entry = live.get(&1).unwrap();
    assert!(!entry.started && !entry.enqueued);
    assert_eq!(entry.dormant_since, Some(NOW));
    assert_eq!(entry.created_at, NOW);
    assert!(entry.claimed_at.is_none());
}

#[test]
fn a_claim_is_given_up_once() {
    let mut live = live_with(1);
    let mut claim = StartedClaim::new(1, "amo-1-0".into());
    claim.rollback(&mut live, NOW);
    claim.rollback(&mut live, Instant { nanos: NOW.nanos + SECOND });
    assert_eq!(live.get(&1).unwrap().dormant_since, Some(NOW));
    // Nor by another hand, once it is no longer the object's claim.
    let mut late = StartedClaim::new(1, "amo-1-0".into());
    late.rollback(&mut live, Instant { nanos: NOW.nanos + SECOND });
    assert_eq!(live.get(&1).unwrap().dormant_since, Some(NOW));
}

#[test]
fn every_object_has_its_own_path() {
    let mut seen = std::collections::HashSet::new();
    for id in [0u64, 1, 10, 100, 11, u64::MAX, 20260101 << 32 | 1, 20260101 << 32 | 11] {
        assert!(seen.insert(object_path(id)));
    }
    assert!(seen.contains("/io/aosc/Amo/Transaction/18446744073709551615"));
}
