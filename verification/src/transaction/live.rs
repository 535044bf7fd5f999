//! The registry of transaction objects and the life of their entries: an object is
//! dormant until an operation claims it, a claim awaits authorization until its
//! transaction is queued, and objects that nobody goes on with are reclaimed.
use std::collections::HashMap;
use vstd::prelude::*;

use crate::clock::{Instant, SECOND};
use crate::error::{answer, ErrorKind, ServiceError};
use crate::text::{decimal, numbered, push_decimal, same_text, text_of};
use crate::transaction::TransactionManager;

verus! {

broadcast use vstd::std_specs::hash::group_hash_axioms;

/// How many transaction objects there may be.
pub const MAX_LIVE_TRANSACTIONS: usize = 64;

/// How many transaction objects one user may own.
pub const MAX_LIVE_PER_UID: usize = 16;

/// How long an object may stay dormant, in nanoseconds.
pub const DORMANT_TIMEOUT: u64 = 60 * SECOND;

/// How long a claim may go without its transaction being queued, in nanoseconds.
pub const CLAIM_TIMEOUT: u64 = 300 * SECOND;

/// A source of ids: it counts on with every id.
pub struct IdCounter {
    next: u64,
}

/// An id: it names the transaction and the count.
pub open spec fn numbered_id(tx_id: u64, n: u64) -> Seq<char> {
    "amo-"@ + decimal(tx_id as nat) + "-"@ + decimal(n as nat)
}

impl IdCounter {
    /// The count that the next id carries.
    pub closed spec fn next(self) -> u64 {
        self.next
    }

    /// What the counter is after one id.
    pub open spec fn counted_on(pre: Self, post: Self) -> bool {
        post.next() == if pre.next() == u64::MAX {
            0
        } else {
            pre.next() + 1
        }
    }

    pub fn new() -> (c: Self)
        ensures
            c.next() == 0,
    {
        IdCounter { next: 0 }
    }

    fn take(&mut self, tx_id: u64) -> (id: String)
        ensures
            id@ == numbered_id(tx_id, old(self).next()),
            Self::counted_on(*old(self), *final(self)),
    {
        let mut id = numbered("amo-", tx_id, "-");
        push_decimal(&mut id, self.next as u128);
        self.next = if self.next == u64::MAX {
            0
        } else {
            self.next + 1
        };
        id
    }
}

/// A fresh id for an authorization check, by which the check can be called off.
pub fn next_cancellation_id(counter: &mut IdCounter, tx_id: u64) -> (id: String)
    ensures
        id@ == numbered_id(tx_id, old(counter).next()),
        IdCounter::counted_on(*old(counter), *final(counter)),
{
    counter.take(tx_id)
}

/// A fresh id for a claim, by which one claim of an object is told from the next.
pub fn next_claim_generation(counter: &mut IdCounter, tx_id: u64) -> (id: String)
    ensures
        id@ == numbered_id(tx_id, old(counter).next()),
        IdCounter::counted_on(*old(counter), *final(counter)),
{
    counter.take(tx_id)
}

/// No id is empty, and ids for different transactions or with different counts differ.
pub proof fn law_ids_are_unique(tx1: u64, n1: u64, tx2: u64, n2: u64)
    ensures
        numbered_id(tx1, n1).len() > 0,
        numbered_id(tx1, n1) == numbered_id(tx2, n2) ==> tx1 == tx2 && n1 == n2,
{
    reveal_strlit("amo-");
    reveal_strlit("-");
    crate::text::lemma_decimal_digits(tx1 as nat);
    crate::text::lemma_decimal_digits(tx2 as nat);
    let a = decimal(tx1 as nat);
    let b = decimal(tx2 as nat);
    if numbered_id(tx1, n1) == numbered_id(tx2, n2) {
        let x = a.push('-') + decimal(n1 as nat);
        let y = b.push('-') + decimal(n2 as nat);
        assert("-"@ =~= seq!['-']);
        assert(x =~= numbered_id(tx1, n1).skip(4));
        assert(y =~= numbered_id(tx2, n2).skip(4));
        assert(!a.contains('-'));
        assert(!b.contains('-'));
        crate::text::lemma_split_unique(a, decimal(n1 as nat), b, decimal(n2 as nat), '-');
        crate::text::lemma_decimal_injective(tx1 as nat, tx2 as nat);
        crate::text::lemma_decimal_injective(n1 as nat, n2 as nat);
    }
}

/// An entry of the registry: one transaction object.
pub struct LiveTransaction {
    /// The object's path on the bus.
    pub path: String,
    /// The user that created the object.
    pub uid: u32,
    /// The connection that created the object: no other may use it.
    pub sender: String,
    pub created_at: Instant,
    /// Since when the object is dormant; `None` while it is claimed.
    pub dormant_since: Option<Instant>,
    /// When the object was claimed; `None` while it is dormant.
    pub claimed_at: Option<Instant>,
    /// Which claim this is; empty while the object is dormant.
    pub claim_generation: String,
    /// The id of the claim's authorization check, where it needs one.
    pub cancellation_id: Option<String>,
    /// Whether the object is claimed.
    pub started: bool,
    /// Whether the claim's transaction was handed to the scheduler.
    pub enqueued: bool,
}

/// What an entry holds.
#[verifier::ext_equal]
pub struct LiveView {
    pub path: Seq<char>,
    pub uid: u32,
    pub sender: Seq<char>,
    pub created_at: Instant,
    pub dormant_since: Option<Instant>,
    pub claimed_at: Option<Instant>,
    pub claim_generation: Seq<char>,
    pub cancellation_id: Option<Seq<char>>,
    pub started: bool,
    pub enqueued: bool,
}

impl View for LiveTransaction {
    type V = LiveView;

    open spec fn view(&self) -> LiveView {
        LiveView {
            path: self.path@,
            uid: self.uid,
            sender: self.sender@,
            created_at: self.created_at,
            dormant_since: self.dormant_since,
            claimed_at: self.claimed_at,
            claim_generation: self.claim_generation@,
            cancellation_id: text_of(self.cancellation_id),
            started: self.started,
            enqueued: self.enqueued,
        }
    }
}

/// What a registry holds, by transaction id.
pub open spec fn entries(live: Map<u64, LiveTransaction>) -> Map<u64, LiveView> {
    live.map_values(|t: LiveTransaction| t@)
}

/// The ids of a registry, in the order in which the map is walked.
pub(crate) fn ids_of(live: &HashMap<u64, LiveTransaction>) -> (ids: Vec<u64>)
    ensures
        ids@.no_duplicates(),
        forall|id: u64| ids@.contains(id) <==> live@.contains_key(id),
{
    let mut ids: Vec<u64> = Vec::new();
    for id in it: live.keys()
        invariant
            ids.len() == it.index(),
            forall|j: int| 0 <= j < ids.len() ==> ids@[j] == *it.seq()[j],
    {
        ids.push(*id);
    }
    proof {
        let seen = vstd::std_specs::iter::IteratorSpec::remaining(
            &vstd::std_specs::hash::spec_keys_iter(live),
        );
        assert(ids@ =~= seen.unref());
        assert forall|id: u64| ids@.contains(id) <==> live@.contains_key(id) by {
            assert(seen.unref().to_set().contains(id) <==> live@.dom().contains(id));
        }
    }
    ids
}

/// An entry whose claim was given up: dormant again, from `now` on.
pub open spec fn rolled_back(t: LiveView, now: Instant) -> LiveView {
    LiveView {
        started: false,
        claimed_at: None,
        claim_generation: Seq::empty(),
        cancellation_id: None,
        dormant_since: Some(now),
        ..t
    }
}

/// Gives up the claim of an entry.
fn roll_back(t: &mut LiveTransaction, now: Instant) -> (cid: Option<String>)
    ensures
        final(t)@ == rolled_back(old(t)@, now),
        text_of(cid) == old(t)@.cancellation_id,
{
    let cid = t.cancellation_id.take();
    t.started = false;
    t.claimed_at = None;
    t.claim_generation = String::new();
    t.dormant_since = Some(now);
    cid
}

/// The claim of an object by one call of an operation. Unless it is committed it has
/// to be rolled back, on every way out of the call.
pub struct StartedClaim {
    id: u64,
    claim_generation: String,
    armed: bool,
}

/// The registry after the claim `generation` of an object was given up: a claim that is
/// no longer the object's has no effect.
pub open spec fn claim_given_up(
    m: Map<u64, LiveView>,
    id: u64,
    generation: Seq<char>,
    now: Instant,
) -> Map<u64, LiveView> {
    if m.contains_key(id) && m[id].claim_generation == generation {
        m.insert(id, rolled_back(m[id], now))
    } else {
        m
    }
}

impl StartedClaim {
    pub closed spec fn id(self) -> u64 {
        self.id
    }

    pub closed spec fn generation(self) -> Seq<char> {
        self.claim_generation@
    }

    /// Whether the claim is still to be committed or rolled back.
    pub closed spec fn armed(self) -> bool {
        self.armed
    }

    pub fn new(id: u64, claim_generation: String) -> (c: Self)
        ensures
            c.id() == id,
            c.generation() == claim_generation@,
            c.armed(),
    {
        StartedClaim { id, claim_generation, armed: true }
    }

    /// The claim's name.
    pub fn name(&self) -> (n: &str)
        ensures
            n@ == self.generation(),
    {
        self.claim_generation.as_str()
    }

    /// Gives the claim up, unless that was done or it was committed.
    pub fn rollback(&mut self, live: &mut HashMap<u64, LiveTransaction>, now: Instant)
        ensures
            !final(self).armed(),
            final(self).id() == old(self).id(),
            final(self).generation() == old(self).generation(),
            entries(final(live)@) == if old(self).armed() {
                claim_given_up(
                    entries(old(live)@),
                    old(self).id(),
                    old(self).generation(),
                    now,
                )
            } else {
                entries(old(live)@)
            },
    {
        if self.armed {
            self.armed = false;
            if let Some(mut t) = live.remove(&self.id) {
                if same_text(t.claim_generation.as_str(), self.claim_generation.as_str()) {
                    let _ = roll_back(&mut t, now);
                }
                live.insert(self.id, t);
            }
        }
        proof {
            assert(entries(live@) =~= if old(self).armed() {
                claim_given_up(entries(old(live)@), old(self).id(), old(self).generation(), now)
            } else {
                entries(old(live)@)
            });
        }
    }

    /// The transaction is queued: nothing is left to roll back.
    pub fn commit(&mut self)
        ensures
            !final(self).armed(),
            final(self).id() == old(self).id(),
            final(self).generation() == old(self).generation(),
    {
        self.armed = false;
    }
}


/// "Transaction `id` no longer exists".
pub open spec fn no_longer_exists(id: u64) -> (ErrorKind, Seq<char>) {
    (ErrorKind::UnknownObject, "Transaction "@ + decimal(id as nat) + " no longer exists"@)
}

/// "Transaction `id` already started".
pub open spec fn already_started(id: u64) -> (ErrorKind, Seq<char>) {
    (ErrorKind::Failed, "Transaction "@ + decimal(id as nat) + " already started"@)
}

pub(crate) fn no_longer_exists_error(id: u64) -> (e: ServiceError)
    ensures
        e@ == no_longer_exists(id),
{
    ServiceError {
        kind: ErrorKind::UnknownObject,
        message: numbered("Transaction ", id, " no longer exists"),
    }
}

pub(crate) fn already_started_error(id: u64) -> (e: ServiceError)
    ensures
        e@ == already_started(id),
{
    ServiceError {
        kind: ErrorKind::Failed,
        message: numbered("Transaction ", id, " already started"),
    }
}

/// Whether the claim `generation` of an object still stands: the object exists, is
/// claimed, and by this very claim.
pub open spec fn claim_check(m: Map<u64, LiveView>, id: u64, generation: Seq<char>) -> Result<
    (),
    (ErrorKind, Seq<char>),
> {
    if !m.contains_key(id) {
        Err(no_longer_exists(id))
    } else if !m[id].started {
        Err(
            (
                ErrorKind::Failed,
                "Transaction "@ + decimal(id as nat)
                    + " was cancelled while awaiting authorization"@,
            ),
        )
    } else if m[id].claim_generation != generation {
        Err(
            (
                ErrorKind::Failed,
                "Transaction "@ + decimal(id as nat) + " claim was replaced by a newer invocation"@,
            ),
        )
    } else {
        Ok(())
    }
}

/// Asks again, between authorization and queueing, whether a claim still stands.
pub fn check_claim_still_active(
    live: &HashMap<u64, LiveTransaction>,
    id: u64,
    expected_generation: &str,
) -> (r: Result<(), ServiceError>)
    ensures
        answer(r) == claim_check(entries(live@), id, expected_generation@),
{
    match live.get(&id) {
        None => Err(no_longer_exists_error(id)),
        Some(t) => {
            if !t.started {
                Err(
                    ServiceError {
                        kind: ErrorKind::Failed,
                        message: numbered(
                            "Transaction ",
                            id,
                            " was cancelled while awaiting authorization",
                        ),
                    },
                )
            } else if !same_text(t.claim_generation.as_str(), expected_generation) {
                Err(
                    ServiceError {
                        kind: ErrorKind::Failed,
                        message: numbered(
                            "Transaction ",
                            id,
                            " claim was replaced by a newer invocation",
                        ),
                    },
                )
            } else {
                Ok(())
            }
        },
    }
}

/// What cancelling did to a claim whose transaction is not queued.
pub struct ClaimRollback {
    /// Whether there was such a claim; it is given up then.
    pub rolled_back: bool,
    /// The id of the claim's authorization check, which is to be called off.
    pub cancellation_id: Option<String>,
}

/// The entry is claimed, and its transaction was not handed to the scheduler.
pub open spec fn claim_waits<T>(t: LiveView, id: u64, manager: TransactionManager<T>) -> bool {
    t.started && !t.enqueued && !manager.holds(id)
}

/// Gives up the claim of an object while its transaction is not queued. `None` if there
/// is no such object.
pub fn rollback_claim_if_not_enqueued<T>(
    live: &mut HashMap<u64, LiveTransaction>,
    manager: &TransactionManager<T>,
    id: u64,
    now: Instant,
) -> (r: Option<ClaimRollback>)
    ensures
        ({
            let m = entries(old(live)@);
            &&& r is Some <==> m.contains_key(id)
            &&& m.contains_key(id) && claim_waits(m[id], id, *manager) ==> {
                &&& r->0.rolled_back
                &&& text_of(r->0.cancellation_id) == m[id].cancellation_id
                &&& entries(final(live)@) == m.insert(id, rolled_back(m[id], now))
            }
            &&& !(m.contains_key(id) && claim_waits(m[id], id, *manager)) ==> {
                &&& r is Some ==> !r->0.rolled_back && r->0.cancellation_id is None
                &&& entries(final(live)@) == m
            }
        }),
{
    match live.remove(&id) {
        None => {
            assert(entries(live@) =~= entries(old(live)@));
            None
        },
        Some(mut t) => {
            if t.started && !t.enqueued && !manager.contains(id) {
                let cid = roll_back(&mut t, now);
                live.insert(id, t);
                proof {
                    let m = entries(old(live)@);
                    assert(entries(live@) =~= m.insert(id, rolled_back(m[id], now)));
                }
                Some(ClaimRollback { rolled_back: true, cancellation_id: cid })
            } else {
                live.insert(id, t);
                assert(entries(live@) =~= entries(old(live)@));
                Some(ClaimRollback { rolled_back: false, cancellation_id: None })
            }
        },
    }
}

/// Takes an object out of the registry on its owner's request, unless its transaction
/// was handed to the scheduler. Hands back the id of an authorization check that is to
/// be called off.
pub fn remove_for_destroy<T>(
    live: &mut HashMap<u64, LiveTransaction>,
    manager: &TransactionManager<T>,
    id: u64,
) -> (r: Result<Option<String>, ServiceError>)
    ensures
        ({
            let m = entries(old(live)@);
            if !m.contains_key(id) {
                r is Err && r->Err_0@ == no_longer_exists(id) && entries(final(live)@) == m
            } else if m[id].enqueued || manager.holds(id) {
                r is Err && r->Err_0@ == already_started(id) && entries(final(live)@) == m
            } else {
                r is Ok && text_of(r->Ok_0) == m[id].cancellation_id && entries(final(live)@)
                    == m.remove(id)
            }
        }),
{
    match live.remove(&id) {
        None => {
            assert(entries(live@) =~= entries(old(live)@));
            Err(no_longer_exists_error(id))
        },
        Some(t) => {
            if t.enqueued || manager.contains(id) {
                live.insert(id, t);
                assert(entries(live@) =~= entries(old(live)@));
                return Err(already_started_error(id));
            }
            assert(entries(live@) =~= entries(old(live)@).remove(id));
            Ok(t.cancellation_id)
        },
    }
}

/// A dormant object has stayed dormant for too long. Where it is not recorded since when
/// it is dormant, its creation counts.
pub open spec fn dormant_too_long(
    dormant_since: Option<Instant>,
    created_at: Instant,
    now: Instant,
) -> bool {
    now.since(
        match dormant_since {
            Some(t) => t,
            None => created_at,
        },
    ) >= DORMANT_TIMEOUT
}

pub fn dormant_expired(
    dormant_since: Option<Instant>,
    created_at: Instant,
    now: Instant,
) -> (b: bool)
    ensures
        b == dormant_too_long(dormant_since, created_at, now),
{
    let base = match dormant_since {
        Some(t) => t,
        None => created_at,
    };
    now.saturating_duration_since(base) >= DORMANT_TIMEOUT
}

/// A letter, a digit, an underscore or a hyphen, in ASCII.
pub open spec fn name_char(c: char) -> bool {
    'a' <= c <= 'z' || 'A' <= c <= 'Z' || '0' <= c <= '9' || c == '_' || c == '-'
}

/// Two or more elements with dots between them, none of them empty, and, unless digits
/// may lead, none beginning with a digit.
pub open spec fn dotted(s: Seq<char>, digits_lead: bool) -> bool {
    &&& s.contains('.')
    &&& s.last() != '.'
    &&& forall|i: int| 0 <= i < s.len() ==> name_char(#[trigger] s[i]) || s[i] == '.'
    &&& forall|i: int|
        0 <= i < s.len() && (i == 0 || s[i - 1] == '.') ==> #[trigger] s[i] != '.' && (digits_lead
            || !('0' <= s[i] <= '9'))
}

/// A name on the bus: a well-known one, or a unique one, which begins with a colon.
pub open spec fn is_bus_name(s: Seq<char>) -> bool {
    s.len() <= 255 && (dotted(s, false) || (s.len() > 0 && s[0] == ':' && dotted(
        s.skip(1),
        true,
    )))
}

/// `zbus::names::BusName::try_from`: it succeeds on the well-known and the unique names
/// of the bus, and on nothing else.
#[verifier::external_body]
fn parses_as_bus_name(name: &str) -> (b: bool)
    ensures
        b == is_bus_name(name@),
{
    zbus::names::BusName::try_from(name).is_ok()
}

/// A claim that is not queued is abandoned: it is too old, or its owner has left the
/// bus. Of a name that cannot be on the bus that is not believed.
pub open spec fn claim_abandoned(
    queued: bool,
    sender: Seq<char>,
    claimed_at: Instant,
    now: Instant,
    has_owner: bool,
) -> bool {
    !queued && (now.since(claimed_at) >= CLAIM_TIMEOUT || (is_bus_name(sender) && !has_owner))
}

/// Whether the bus has to be asked for the owner of `sender`'s name: the rest does not
/// settle whether the claim is abandoned.
pub fn owner_decides<T>(
    manager: &TransactionManager<T>,
    enqueued: bool,
    id: u64,
    sender: &str,
    claimed_at: Instant,
    now: Instant,
) -> (b: bool)
    ensures
        b == (claim_abandoned(enqueued || manager.holds(id), sender@, claimed_at, now, true)
            != claim_abandoned(enqueued || manager.holds(id), sender@, claimed_at, now, false)),
{
    !enqueued && !manager.contains(id) && now.saturating_duration_since(claimed_at) < CLAIM_TIMEOUT
        && parses_as_bus_name(sender)
}

/// Whether a claimed object is to be reclaimed. `has_owner` is what the bus says of the
/// name `sender`.
pub fn claim_expired<T>(
    manager: &TransactionManager<T>,
    enqueued: bool,
    id: u64,
    sender: &str,
    claimed_at: Instant,
    now: Instant,
    has_owner: bool,
) -> (b: bool)
    ensures
        b == claim_abandoned(enqueued || manager.holds(id), sender@, claimed_at, now, has_owner),
{
    if enqueued {
        return false;
    }
    if manager.contains(id) {
        return false;
    }
    if now.saturating_duration_since(claimed_at) >= CLAIM_TIMEOUT {
        return true;
    }
    if parses_as_bus_name(sender) {
        !has_owner
    } else {
        false
    }
}

/// Whether a claim that was found abandoned still is: it is the same claim, and its
/// transaction was not queued meanwhile.
pub fn claim_still_abandoned<T>(
    manager: &TransactionManager<T>,
    entry_claimed_at: Option<Instant>,
    snap_claimed_at: Option<Instant>,
    enqueued: bool,
    id: u64,
) -> (b: bool)
    ensures
        b == (!enqueued && entry_claimed_at == snap_claimed_at && !manager.holds(id)),
{
    if enqueued {
        return false;
    }
    let same = match (entry_claimed_at, snap_claimed_at) {
        (Some(a), Some(b)) => a.nanos == b.nanos,
        (None, None) => true,
        _ => false,
    };
    if !same {
        return false;
    }
    !manager.contains(id)
}

/// The path of a transaction's object.
pub open spec fn path_of(id: u64) -> Seq<char> {
    "/io/aosc/Amo/Transaction/"@ + decimal(id as nat)
}

pub fn object_path(id: u64) -> (path: String)
    ensures
        path@ == path_of(id),
{
    let mut path = "/io/aosc/Amo/Transaction/".to_owned();
    push_decimal(&mut path, id as u128);
    path
}

/// How many objects are a user's.
pub open spec fn owned(m: Map<u64, LiveView>, uid: u32) -> nat {
    m.dom().filter(|id: u64| m[id].uid == uid).len()
}

/// The limits on objects are kept, every object stands at its own path, and what an
/// entry says of its claim fits together.
pub open spec fn registry_wf(m: Map<u64, LiveView>) -> bool {
    &&& m.dom().finite()
    &&& m.dom().len() <= MAX_LIVE_TRANSACTIONS
    &&& forall|uid: u32| #[trigger] owned(m, uid) <= MAX_LIVE_PER_UID
    &&& forall|id: u64| #[trigger] m.contains_key(id) ==> m[id].path == path_of(id)
    &&& forall|id: u64| #[trigger] m.contains_key(id) ==> entry_wf(m[id])
}

/// An object is claimed, by a claim with a name and a time, or dormant, since a time.
pub open spec fn entry_wf(t: LiveView) -> bool {
    &&& t.started ==> t.claim_generation.len() > 0 && t.claimed_at is Some && t.dormant_since is None
    &&& !t.started ==> t.claim_generation.len() == 0 && t.claimed_at is None
        && t.cancellation_id is None && t.dormant_since is Some && !t.enqueued
}

/// The entry of a new object.
pub open spec fn new_entry(id: u64, uid: u32, sender: Seq<char>, now: Instant) -> LiveView {
    LiveView {
        path: path_of(id),
        uid,
        sender,
        created_at: now,
        dormant_since: Some(now),
        claimed_at: None,
        claim_generation: Seq::empty(),
        cancellation_id: None,
        started: false,
        enqueued: false,
    }
}

/// How many objects of the registry are a user's.
fn count_owned(live: &HashMap<u64, LiveTransaction>, uid: u32) -> (n: usize)
    ensures
        n == owned(entries(live@), uid),
{
    let ids = ids_of(live);
    let ghost m = entries(live@);
    let ghost mut mine: Set<u64> = Set::empty();
    let mut count: usize = 0;
    let mut n: usize = 0;
    while n < ids.len()
        invariant
            n <= ids.len(),
            m == entries(live@),
            ids@.no_duplicates(),
            forall|id: u64| ids@.contains(id) <==> live@.contains_key(id),
            mine.finite(),
            count == mine.len(),
            count <= n,
            forall|id: u64|
                mine.contains(id) <==> ids@.subrange(0, n as int).contains(id) && m[id].uid == uid,
        decreases ids.len() - n,
    {
        let id: u64 = ids[n];
        let ghost seen = ids@.subrange(0, n as int);
        let ghost upto = ids@.subrange(0, n + 1);
        proof {
            assert(ids@.contains(ids@[n as int]));
            assert(upto =~= seen.push(id));
            assert forall|other: u64| upto.contains(other) <==> (seen.contains(other) || other
                == id) by {
                if seen.contains(other) {
                    let i = choose|i: int| 0 <= i < seen.len() && seen[i] == other;
                    assert(upto[i] == other);
                }
                assert(upto[n as int] == id);
            }
            assert(!seen.contains(id)) by {
                if seen.contains(id) {
                    let i = choose|i: int| 0 <= i < seen.len() && seen[i] == id;
                    assert(ids@[i] == ids@[n as int]);
                }
            }
        }
        if live.get(&id).unwrap().uid == uid {
            count = count + 1;
            proof {
                mine = mine.insert(id);
            }
        }
        n = n + 1;
    }
    proof {
        assert(ids@.subrange(0, ids.len() as int) =~= ids@);
        assert(mine =~= m.dom().filter(|id: u64| m[id].uid == uid));
    }
    count
}

/// Why no object is created for a user now.
pub open spec fn creation_refused(m: Map<u64, LiveView>, uid: u32) -> Option<
    (ErrorKind, Seq<char>),
> {
    if m.dom().len() >= MAX_LIVE_TRANSACTIONS {
        Some((ErrorKind::LimitsExceeded, "Too many live transactions, try again later"@))
    } else if owned(m, uid) >= MAX_LIVE_PER_UID {
        Some((ErrorKind::LimitsExceeded, "Too many live transactions from this user"@))
    } else {
        None
    }
}

/// Enters a new, dormant object in the registry, unless a limit stands against it. Hands
/// back its path.
pub fn create_transaction(
    live: &mut HashMap<u64, LiveTransaction>,
    id: u64,
    uid: u32,
    sender: String,
    now: Instant,
) -> (r: Result<String, ServiceError>)
    ensures
        match creation_refused(entries(old(live)@), uid) {
            Some(e) => r is Err && r->Err_0@ == e && final(live)@ == old(live)@,
            None => r is Ok && r->Ok_0@ == path_of(id) && entries(final(live)@) == entries(
                old(live)@,
            ).insert(id, new_entry(id, uid, sender@, now)),
        },
{
    assert(entries(live@).dom() =~= live@.dom());
    if live.len() >= MAX_LIVE_TRANSACTIONS {
        return Err(
            ServiceError::new(
                ErrorKind::LimitsExceeded,
                "Too many live transactions, try again later",
            ),
        );
    }
    if count_owned(live, uid) >= MAX_LIVE_PER_UID {
        return Err(
            ServiceError::new(
                ErrorKind::LimitsExceeded,
                "Too many live transactions from this user",
            ),
        );
    }
    let path = object_path(id);
    let t = LiveTransaction {
        path: path.clone(),
        uid,
        sender,
        created_at: now,
        dormant_since: Some(now),
        claimed_at: None,
        claim_generation: String::new(),
        cancellation_id: None,
        started: false,
        enqueued: false,
    };
    assert(t@ =~= new_entry(id, uid, sender@, now));
    live.insert(id, t);
    assert(entries(live@) =~= entries(old(live)@).insert(id, new_entry(id, uid, sender@, now)));
    Ok(path)
}

} // verus!
