//! What a transaction announces, and the JSON in which it does: progress, then the
//! report, then the final state.
use vstd::prelude::*;

use crate::error::{ErrorKind, ServiceError};
use crate::text::{decimal, numbered, prefixed, text_of};
use crate::transaction::types::{
    ResultReport, TaskStatus, TransactionEvent, TransactionRole, TransactionState,
    TransactionStateEvent,
};

verus! {

/// A digit below sixteen, in lower case.
pub open spec fn hex(d: nat) -> char {
    if d < 10 {
        (48 + d) as char
    } else {
        (87 + d) as char
    }
}

/// A character inside a JSON string: quotes, backslashes and control characters are
/// escaped, all others stand for themselves.
pub open spec fn escaped(c: char) -> Seq<char> {
    if c == '"' || c == '\\' {
        seq!['\\', c]
    } else if c == '\u{8}' {
        seq!['\\', 'b']
    } else if c == '\t' {
        seq!['\\', 't']
    } else if c == '\n' {
        seq!['\\', 'n']
    } else if c == '\u{c}' {
        seq!['\\', 'f']
    } else if c == '\r' {
        seq!['\\', 'r']
    } else if c as u32 <= 31 {
        seq!['\\', 'u', '0', '0', hex(c as nat / 16), hex(c as nat % 16)]
    } else {
        seq![c]
    }
}

/// The characters of a text inside a JSON string.
pub open spec fn escaped_all(text: Seq<char>) -> Seq<char>
    decreases text.len(),
{
    if text.len() == 0 {
        seq![]
    } else {
        escaped(text[0]) + escaped_all(text.drop_first())
    }
}

/// The JSON of a string.
pub open spec fn json_string(text: Seq<char>) -> Seq<char> {
    seq!['"'] + escaped_all(text) + seq!['"']
}

/// `serde_json::Value::from` a string, written out by `Value`'s `Display`: the string between
/// quotes, with quotes, backslashes and control characters escaped, those that have a short
/// form in that form and the others by their number.
#[verifier::external_body]
fn string_to_json(text: &str) -> (json: String)
    ensures
        json@ == json_string(text@),
{
    serde_json::Value::from(text).to_string()
}

/// A JSON text read and written out again compactly, or the parser's complaint.
pub uninterp spec fn json_canonical(text: Seq<char>) -> Result<Seq<char>, Seq<char>>;

/// `serde_json::from_str` to a `serde_json::Value`, written out compactly by its `Display`,
/// or the message of the parser's error. Both depend on the text alone.
#[verifier::external_body]
fn canonical_json(text: &str) -> (r: Result<String, String>)
    ensures
        match r {
            Ok(json) => json_canonical(text@) == Ok::<Seq<char>, Seq<char>>(json@),
            Err(e) => json_canonical(text@) == Err::<Seq<char>, Seq<char>>(e@),
        },
{
    match serde_json::from_str::<serde_json::Value>(text) {
        Ok(value) => Ok(value.to_string()),
        Err(e) => Err(e.to_string()),
    }
}

/// The role as it is written in events.
pub open spec fn role_text(role: TransactionRole) -> Seq<char> {
    match role {
        TransactionRole::Refresh => "refresh"@,
        TransactionRole::ApplyChanges => "apply_changes"@,
        TransactionRole::Simulate => "simulate"@,
        TransactionRole::UpdatesList => "updates_list"@,
    }
}

pub fn role_name(role: TransactionRole) -> (s: &'static str)
    ensures
        s@ == role_text(role),
{
    match role {
        TransactionRole::Refresh => "refresh",
        TransactionRole::ApplyChanges => "apply_changes",
        TransactionRole::Simulate => "simulate",
        TransactionRole::UpdatesList => "updates_list",
    }
}

/// The state as it is written in events.
pub open spec fn state_text(state: TransactionState) -> Seq<char> {
    match state {
        TransactionState::Queued => "queued"@,
        TransactionState::Running => "running"@,
        TransactionState::Finished => "finished"@,
        TransactionState::Cancelled => "cancelled"@,
    }
}

pub fn state_name(state: TransactionState) -> (s: &'static str)
    ensures
        s@ == state_text(state),
{
    match state {
        TransactionState::Queued => "queued",
        TransactionState::Running => "running",
        TransactionState::Finished => "finished",
        TransactionState::Cancelled => "cancelled",
    }
}

/// The JSON of a state event.
pub open spec fn state_json(e: TransactionStateEvent) -> Seq<char> {
    "{\"type\":\"state\",\"transaction_id\":"@ + decimal(e.transaction_id as nat) + ",\"role\":\""@
        + role_text(e.role) + "\",\"state\":\""@ + state_text(e.state) + "\"}"@
}

/// The JSON of a status, given the JSON of the reason for which the task failed, if it did.
pub open spec fn status_with(why: Option<Seq<char>>) -> Seq<char> {
    match why {
        None => "\"Success\""@,
        Some(why) => "{\"Failed\":"@ + why + "}"@,
    }
}

/// The JSON of a task's status.
pub open spec fn status_json(status: TaskStatus) -> Seq<char> {
    status_with(
        match status {
            TaskStatus::Success => None,
            TaskStatus::Failed(why) => Some(json_string(why@)),
        },
    )
}

/// The end of a report: without a result the member is left out.
pub open spec fn report_end(result: Option<String>) -> Seq<char> {
    match result {
        Some(result) => ",\"result\":"@ + result@ + "}"@,
        None => "}"@,
    }
}

/// The JSON of a report, given that of its status.
pub open spec fn report_with(r: ResultReport, status: Seq<char>) -> Seq<char> {
    "{\"type\":\"result\",\"transaction_id\":"@ + decimal(r.transaction_id as nat)
        + ",\"role\":\""@ + role_text(r.role) + "\",\"status\":"@ + status + report_end(r.result)
}

/// The JSON of a report.
pub open spec fn report_json(r: ResultReport) -> Seq<char> {
    report_with(r, status_json(r.status))
}

/// The JSON of an event. Its `type` says which it is.
pub open spec fn event_json(event: TransactionEvent) -> Seq<char> {
    match event {
        TransactionEvent::Progress { payload } => "{\"type\":\"progress\",\"payload\":"@ + payload@
            + "}"@,
        TransactionEvent::State(e) => state_json(e),
        TransactionEvent::Result(r) => report_json(r),
    }
}

/// Writes a status, given the JSON of the reason for which the task failed, if it did.
pub fn write_status(why: Option<&str>) -> (json: String)
    ensures
        json@ == status_with(
            match why {
                None => None,
                Some(why) => Some(why@),
            },
        ),
{
    match why {
        None => "\"Success\"".to_owned(),
        Some(why) => {
            let mut json = "{\"Failed\":".to_owned();
            json.append(why);
            json.append("}");
            json
        },
    }
}

fn status_to_json(status: &TaskStatus) -> (json: String)
    ensures
        json@ == status_json(*status),
{
    match status {
        TaskStatus::Success => write_status(None),
        TaskStatus::Failed(why) => write_status(Some(string_to_json(why.as_str()).as_str())),
    }
}

/// Writes a report, given the JSON of its status.
pub fn write_report(r: &ResultReport, status: &str) -> (json: String)
    ensures
        json@ == report_with(*r, status@),
{
    let mut json = numbered(
        "{\"type\":\"result\",\"transaction_id\":",
        r.transaction_id,
        ",\"role\":\"",
    );
    json.append(role_name(r.role));
    json.append("\",\"status\":");
    json.append(status);
    let ghost head = json@;
    match &r.result {
        Some(result) => {
            json.append(",\"result\":");
            json.append(result.as_str());
            json.append("}");
            assert(json@ =~= head + (",\"result\":"@ + result@ + "}"@));
        },
        None => {
            json.append("}");
        },
    }
    json
}

/// Writes an event as JSON.
pub fn to_json(event: &TransactionEvent) -> (json: String)
    ensures
        json@ == event_json(*event),
{
    match event {
        TransactionEvent::Progress { payload } => {
            let mut json = "{\"type\":\"progress\",\"payload\":".to_owned();
            json.append(payload.as_str());
            json.append("}");
            json
        },
        TransactionEvent::State(e) => {
            let mut json = numbered(
                "{\"type\":\"state\",\"transaction_id\":",
                e.transaction_id,
                ",\"role\":\"",
            );
            json.append(role_name(e.role));
            json.append("\",\"state\":\"");
            json.append(state_name(e.state));
            json.append("\"}");
            json
        },
        TransactionEvent::Result(r) => write_report(r, status_to_json(&r.status).as_str()),
    }
}

/// The event for a piece of progress, given what the parser made of its payload.
pub open spec fn progress_json(parsed: Result<Seq<char>, Seq<char>>) -> Result<
    Seq<char>,
    (ErrorKind, Seq<char>),
> {
    match parsed {
        Ok(payload) => Ok("{\"type\":\"progress\",\"payload\":"@ + payload + "}"@),
        Err(e) => Err((ErrorKind::Failed, "Invalid progress payload: "@ + e)),
    }
}

/// An answer that is a text, taken by its view.
pub open spec fn text_answer(r: Result<String, ServiceError>) -> Result<
    Seq<char>,
    (ErrorKind, Seq<char>),
> {
    match r {
        Ok(s) => Ok(s@),
        Err(e) => Err(e@),
    }
}

/// Writes the event for a piece of progress whose payload was parsed.
pub fn progress_event(parsed: Result<String, String>) -> (r: Result<String, ServiceError>)
    ensures
        text_answer(r) == progress_json(
            match parsed {
                Ok(payload) => Ok(payload@),
                Err(e) => Err(e@),
            },
        ),
{
    match parsed {
        Ok(payload) => Ok(to_json(&TransactionEvent::Progress { payload })),
        Err(e) => {
            let mut message = "Invalid progress payload: ".to_owned();
            message.append(e.as_str());
            Err(ServiceError { kind: ErrorKind::Failed, message })
        },
    }
}

/// Writes the event for a piece of progress. The payload may be any JSON.
pub fn emit_progress(payload: &str) -> (r: Result<String, ServiceError>)
    ensures
        text_answer(r) == progress_json(json_canonical(payload@)),
{
    progress_event(canonical_json(payload))
}

/// The report that a task failed, for a task that could not report itself.
pub open spec fn failure_report(id: u64, role: TransactionRole, detail: String) -> ResultReport {
    ResultReport { transaction_id: id, role, status: TaskStatus::Failed(detail), result: None }
}

/// Writes the report that a task failed.
pub fn failure_result_json(id: u64, role: TransactionRole, detail: String) -> (json: String)
    ensures
        json@ == report_json(failure_report(id, role, detail)),
{
    to_json(
        &TransactionEvent::Result(
            ResultReport {
                transaction_id: id,
                role,
                status: TaskStatus::Failed(detail),
                result: None,
            },
        ),
    )
}

/// How a task ended that did not return.
pub enum TaskFailure {
    /// It was cancelled.
    Cancelled,
    /// It panicked, with a message where the panic carries a text.
    Panicked(Option<String>),
}

/// What is reported of a task that did not return.
pub open spec fn detail_of(e: TaskFailure) -> Seq<char> {
    match e {
        TaskFailure::Cancelled => "transaction task was cancelled"@,
        TaskFailure::Panicked(Some(message)) => message@,
        TaskFailure::Panicked(None) => "transaction task panicked"@,
    }
}

pub fn panic_detail(e: TaskFailure) -> (detail: String)
    ensures
        detail@ == detail_of(e),
{
    match e {
        TaskFailure::Cancelled => "transaction task was cancelled".to_owned(),
        TaskFailure::Panicked(Some(message)) => message,
        TaskFailure::Panicked(None) => "transaction task panicked".to_owned(),
    }
}

/// How a task's work ended.
pub enum WorkOutcome {
    /// It returned, or failed with this message.
    Returned(Result<(), String>),
    /// It never came back, for this reason.
    Lost(String),
}

/// What a status says, with its message taken by its view.
pub open spec fn status_text(status: TaskStatus) -> Option<Seq<char>> {
    match status {
        TaskStatus::Success => None,
        TaskStatus::Failed(why) => Some(why@),
    }
}

/// Why work that is followed by a refresh of the index failed: the work's own failure
/// comes first. `label` names the work, in case it never came back.
pub open spec fn work_failure(
    label: Seq<char>,
    work: WorkOutcome,
    refresh: Result<(), String>,
) -> Option<Seq<char>> {
    match work {
        WorkOutcome::Lost(e) => Some(label + " failed to join: "@ + e@),
        WorkOutcome::Returned(Err(e)) => Some(e@),
        WorkOutcome::Returned(Ok(())) => match refresh {
            Ok(()) => None,
            Err(e) => Some("Package operation succeeded but cache refresh failed: "@ + e@),
        },
    }
}

/// The status of work that is followed by a refresh of the index.
fn work_status(label: &str, work: WorkOutcome, refresh: Result<(), String>) -> (status:
    TaskStatus)
    ensures
        status_text(status) == work_failure(label@, work, refresh),
{
    match work {
        WorkOutcome::Lost(e) => {
            let mut why = prefixed(label, " failed to join: ");
            why.append(e.as_str());
            TaskStatus::Failed(why)
        },
        WorkOutcome::Returned(Err(e)) => TaskStatus::Failed(e),
        WorkOutcome::Returned(Ok(())) => match refresh {
            Ok(()) => TaskStatus::Success,
            Err(e) => TaskStatus::Failed(
                prefixed("Package operation succeeded but cache refresh failed: ", e.as_str()),
            ),
        },
    }
}

/// The report on work that is followed by a refresh of the index.
pub fn work_report(
    id: u64,
    role: TransactionRole,
    work: WorkOutcome,
    refresh: Result<(), String>,
) -> (r: ResultReport)
    ensures
        r.transaction_id == id,
        r.role == role,
        status_text(r.status) == work_failure("Task"@, work, refresh),
        r.result is None,
{
    ResultReport {
        transaction_id: id,
        role,
        status: work_status("Task", work, refresh),
        result: None,
    }
}

/// The work of a request that is no transaction.
#[derive(Clone, Copy, Debug, PartialEq, Eq, Structural)]
pub enum RequestWork {
    Refresh,
    ApplyChanges,
}

/// What the work of a request is called.
pub open spec fn work_label(request: RequestWork) -> Seq<char> {
    match request {
        RequestWork::Refresh => "Refresh task"@,
        RequestWork::ApplyChanges => "Apply task"@,
    }
}

/// The status of a request's work that is followed by a refresh of the index.
pub fn request_status(
    request: RequestWork,
    work: WorkOutcome,
    refresh: Result<(), String>,
) -> (status: TaskStatus)
    ensures
        status_text(status) == work_failure(work_label(request), work, refresh),
{
    let label = match request {
        RequestWork::Refresh => "Refresh task",
        RequestWork::ApplyChanges => "Apply task",
    };
    work_status(label, work, refresh)
}

/// The JSON of the report on a request that is no transaction, given that of its status.
pub open spec fn request_report_with(request_id: u64, status: Seq<char>) -> Seq<char> {
    "{\"request_id\":"@ + decimal(request_id as nat) + ",\"status\":"@ + status + "}"@
}

/// Writes the report on a request that is no transaction, given the JSON of its status.
pub fn write_request_report(request_id: u64, status: &str) -> (json: String)
    ensures
        json@ == request_report_with(request_id, status@),
{
    let mut json = numbered("{\"request_id\":", request_id, ",\"status\":");
    json.append(status);
    json.append("}");
    json
}

/// Writes the report on a request that is no transaction.
pub fn request_report_json(request_id: u64, status: &TaskStatus) -> (json: String)
    ensures
        json@ == request_report_with(request_id, status_json(*status)),
{
    write_request_report(request_id, status_to_json(status).as_str())
}

/// The role as it is named in messages.
pub open spec fn role_title(role: TransactionRole) -> Seq<char> {
    match role {
        TransactionRole::Refresh => "Refresh"@,
        TransactionRole::ApplyChanges => "ApplyChanges"@,
        TransactionRole::Simulate => "Simulate"@,
        TransactionRole::UpdatesList => "UpdatesList"@,
    }
}

fn title(role: TransactionRole) -> (s: &'static str)
    ensures
        s@ == role_title(role),
{
    match role {
        TransactionRole::Refresh => "Refresh",
        TransactionRole::ApplyChanges => "ApplyChanges",
        TransactionRole::Simulate => "Simulate",
        TransactionRole::UpdatesList => "UpdatesList",
    }
}

/// How a preview ended.
pub enum SummaryOutcome {
    /// It has this JSON.
    Summary(String),
    /// It could not be written as JSON.
    Unwritable(String),
    /// It failed.
    Failed(String),
    /// It never came back.
    Lost(String),
}

/// Why a preview failed.
pub open spec fn summary_failure(role: TransactionRole, outcome: SummaryOutcome) -> Option<Seq<char>> {
    match outcome {
        SummaryOutcome::Summary(_) => None,
        SummaryOutcome::Unwritable(e) => Some(
            "Serialize "@ + role_title(role) + " result: "@ + e@,
        ),
        SummaryOutcome::Failed(e) => Some(e@),
        SummaryOutcome::Lost(e) => Some(role_title(role) + " task failed to join: "@ + e@),
    }
}

/// The report on a preview. It carries the preview.
pub fn summary_report(id: u64, role: TransactionRole, outcome: SummaryOutcome) -> (r: ResultReport)
    ensures
        r.transaction_id == id,
        r.role == role,
        status_text(r.status) == summary_failure(role, outcome),
        r.result == match outcome {
            SummaryOutcome::Summary(json) => Some(json),
            _ => None,
        },
{
    let (status, result) = match outcome {
        SummaryOutcome::Summary(json) => (TaskStatus::Success, Some(json)),
        SummaryOutcome::Unwritable(e) => {
            let mut why = prefixed("Serialize ", title(role));
            why.append(" result: ");
            why.append(e.as_str());
            (TaskStatus::Failed(why), None)
        },
        SummaryOutcome::Failed(e) => (TaskStatus::Failed(e), None),
        SummaryOutcome::Lost(e) => {
            let mut why = prefixed(title(role), " task failed to join: ");
            why.append(e.as_str());
            (TaskStatus::Failed(why), None)
        },
    };
    ResultReport { transaction_id: id, role, status, result }
}

proof fn lemma_role_texts(a: TransactionRole, b: TransactionRole)
    ensures
        role_text(a) == role_text(b) ==> a == b,
        !role_text(a).contains('"'),
{
    reveal_strlit("refresh");
    reveal_strlit("apply_changes");
    reveal_strlit("simulate");
    reveal_strlit("updates_list");
    assert(role_text(TransactionRole::Refresh)[0] == 'r');
    assert(role_text(TransactionRole::ApplyChanges)[0] == 'a');
    assert(role_text(TransactionRole::Simulate)[0] == 's');
    assert(role_text(TransactionRole::UpdatesList)[0] == 'u');
}

proof fn lemma_state_texts(a: TransactionState, b: TransactionState)
    ensures
        state_text(a) == state_text(b) ==> a == b,
        !state_text(a).contains('"'),
{
    reveal_strlit("queued");
    reveal_strlit("running");
    reveal_strlit("finished");
    reveal_strlit("cancelled");
    assert(state_text(TransactionState::Queued)[0] == 'q');
    assert(state_text(TransactionState::Running)[0] == 'r');
    assert(state_text(TransactionState::Finished)[0] == 'f');
    assert(state_text(TransactionState::Cancelled)[0] == 'c');
}

/// A number and a role that follow the same text, with the text behind them.
proof fn lemma_number_and_role(
    head: Seq<char>,
    n1: u64,
    role1: TransactionRole,
    tail1: Seq<char>,
    n2: u64,
    role2: TransactionRole,
    tail2: Seq<char>,
)
    requires
        head + decimal(n1 as nat) + ",\"role\":\""@ + role_text(role1) + seq!['"'] + tail1 == head
            + decimal(n2 as nat) + ",\"role\":\""@ + role_text(role2) + seq!['"'] + tail2,
    ensures
        n1 == n2,
        role1 == role2,
        tail1 == tail2,
{
    reveal_strlit(",\"role\":\"");
    let mid = ",\"role\":\""@;
    let (d1, d2) = (decimal(n1 as nat), decimal(n2 as nat));
    let all1 = head + d1 + mid + role_text(role1) + seq!['"'] + tail1;
    let all2 = head + d2 + mid + role_text(role2) + seq!['"'] + tail2;
    let rest1 = mid.drop_first() + role_text(role1) + seq!['"'] + tail1;
    let rest2 = mid.drop_first() + role_text(role2) + seq!['"'] + tail2;
    crate::text::lemma_decimal_digits(n1 as nat);
    crate::text::lemma_decimal_digits(n2 as nat);
    assert(!d1.contains(','));
    assert(!d2.contains(','));
    assert(all1.skip(head.len() as int) =~= d1.push(',') + rest1);
    assert(all2.skip(head.len() as int) =~= d2.push(',') + rest2);
    crate::text::lemma_split_unique(d1, rest1, d2, rest2, ',');
    crate::text::lemma_decimal_injective(n1 as nat, n2 as nat);
    let n = mid.len() - 1;
    assert(rest1.skip(n) =~= role_text(role1).push('"') + tail1);
    assert(rest2.skip(n) =~= role_text(role2).push('"') + tail2);
    lemma_role_texts(role1, role2);
    lemma_role_texts(role2, role1);
    crate::text::lemma_split_unique(role_text(role1), tail1, role_text(role2), tail2, '"');
}

proof fn lemma_escaped(c: char, x: Seq<char>, d: char, y: Seq<char>)
    requires
        escaped(c) + x == escaped(d) + y,
    ensures
        c == d,
        x == y,
{
    let s = escaped(c) + x;
    let t = escaped(d) + y;
    assert(s[0] == escaped(c)[0]);
    assert(t[0] == escaped(d)[0]);
    if escaped(c).len() > 1 && escaped(d).len() > 1 {
        assert(s[1] == escaped(c)[1]);
        assert(t[1] == escaped(d)[1]);
        if escaped(c).len() == 6 && escaped(d).len() == 6 {
            assert(s[4] == escaped(c)[4] && s[5] == escaped(c)[5]);
            assert(t[4] == escaped(d)[4] && t[5] == escaped(d)[5]);
            assert(c as nat / 16 < 2 && d as nat / 16 < 2);
            assert(c as nat == 16 * (c as nat / 16) + c as nat % 16);
            assert(d as nat == 16 * (d as nat / 16) + d as nat % 16);
        }
    }
    assert(c == d);
    let n = escaped(c).len() as int;
    assert(x =~= s.skip(n));
    assert(y =~= t.skip(n));
}

/// A string within quotes begins with what its first character is written as, which is no
/// quote.
proof fn lemma_escaped_first(a: Seq<char>, x: Seq<char>)
    requires
        a.len() > 0,
    ensures
        escaped_all(a) + seq!['"'] + x == escaped(a[0]) + (escaped_all(a.drop_first()) + seq!['"']
            + x),
        (escaped_all(a) + seq!['"'] + x)[0] != '"',
{
    let s = escaped_all(a) + seq!['"'] + x;
    assert(s =~= escaped(a[0]) + (escaped_all(a.drop_first()) + seq!['"'] + x));
    assert(s[0] == escaped(a[0])[0]);
}

#[verifier::spinoff_prover]
proof fn lemma_escaped_all(a: Seq<char>, x: Seq<char>, b: Seq<char>, y: Seq<char>)
    requires
        escaped_all(a) + seq!['"'] + x == escaped_all(b) + seq!['"'] + y,
    ensures
        a == b,
        x == y,
    decreases a.len(),
{
    let s = escaped_all(a) + seq!['"'] + x;
    let t = escaped_all(b) + seq!['"'] + y;
    if a.len() > 0 {
        lemma_escaped_first(a, x);
    }
    if b.len() > 0 {
        lemma_escaped_first(b, y);
    }
    if a.len() > 0 && b.len() > 0 {
        let (u, v) = (a.drop_first(), b.drop_first());
        let p = escaped_all(u) + seq!['"'] + x;
        let q = escaped_all(v) + seq!['"'] + y;
        lemma_escaped(a[0], p, b[0], q);
        lemma_escaped_all(u, x, v, y);
        assert(a =~= seq![a[0]] + u);
        assert(b =~= seq![b[0]] + v);
    } else if a.len() > 0 {
        assert(t[0] == '"');
    } else if b.len() > 0 {
        assert(s[0] == '"');
    } else {
        assert(a =~= b);
        assert(x =~= s.skip(1));
        assert(y =~= t.skip(1));
    }
}

/// A string can be read back from its JSON, whatever follows it.
pub proof fn law_strings_can_be_read_back(a: Seq<char>, x: Seq<char>, b: Seq<char>, y: Seq<char>)
    requires
        json_string(a) + x == json_string(b) + y,
    ensures
        a == b,
        x == y,
{
    let s = json_string(a) + x;
    let t = json_string(b) + y;
    assert(s.skip(1) =~= escaped_all(a) + seq!['"'] + x);
    assert(t.skip(1) =~= escaped_all(b) + seq!['"'] + y);
    lemma_escaped_all(a, x, b, y);
}

proof fn lemma_status_json(a: TaskStatus, x: Seq<char>, b: TaskStatus, y: Seq<char>)
    requires
        status_json(a) + x == status_json(b) + y,
    ensures
        status_text(a) == status_text(b),
        x == y,
{
    reveal_strlit("\"Success\"");
    reveal_strlit("{\"Failed\":");
    reveal_strlit("}");
    let s = status_json(a) + x;
    let t = status_json(b) + y;
    assert(s[0] == status_json(a)[0]);
    assert(t[0] == status_json(b)[0]);
    match (a, b) {
        (TaskStatus::Failed(e), TaskStatus::Failed(f)) => {
            let n = "{\"Failed\":"@.len() as int;
            assert(s.skip(n) =~= json_string(e@) + ("}"@ + x));
            assert(t.skip(n) =~= json_string(f@) + ("}"@ + y));
            law_strings_can_be_read_back(e@, "}"@ + x, f@, "}"@ + y);
            assert(x =~= ("}"@ + x).skip(1));
            assert(y =~= ("}"@ + y).skip(1));
        },
        (TaskStatus::Success, TaskStatus::Success) => {
            let n = "\"Success\""@.len() as int;
            assert(x =~= s.skip(n));
            assert(y =~= t.skip(n));
        },
        _ => {},
    }
}

/// An event can be read back from its JSON: events that are written the same are the same,
/// in their type and in all that they say.
pub proof fn law_events_can_be_read_back(a: TransactionEvent, b: TransactionEvent)
    requires
        event_json(a) == event_json(b),
    ensures
        a is Progress <==> b is Progress,
        a is State <==> b is State,
        a is Progress ==> a->payload@ == b->payload@,
        a is State ==> a->State_0 == b->State_0,
        a is Result ==> {
            &&& a->Result_0.transaction_id == b->Result_0.transaction_id
            &&& a->Result_0.role == b->Result_0.role
            &&& status_text(a->Result_0.status) == status_text(b->Result_0.status)
            &&& text_of(a->Result_0.result) == text_of(b->Result_0.result)
        },
{
    reveal_strlit("{\"type\":\"progress\",\"payload\":");
    reveal_strlit("{\"type\":\"state\",\"transaction_id\":");
    reveal_strlit("{\"type\":\"result\",\"transaction_id\":");
    reveal_strlit("}");
    assert(a is Progress ==> event_json(a)[9] == 'p');
    assert(a is State ==> event_json(a)[9] == 's');
    assert(a is Result ==> event_json(a)[9] == 'r');
    assert(b is Progress ==> event_json(b)[9] == 'p');
    assert(b is State ==> event_json(b)[9] == 's');
    assert(b is Result ==> event_json(b)[9] == 'r');
    let all = event_json(a);
    if let TransactionEvent::Progress { payload: p } = a {
        if let TransactionEvent::Progress { payload: q } = b {
            let n = "{\"type\":\"progress\",\"payload\":"@.len() as int;
            assert(p@ =~= all.subrange(n, all.len() - 1));
            assert(q@ =~= all.subrange(n, all.len() - 1));
        }
    }
    if let TransactionEvent::State(e) = a {
        if let TransactionEvent::State(f) = b {
            lemma_state_json(e, f);
        }
    }
    if let TransactionEvent::Result(r) = a {
        if let TransactionEvent::Result(q) = b {
            lemma_report_json(r, q);
        }
    }
}

proof fn lemma_state_json(e: TransactionStateEvent, f: TransactionStateEvent)
    requires
        state_json(e) == state_json(f),
    ensures
        e == f,
{
    reveal_strlit("\",\"state\":\"");
    reveal_strlit("\"}");
    let head = "{\"type\":\"state\",\"transaction_id\":"@;
    let mid = "\",\"state\":\""@;
    let end = "\"}"@;
    let tail1 = mid.drop_first() + state_text(e.state) + end;
    let tail2 = mid.drop_first() + state_text(f.state) + end;
    let d1 = head + decimal(e.transaction_id as nat) + ",\"role\":\""@ + role_text(e.role);
    let d2 = head + decimal(f.transaction_id as nat) + ",\"role\":\""@ + role_text(f.role);
    assert(state_json(e) =~= d1 + seq!['"'] + tail1);
    assert(state_json(f) =~= d2 + seq!['"'] + tail2);
    lemma_number_and_role(
        head,
        e.transaction_id,
        e.role,
        tail1,
        f.transaction_id,
        f.role,
        tail2,
    );
    let n = mid.len() - 1;
    assert(tail1.skip(n) =~= state_text(e.state).push('"') + seq!['}']);
    assert(tail2.skip(n) =~= state_text(f.state).push('"') + seq!['}']);
    lemma_state_texts(e.state, f.state);
    lemma_state_texts(f.state, e.state);
    crate::text::lemma_split_unique(
        state_text(e.state),
        seq!['}'],
        state_text(f.state),
        seq!['}'],
        '"',
    );
}

proof fn lemma_report_head(r: ResultReport, status1: Seq<char>, q: ResultReport, status2: Seq<char>)
    requires
        report_with(r, status1) == report_with(q, status2),
    ensures
        r.transaction_id == q.transaction_id,
        r.role == q.role,
        status1 + report_end(r.result) == status2 + report_end(q.result),
{
    reveal_strlit("\",\"status\":");
    let head = "{\"type\":\"result\",\"transaction_id\":"@;
    let mid = "\",\"status\":"@;
    let (end1, end2) = (report_end(r.result), report_end(q.result));
    let tail1 = mid.drop_first() + status1 + end1;
    let tail2 = mid.drop_first() + status2 + end2;
    let d1 = head + decimal(r.transaction_id as nat) + ",\"role\":\""@ + role_text(r.role);
    let d2 = head + decimal(q.transaction_id as nat) + ",\"role\":\""@ + role_text(q.role);
    assert(report_with(r, status1) =~= d1 + seq!['"'] + tail1);
    assert(report_with(q, status2) =~= d2 + seq!['"'] + tail2);
    lemma_number_and_role(
        head,
        r.transaction_id,
        r.role,
        tail1,
        q.transaction_id,
        q.role,
        tail2,
    );
    let n = mid.len() - 1;
    assert(tail1.skip(n) =~= status1 + end1);
    assert(tail2.skip(n) =~= status2 + end2);
}

proof fn lemma_report_end(a: Option<String>, b: Option<String>)
    requires
        report_end(a) == report_end(b),
    ensures
        text_of(a) == text_of(b),
{
    reveal_strlit(",\"result\":");
    reveal_strlit("}");
    let all = report_end(a);
    assert(a is Some ==> all[0] == ',');
    assert(b is Some ==> all[0] == ',');
    if let Some(x) = a {
        if let Some(y) = b {
            let n = ",\"result\":"@.len() as int;
            assert(x@ =~= all.subrange(n, all.len() - 1));
            assert(y@ =~= all.subrange(n, all.len() - 1));
        }
    }
}

proof fn lemma_report_json(r: ResultReport, q: ResultReport)
    requires
        report_json(r) == report_json(q),
    ensures
        r.transaction_id == q.transaction_id,
        r.role == q.role,
        status_text(r.status) == status_text(q.status),
        text_of(r.result) == text_of(q.result),
{
    lemma_report_head(r, status_json(r.status), q, status_json(q.status));
    lemma_status_json(r.status, report_end(r.result), q.status, report_end(q.result));
    lemma_report_end(r.result, q.result);
}

} // verus!
