//! Reports: how work ended is told as it ended.
use vstd::prelude::*;

use crate::error::{ErrorKind, ServiceError};
use crate::text::decimal;
use crate::transaction::events::{
    emit_progress, failure_result_json, json_canonical, json_string, panic_detail, progress_event,
    request_report_json, request_status, role_name, state_name, summary_report, to_json,
    work_report, write_report, write_request_report, write_status, RequestWork, SummaryOutcome,
    TaskFailure, WorkOutcome,
};
use crate::transaction::types::{
    ResultReport, TaskStatus, TransactionEvent, TransactionRole, TransactionState,
    TransactionStateEvent,
};

verus! {

/// The text ends with the reason, behind something that introduces it.
pub open spec fn introduces(text: Seq<char>, why: Seq<char>) -> bool {
    exists|said: Seq<char>| said.len() > 0 && text == #[trigger] (said + why)
}

/// How work followed by a refresh is told: it is a success exactly if the work returned without
/// an error and the refresh did too. An error of the work is told as it is, whatever the refresh
/// came to; an error of the refresh, and that work never came back, are told with their reason.
pub open spec fn is_told_as_it_ended(
    status: TaskStatus,
    work: WorkOutcome,
    refresh: Result<(), String>,
) -> bool {
    &&& status is Success <==> {
        &&& work is Returned
        &&& work->Returned_0 is Ok
        &&& refresh is Ok
    }
    &&& work is Returned && work->Returned_0 is Err ==> status is Failed && status->Failed_0@
        == work->Returned_0->Err_0@
    &&& work is Returned && work->Returned_0 is Ok && refresh is Err ==> status is Failed
        && introduces(status->Failed_0@, refresh->Err_0@)
    &&& work is Lost ==> status is Failed && introduces(status->Failed_0@, work->Lost_0@)
}

proof fn lemma_introduced(said: Seq<char>, why: Seq<char>)
    requires
        said.len() > 0,
    ensures
        introduces(said + why, why),
{
}

/// The report on a transaction's work tells of that transaction how its work ended, and carries
/// nothing else.
pub proof fn law_work_is_reported_as_it_ended(
    id: u64,
    role: TransactionRole,
    work: WorkOutcome,
    refresh: Result<(), String>,
    r: ResultReport,
)
    requires
        call_ensures(work_report, (id, role, work, refresh), r),
    ensures
        r.transaction_id == id,
        r.role == role,
        r.result is None,
        is_told_as_it_ended(r.status, work, refresh),
{
    reveal_strlit("Package operation succeeded but cache refresh failed: ");
    reveal_strlit(" failed to join: ");
    match work {
        WorkOutcome::Lost(e) => {
            lemma_introduced("Task"@ + " failed to join: "@, e@);
        },
        WorkOutcome::Returned(Ok(())) => {
            if let Err(e) = refresh {
                lemma_introduced("Package operation succeeded but cache refresh failed: "@, e@);
            }
        },
        _ => {},
    }
}

/// The status of a request's work tells how the work ended; work that never came back is named.
pub proof fn law_request_is_told_as_it_ended(
    request: RequestWork,
    work: WorkOutcome,
    refresh: Result<(), String>,
    status: TaskStatus,
)
    requires
        call_ensures(request_status, (request, work, refresh), status),
    ensures
        is_told_as_it_ended(status, work, refresh),
        work is Lost ==> status->Failed_0@ == match request {
            RequestWork::Refresh => "Refresh task failed to join: "@,
            RequestWork::ApplyChanges => "Apply task failed to join: "@,
        } + work->Lost_0@,
{
    reveal_strlit("Package operation succeeded but cache refresh failed: ");
    reveal_strlit(" failed to join: ");
    reveal_strlit("Refresh task");
    reveal_strlit("Apply task");
    reveal_strlit("Refresh task failed to join: ");
    reveal_strlit("Apply task failed to join: ");
    match work {
        WorkOutcome::Lost(e) => {
            let label = match request {
                RequestWork::Refresh => "Refresh task"@,
                RequestWork::ApplyChanges => "Apply task"@,
            };
            lemma_introduced(label + " failed to join: "@, e@);
            assert("Refresh task"@ + " failed to join: "@ =~= "Refresh task failed to join: "@);
            assert("Apply task"@ + " failed to join: "@ =~= "Apply task failed to join: "@);
        },
        WorkOutcome::Returned(Ok(())) => {
            if let Err(e) = refresh {
                lemma_introduced("Package operation succeeded but cache refresh failed: "@, e@);
            }
        },
        _ => {},
    }
}

/// The report on a preview is a success that carries the preview exactly if there is one. A
/// failure is told as it is; what else went wrong is told with its reason.
pub proof fn law_preview_is_reported_as_it_ended(
    id: u64,
    role: TransactionRole,
    outcome: SummaryOutcome,
    r: ResultReport,
)
    requires
        call_ensures(summary_report, (id, role, outcome), r),
    ensures
        r.transaction_id == id,
        r.role == role,
        r.status is Success <==> outcome is Summary,
        r.result is Some <==> outcome is Summary,
        outcome is Summary ==> r.result->0@ == outcome->Summary_0@,
        outcome is Failed ==> r.status->Failed_0@ == outcome->Failed_0@,
        outcome is Unwritable ==> exists|said: Seq<char>|
            r.status->Failed_0@ == #[trigger] (said + outcome->Unwritable_0@),
        outcome is Lost ==> exists|said: Seq<char>|
            r.status->Failed_0@ == #[trigger] (said + outcome->Lost_0@),
{
}

/// How a task died is told by the message of its panic, if it has one; the other ways are told
/// apart.
pub proof fn law_death_is_told_by_its_message(
    e: TaskFailure,
    detail: String,
    cancelled: String,
    silent: String,
)
    requires
        call_ensures(panic_detail, (e,), detail),
        call_ensures(panic_detail, (TaskFailure::Cancelled,), cancelled),
        call_ensures(panic_detail, (TaskFailure::Panicked(None),), silent),
    ensures
        e matches TaskFailure::Panicked(Some(message)) ==> detail@ == message@,
        cancelled@ != silent@,
{
    reveal_strlit("transaction task was cancelled");
    reveal_strlit("transaction task panicked");
    assert(cancelled@.len() != silent@.len());
}

/// No two roles have the same name, and no two states.
pub proof fn law_names_tell_apart(
    a: TransactionRole,
    b: TransactionRole,
    x: &'static str,
    y: &'static str,
    c: TransactionState,
    d: TransactionState,
    u: &'static str,
    v: &'static str,
)
    requires
        call_ensures(role_name, (a,), x),
        call_ensures(role_name, (b,), y),
        call_ensures(state_name, (c,), u),
        call_ensures(state_name, (d,), v),
    ensures
        x@ == y@ ==> a == b,
        u@ == v@ ==> c == d,
{
    reveal_strlit("refresh");
    reveal_strlit("apply_changes");
    reveal_strlit("simulate");
    reveal_strlit("updates_list");
    reveal_strlit("queued");
    reveal_strlit("running");
    reveal_strlit("finished");
    reveal_strlit("cancelled");
    if x@ == y@ {
        assert(x@[0] == y@[0]);
    }
    if u@ == v@ {
        assert(u@[0] == v@[0]);
    }
}

/// A change of state is written as an object of its type, with the id as a number and the names
/// of the role and of the state.
pub proof fn law_state_is_written(
    e: TransactionStateEvent,
    json: String,
    role: &'static str,
    state: &'static str,
)
    requires
        call_ensures(to_json, (&TransactionEvent::State(e),), json),
        call_ensures(role_name, (e.role,), role),
        call_ensures(state_name, (e.state,), state),
    ensures
        json@ == "{\"type\":\"state\",\"transaction_id\":"@ + decimal(e.transaction_id as nat)
            + ",\"role\":\""@ + role@ + "\",\"state\":\""@ + state@ + "\"}"@,
{
}

/// Progress is written with its payload as it is.
pub proof fn law_progress_is_written(payload: String, json: String)
    requires
        call_ensures(to_json, (&TransactionEvent::Progress { payload },), json),
    ensures
        json@ == "{\"type\":\"progress\",\"payload\":"@ + payload@ + "}"@,
{
}

/// The status as it is written: a word, or an object that holds the reason as a string.
pub open spec fn written_status(status: TaskStatus) -> Seq<char> {
    match status {
        TaskStatus::Success => "\"Success\""@,
        TaskStatus::Failed(why) => "{\"Failed\":"@ + json_string(why@) + "}"@,
    }
}

/// A report is written as an object of its type, with the id, the role and the status; and with
/// the result, as it is, exactly if it has one.
pub proof fn law_report_is_written(r: ResultReport, json: String, role: &'static str)
    requires
        call_ensures(to_json, (&TransactionEvent::Result(r),), json),
        call_ensures(role_name, (r.role,), role),
    ensures
        r.result is None ==> json@ == "{\"type\":\"result\",\"transaction_id\":"@ + decimal(
            r.transaction_id as nat,
        ) + ",\"role\":\""@ + role@ + "\",\"status\":"@ + written_status(r.status) + "}"@,
        r.result is Some ==> json@ == "{\"type\":\"result\",\"transaction_id\":"@ + decimal(
            r.transaction_id as nat,
        ) + ",\"role\":\""@ + role@ + "\",\"status\":"@ + written_status(r.status) + (
        ",\"result\":"@ + r.result->0@ + "}"@),
{
}

/// The report that a task failed is written as the report with that failure and no result.
pub proof fn law_failure_is_written_as_a_report(
    id: u64,
    role: TransactionRole,
    detail: String,
    json: String,
    report: String,
)
    requires
        call_ensures(failure_result_json, (id, role, detail), json),
        call_ensures(
            to_json,
            (&TransactionEvent::Result(
                ResultReport {
                    transaction_id: id,
                    role,
                    status: TaskStatus::Failed(detail),
                    result: None,
                },
            ),),
            report,
        ),
    ensures
        json@ == report@,
{
}

/// The report on a request is written with its number and its status.
pub proof fn law_request_report_is_written(request_id: u64, status: TaskStatus, json: String)
    requires
        call_ensures(request_report_json, (request_id, &status), json),
    ensures
        json@ == "{\"request_id\":"@ + decimal(request_id as nat) + ",\"status\":"@
            + written_status(status) + "}"@,
{
}

/// Progress is announced exactly if it can be parsed, with what the parser made of it; else the
/// parser's complaint is told.
pub proof fn law_progress_is_announced_if_it_parses(
    payload: &str,
    r: Result<String, ServiceError>,
)
    requires
        call_ensures(emit_progress, (payload,), r),
    ensures
        r is Ok <==> json_canonical(payload@) is Ok,
        r is Ok ==> r->Ok_0@ == "{\"type\":\"progress\",\"payload\":"@ + json_canonical(
            payload@,
        )->Ok_0 + "}"@,
        r is Err ==> r->Err_0.kind == ErrorKind::Failed && introduces(
            r->Err_0.message@,
            json_canonical(payload@)->Err_0,
        ),
{
    reveal_strlit("Invalid progress payload: ");
    if r is Err {
        assert(r->Err_0@ == (r->Err_0.kind, r->Err_0.message@));
        lemma_introduced("Invalid progress payload: "@, json_canonical(payload@)->Err_0);
    }
}

/// The same of a payload that was parsed elsewhere.
pub proof fn law_parsed_progress_is_announced(
    parsed: Result<String, String>,
    r: Result<String, ServiceError>,
)
    requires
        call_ensures(progress_event, (parsed,), r),
    ensures
        r is Ok <==> parsed is Ok,
        r is Ok ==> r->Ok_0@ == "{\"type\":\"progress\",\"payload\":"@ + parsed->Ok_0@ + "}"@,
        r is Err ==> r->Err_0.kind == ErrorKind::Failed && introduces(
            r->Err_0.message@,
            parsed->Err_0@,
        ),
{
    reveal_strlit("Invalid progress payload: ");
    if r is Err {
        assert(r->Err_0@ == (r->Err_0.kind, r->Err_0.message@));
        lemma_introduced("Invalid progress payload: "@, parsed->Err_0@);
    }
}

/// What is written of a preview that came to nothing names what was previewed, and why.
pub proof fn law_failed_preview_is_named(
    id: u64,
    role: TransactionRole,
    outcome: SummaryOutcome,
    r: ResultReport,
)
    requires
        call_ensures(summary_report, (id, role, outcome), r),
    ensures
        outcome is Unwritable ==> r.status->Failed_0@ == "Serialize "@ + match role {
            TransactionRole::Refresh => "Refresh"@,
            TransactionRole::ApplyChanges => "ApplyChanges"@,
            TransactionRole::Simulate => "Simulate"@,
            TransactionRole::UpdatesList => "UpdatesList"@,
        } + " result: "@ + outcome->Unwritable_0@,
        outcome is Lost ==> r.status->Failed_0@ == match role {
            TransactionRole::Refresh => "Refresh"@,
            TransactionRole::ApplyChanges => "ApplyChanges"@,
            TransactionRole::Simulate => "Simulate"@,
            TransactionRole::UpdatesList => "UpdatesList"@,
        } + " task failed to join: "@ + outcome->Lost_0@,
{
}

/// A status is written as a word, or as an object around the reason.
pub proof fn law_status_is_written(why: Option<&str>, json: String)
    requires
        call_ensures(write_status, (why,), json),
    ensures
        why is None ==> json@ == "\"Success\""@,
        why is Some ==> json@ == "{\"Failed\":"@ + why->0@ + "}"@,
{
}

/// A report is written around its status, with the result exactly if it has one.
pub proof fn law_report_is_written_around_its_status(
    r: ResultReport,
    status: &str,
    json: String,
    role: &'static str,
)
    requires
        call_ensures(write_report, (&r, status), json),
        call_ensures(role_name, (r.role,), role),
    ensures
        r.result is None ==> json@ == "{\"type\":\"result\",\"transaction_id\":"@ + decimal(
            r.transaction_id as nat,
        ) + ",\"role\":\""@ + role@ + "\",\"status\":"@ + status@ + "}"@,
        r.result is Some ==> json@ == "{\"type\":\"result\",\"transaction_id\":"@ + decimal(
            r.transaction_id as nat,
        ) + ",\"role\":\""@ + role@ + "\",\"status\":"@ + status@ + (",\"result\":"@
            + r.result->0@ + "}"@),
{
}

/// The report on a request is written around its status.
pub proof fn law_request_report_is_written_around_its_status(
    request_id: u64,
    status: &str,
    json: String,
)
    requires
        call_ensures(write_request_report, (request_id, status), json),
    ensures
        json@ == "{\"request_id\":"@ + decimal(request_id as nat) + ",\"status\":"@ + status@ + "}"@,
{
}

} // verus!
