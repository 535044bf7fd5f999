//! What requests to the service are answered, apart from transactions.
use vstd::prelude::*;

use crate::error::{answer, ErrorKind, ServiceError};
use crate::text::prefixed;

verus! {

/// The name of the connection that a request came from. A request without one is refused.
pub fn require_sender(sender: Option<String>) -> (r: Result<String, ServiceError>)
    ensures
        match sender {
            Some(s) => r == Ok::<String, ServiceError>(s),
            None => r is Err && r->Err_0@ == (ErrorKind::AccessDenied, "Unknown sender!"@),
        },
{
    match sender {
        Some(s) => Ok(s),
        None => Err(ServiceError::new(ErrorKind::AccessDenied, "Unknown sender!")),
    }
}

/// Whether a request may go on, given the answer of the authority.
pub fn require_authorized(is_authorized: bool) -> (r: Result<(), ServiceError>)
    ensures
        answer(r) == if is_authorized {
            Ok(())
        } else {
            Err((ErrorKind::AccessDenied, "Authorized failed!"@))
        },
{
    if is_authorized {
        Ok(())
    } else {
        Err(ServiceError::new(ErrorKind::AccessDenied, "Authorized failed!"))
    }
}

/// Whether a user may have the index looked after.
pub fn require_root(uid: u32) -> (r: Result<(), ServiceError>)
    ensures
        answer(r) == if uid == 0 {
            Ok(())
        } else {
            Err((ErrorKind::AccessDenied, "Only root may invalidate the package cache"@))
        },
{
    if uid != 0 {
        Err(
            ServiceError::new(
                ErrorKind::AccessDenied,
                "Only root may invalidate the package cache",
            ),
        )
    } else {
        Ok(())
    }
}

/// The description of a package, or a word that there is none.
pub fn description(found: Option<String>) -> (d: String)
    ensures
        d@ == match found {
            Some(text) => text@,
            None => "No description available."@,
        },
{
    match found {
        Some(text) => text,
        None => "No description available.".to_owned(),
    }
}

/// A step of a request that can fail.
#[derive(Clone, Copy, Debug, PartialEq, Eq, Structural)]
pub enum RequestStep {
    /// Bringing the index in step before it is read.
    EnsureFresh,
    /// Bringing the index in step on request.
    Invalidate,
    /// Waiting for a task.
    Join,
    /// Writing what a search found.
    WriteSearch,
    /// Taking an object off the bus.
    RemoveObject,
    /// Anything that says itself what it was.
    Plain,
}

/// What is said before the reason for which a step failed.
pub open spec fn step_text(step: RequestStep) -> Seq<char> {
    match step {
        RequestStep::EnsureFresh => "Failed to refresh package cache: "@,
        RequestStep::Invalidate => "Cache refresh failed: "@,
        RequestStep::Join => "Task failed: "@,
        RequestStep::WriteSearch => "Search serialization error: "@,
        RequestStep::RemoveObject => "Failed to destroy transaction: "@,
        RequestStep::Plain => ""@,
    }
}

/// The answer to a request of which a step failed.
pub fn step_failed(step: RequestStep, why: &str) -> (e: ServiceError)
    ensures
        e@ == (ErrorKind::Failed, step_text(step) + why@),
{
    let said = match step {
        RequestStep::EnsureFresh => "Failed to refresh package cache: ",
        RequestStep::Invalidate => "Cache refresh failed: ",
        RequestStep::Join => "Task failed: ",
        RequestStep::WriteSearch => "Search serialization error: ",
        RequestStep::RemoveObject => "Failed to destroy transaction: ",
        RequestStep::Plain => "",
    };
    ServiceError { kind: ErrorKind::Failed, message: prefixed(said, why) }
}

} // verus!
