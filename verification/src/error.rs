//! The errors that a request is answered with.
use vstd::prelude::*;

verus! {

/// Which of the bus's standard errors a request is answered with.
#[derive(Clone, Copy, Debug, PartialEq, Eq, Structural)]
pub enum ErrorKind {
    /// The caller may not do this.
    AccessDenied,
    /// The object does not exist, or no longer.
    UnknownObject,
    /// The request cannot be served in the present state.
    Failed,
    /// The request, or what it would add, is too large.
    LimitsExceeded,
    /// Nobody answered in time.
    TimedOut,
}

/// An error as the caller sees it: its kind and its message.
#[derive(Debug)]
pub struct ServiceError {
    pub kind: ErrorKind,
    pub message: String,
}

impl View for ServiceError {
    type V = (ErrorKind, Seq<char>);

    open spec fn view(&self) -> (ErrorKind, Seq<char>) {
        (self.kind, self.message@)
    }
}

impl ServiceError {
    pub fn new(kind: ErrorKind, message: &str) -> (e: ServiceError)
        ensures
            e@ == (kind, message@),
    {
        ServiceError { kind, message: message.to_owned() }
    }
}

/// What an answer says, with its error taken by its view.
pub open spec fn answer<V>(r: Result<V, ServiceError>) -> Result<V, (ErrorKind, Seq<char>)> {
    match r {
        Ok(v) => Ok(v),
        Err(e) => Err(e@),
    }
}

} // verus!
