//! What the scheduler, the transaction objects and the registry share: roles,
//! states, events and errors.
use vstd::prelude::*;

verus! {

/// What a transaction does.
#[derive(Clone, Copy, Debug, PartialEq, Eq, Structural)]
pub enum TransactionRole {
    /// Refreshes the package indices.
    Refresh,
    /// Installs, removes and upgrades.
    ApplyChanges,
    /// Previews a change.
    Simulate,
    /// Lists what can be upgraded.
    UpdatesList,
}

#[derive(Clone, Copy, Debug, PartialEq, Eq, Structural)]
pub enum TransactionState {
    /// In the queue, waiting.
    Queued,
    /// Being executed.
    Running,
    /// Executed.
    Finished,
    /// Cancelled in the queue, never executed.
    Cancelled,
}

/// A change of state, as it is announced.
#[derive(Clone, Copy, Debug, PartialEq, Eq, Structural)]
pub struct TransactionStateEvent {
    pub transaction_id: u64,
    pub role: TransactionRole,
    pub state: TransactionState,
}

/// Why a transaction was not cancelled.
#[derive(Clone, Copy, Debug, PartialEq, Eq, Structural)]
pub enum CancelError {
    /// There is no such transaction, or it has ended.
    NotFound,
    /// The caller neither owns the transaction nor is root.
    NotOwner,
    /// The transaction is being executed.
    Running,
    /// The transaction is cancelled already.
    AlreadyCancelled,
}

/// Why a transaction was not queued.
#[derive(Clone, Copy, Debug, PartialEq, Eq, Structural)]
pub enum EnqueueError {
    /// As many transactions are queued and running as are allowed.
    QueueFull,
    /// As many of this user's transactions are queued as are allowed.
    QuotaExceeded,
}

/// How a transaction's task ended.
#[derive(Clone, Debug, PartialEq)]
pub enum TaskStatus {
    Success,
    Failed(String),
}

/// The report that ends a transaction. `result` is a JSON text.
#[derive(Clone, Debug)]
pub struct ResultReport {
    pub transaction_id: u64,
    pub role: TransactionRole,
    pub status: TaskStatus,
    pub result: Option<String>,
}

/// Everything that is announced of a transaction, on one stream.
#[derive(Clone, Debug)]
pub enum TransactionEvent {
    /// Progress; `payload` is a JSON text.
    Progress { payload: String },
    /// A change of state.
    State(TransactionStateEvent),
    /// The report that ends the transaction.
    Result(ResultReport),
}

} // verus!
