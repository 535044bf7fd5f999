//! The logic of amo, a service on the system bus that runs package operations: the
//! scheduler of transactions, the registry of their objects, the exit protocol, the watch
//! for updates of the service itself, and what is told to clients.
pub mod clock;
pub mod error;
pub mod keyed;
pub mod laws;
pub mod manifest;
pub mod plan;
pub mod progress;
pub mod refresh;
pub mod request;
pub mod self_update;
pub mod service;
pub mod shutdown;
pub mod sorting;
pub mod text;
pub mod transaction;
pub mod tum;
