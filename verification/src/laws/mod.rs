//! What the operations promise to whoever calls them: each law speaks of a call, of what was
//! handed to it and of what came back.
pub mod exit;
pub mod objects;
pub mod plan;
pub mod progress;
pub mod reclaiming;
pub mod refresh;
pub mod registry;
pub mod reports;
pub mod scheduler;
pub mod service;
pub mod text;
pub mod updates;
