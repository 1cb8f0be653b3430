//! Merge workflow library: selection of pull requests by their work items,
//! file-level dependency analysis between pull requests, the cherry-pick
//! state machine with its persisted state file, hook configuration, and the
//! text rendering of progress events.

pub mod error;
pub mod exit_code;
pub mod models;
pub mod operations;
pub mod output;
pub mod runner;
pub mod state;
pub mod text;

pub use exit_code::ExitCode;
