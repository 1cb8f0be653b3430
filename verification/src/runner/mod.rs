//! Merge runners: their configuration, results and decisions.

pub mod merge_engine;
pub mod non_interactive;
pub mod release_notes;
pub mod traits;
