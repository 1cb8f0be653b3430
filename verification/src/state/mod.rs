//! Persisted merge state.

pub mod file;
pub mod manager;
