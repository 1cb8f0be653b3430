//! Progress events and their rendering.

pub mod events;
pub mod format;
