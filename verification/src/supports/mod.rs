//! What the rest of the server leans on.

pub mod calendar;
pub mod color;
pub mod format;
pub mod rotation;
pub mod signal;
pub mod version;
