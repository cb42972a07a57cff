//! Tasks and their scheduling.
pub mod manager;
pub mod task;
