//! Bulk episode downloads: range selection, progress parsing, per-task
//! state and the batch that supervises the tasks.

pub mod anime;
pub mod batch;
pub mod progress;
pub mod range;
pub mod style;
pub mod task;
pub mod text;
