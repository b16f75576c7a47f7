//! A task-graph engine: tasks joined by typed dependency edges, the
//! decisions that drive a precondition-checked, timeout-bounded run over them,
//! and the adaptive backoff used by a repeatable task.

pub mod backoff;
pub mod date;
pub mod engine;
pub mod error;
pub mod graph;
pub mod otp;
pub mod text;
