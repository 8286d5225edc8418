//! Bounded, order-preserving fan-out of point queries over a batch of keys.
//!
//! The library holds the decisions of a batch run: which key is launched
//! next, where each outcome is placed, and what the caller gets back. The
//! asynchronous executor and the task plumbing live with the caller, which
//! feeds completions back into [`runner::BatchQueryRunner`].
pub mod batch;
pub mod outcome;
pub mod runner;
