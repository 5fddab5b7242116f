//! A fixed-size worker pool.
//!
//! The pool accepts one-shot jobs from any number of submitters and hands
//! each job to exactly one long-lived worker. Submission is decoupled from
//! execution: `execute` never blocks, and a job's result is discarded by
//! design. Shutdown closes the queue, lets every worker drain and exit, and
//! joins them all before returning.
//!
//! The crate verifies the pool's coordination logic: the queue's
//! exactly-once delivery, the worker lifecycle, and the shutdown sequence.
//! Spawning operating-system threads, accepting connections and reading
//! files are left to an unverified driver that consults this library for
//! every decision.

pub mod http;
pub mod pool;
pub mod queue;
