//! A bounded pool of worker threads for CPU-heavy jobs, fed by an ageing
//! priority queue.
//!
//! The queue orders pending jobs by an effective priority that rises the
//! longer an entry waits, so low-priority work is never starved; a soft
//! capacity bound drives an advisory backpressure signal without ever
//! rejecting a sender. Pool sizing reserves a share of the machine's cores
//! for the host runtime.
//!
//! This crate verifies the sequential core: the sizing policy, the ageing
//! rule, and the queue's ordering, fairness and capacity contracts. An
//! embedding program supplies the locking, the worker threads and the
//! result channels around it.

pub mod priority;
pub mod queue;
pub mod sizing;
