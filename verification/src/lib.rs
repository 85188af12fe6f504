//! A fixed-size worker pool: jobs submitted through a FIFO channel are
//! executed exactly once each by a bounded set of workers, with a graceful
//! shutdown that drains every queued and in-flight job before returning.
//!
//! The pool is modelled with an abstract clock: each job carries the number
//! of time units it occupies a worker, every job is available from time
//! zero, and a dequeued job starts on the worker that becomes free
//! earliest. The model's contracts pin down the dequeue order, the
//! exactly-once guarantee, and the schedule that a pool of size N gives to
//! its first N jobs.
//!
//! Around the pool stand the pieces the pool serves: request routing and
//! response formatting for a small fixed table of request lines, and a
//! guessing game whose secret is drawn through an outside random-number
//! generator.

pub mod channel;
pub mod demos;
pub mod guessing;
pub mod http;
pub mod pool;
