//! A fixed-size worker pool, written as a verified state machine.
//!
//! The pool decouples the submission of jobs from their execution: a producer
//! hands a job over and goes on, while a fixed set of workers claims the jobs
//! one at a time, in the order in which they were submitted. Everything the
//! pool decides is sequential code with a contract; a driver supplies the
//! threads that block, run the jobs and report back.

pub mod count;
pub mod laws;
pub mod model;
pub mod pool;
pub mod request;
pub mod worker;

pub use pool::ThreadPool;
pub use worker::{Worker, WorkerAction, WorkerEvent, WorkerState};
