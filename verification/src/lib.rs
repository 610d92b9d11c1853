//! The dispatch core of a fixed-size worker pool, and what a small HTTP
//! server computes from a request before it hands the pool a job.
//!
//! The pool ([`thread_pool`]) owns a queue of jobs ([`queue`]) and a fixed
//! set of workers ([`worker`]). It decides who gets which job and in what
//! order; threads, locks and the running of a job are left to the caller.
//! [`history`] states what holds of every run of the pool. [`request`]
//! finds the path in a request and chooses the page that answers it.

pub mod history;
pub mod queue;
pub mod request;
pub mod thread_pool;
pub mod worker;
