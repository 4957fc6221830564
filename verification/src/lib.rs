//! A fixed-size worker pool for a small static web server.
//!
//! The crate holds the decisions of the server, each with a contract that
//! Verus proves:
//!
//! * [`queue`]: the closable first-in first-out queue of jobs,
//! * [`pool`]: the pool, its workers and the operations on them,
//! * [`model`]: what a pool is to a contract, and what always holds of it,
//! * [`laws`]: what follows for every pool, whatever happens to it,
//! * [`http`]: the table of known request lines and the bytes of a response,
//! * [`text`]: comparison of text, and the decimal form of a length,
//! * [`config`] and [`error`]: the server's settings and the pool's errors.
//!
//! Threads, locks, sockets and files are the caller's business. A caller wraps
//! a [`pool::WorkerPool`] in a lock, lets each of its threads ask the pool
//! for its next step, and reports back what happened.
pub mod config;
pub mod error;
pub mod http;
pub mod laws;
pub mod model;
pub mod pool;
pub mod queue;
pub mod text;
