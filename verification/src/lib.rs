//! A fixed-size worker pool: the dispatch protocol between one producer and a
//! fixed set of workers, and the wire format of the static response a worker
//! serves.
//!
//! The pool is a sequential state machine. Whoever owns the threads keeps one
//! pool behind a lock and reports each event to it; the pool answers with the
//! action to take. Every rule of the protocol is decided here.

pub mod channel;
pub mod protocol;
pub mod worker;
pub mod pool;
pub mod theorems;
pub mod http;
