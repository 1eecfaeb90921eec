//! A fixed-size worker-pool core: a FIFO job queue shared by a set of
//! long-lived workers, with graceful shutdown.
//!
//! The pool here is the coordination state: which messages are pending,
//! which worker is idle, running or terminated, and whether shutdown has
//! begun. An embedding program owns the actual threads and drives this
//! state from them; every decision (what a worker receives next, whether a
//! submission is accepted, when a join may happen) is made by the verified
//! functions of this crate.

pub mod message;
pub mod pool;
pub mod queue;
pub mod request;
