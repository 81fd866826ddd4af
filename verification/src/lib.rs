//! A byte pipe between two machines that share memory, and the control
//! protocol that hands out TCP sessions over it.
//!
//! - [`pipe`]: single-producer, single-consumer rings and the bidirectional
//!   pipe built from two of them.
//! - [`control`]: framed control messages, their codec, and the client session.
//! - [`monitor`]: the server that owns the sockets and answers requests.
//! - [`data_pipe`]: the per-session byte stream.
//! - [`transfer`]: the workload that exercises a ring from end to end.

pub mod bytes;
pub mod pipe;
pub mod control;
pub mod monitor;
pub mod data_pipe;
pub mod transfer;
