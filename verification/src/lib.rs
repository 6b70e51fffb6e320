//! A platform-independent model of local (same-machine) byte-stream
//! inter-process communication: clients connect to a named endpoint,
//! servers bind a listener there and accept a sequence of connections,
//! and each established connection is an ordered, bidirectional byte
//! stream.
//!
//! The verified core works over an explicit [`fabric::Fabric`] value that
//! stands for the machine-local IPC facility (bound endpoints, pending
//! connections, per-connection byte queues).  The operating-system
//! transports themselves (Unix domain sockets, Windows named pipes) are
//! pure I/O and live in the unverified adapter around this library.

pub mod fabric;
pub mod stream;
pub mod listener;
pub mod laws;
