//! The application layer of an HTTP/3 benchmark over QUIC: a server that
//! answers `GET /mem/<size>[<unit>]` with as many zero bytes, and a client
//! that sends a batch of such requests over one connection and measures the
//! goodput.
//!
//! The transport is `quiche`. Everything that is decided here is decided by
//! functions from plain values to plain values, which say exactly what they
//! return; the functions that talk to the transport hand its answers to
//! them, and say what holds whatever the transport answers.

use vstd::prelude::*;

pub mod body;
pub mod client;
pub mod h3;
pub mod metrics;
pub mod request;
pub mod server;
pub mod size;
pub mod transport;

verus! {

/// Application error code with which a connection is closed after every
/// transfer on it has succeeded.
pub const H3_NO_ERROR: u64 = 0x100;

/// How many events, how many reads and how many writes on one stream a pass
/// handles at most: more than any pass comes to.
pub const ROUNDS: usize = usize::MAX;

} // verus!
