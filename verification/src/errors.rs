//! Error taxonomy for the tracker client.
//!
//! Every fallible operation in this crate reports one of these typed
//! failures to its immediate caller; nothing is retried internally.

use vstd::prelude::*;

verus! {

/// A failure surfaced by the tracker client.
#[derive(Clone, Copy, Debug, PartialEq, Eq, Structural)]
pub enum TrackerError {
    /// Malformed fixed-size identifier input (e.g. a peer id that is not
    /// exactly 20 bytes).
    Format,
    /// The bencode codec could not serialize a value.
    Serialization,
    /// Wrong-length compact peer blob, unparseable IP string, or a
    /// truncated datagram.
    MalformedResponse,
    /// Action-code or transaction-id mismatch in a UDP exchange.
    Protocol,
    /// DNS, HTTP or UDP I/O failure.
    Transport,
    /// Host lookup failure.
    Resolution,
}

} // verus!
