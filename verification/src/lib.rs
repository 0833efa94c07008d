//! A DNS message codec: decoding raw UDP byte buffers into structured
//! header, question and resource-record values, and encoding those values
//! back into wire-exact byte sequences.
//!
//! All multi-byte integers on the wire are big-endian. The surrounding
//! I/O shell (sockets, zone lookup) is not part of this crate; it hands
//! the codec byte buffers and plain values and takes byte buffers back.

use vstd::prelude::*;

pub mod header;
pub mod question;
pub mod record;
pub mod wire;

verus! {

/// The errors a codec operation can surface to its caller.
#[derive(Clone, Copy, Debug, PartialEq, Eq, Structural)]
pub enum DnsError {
    /// The buffer ends before the field being decoded does.
    Truncated,
    /// A dotted-decimal address string does not name exactly four
    /// octets in the range 0..=255.
    MalformedAddress,
}

} // verus!
