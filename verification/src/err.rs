use vstd::prelude::*;

verus! {

/// Failures of the netlink protocol layer.
///
/// Transport failures (socket open, send, receive) happen outside this
/// library and are reported by the code that owns the socket; everything
/// that can go wrong while building or interpreting netlink messages is
/// one of these variants.
#[derive(Debug, Clone, Copy, PartialEq, Eq, Structural)]
pub enum NlError {
    /// The kernel sent no reply at all, or a reply that was not of the
    /// expected kind (no acknowledgment record, or no payload for a query).
    NoAck,
    /// The kernel answered with an explicit error record; the value is the
    /// positive errno taken from that record.
    Kernel(u32),
    /// A received buffer violates the TLV framing rules: an attribute's
    /// declared length runs past the end of the buffer, is shorter than the
    /// attribute header, or the buffer is too short for a header at all.
    Malformed,
    /// Resolving an interface name to its index failed; the value is the
    /// errno reported by the lookup.
    Lookup(i32),
    /// A freshly created interface could no longer be resolved by name when
    /// its index was needed: another actor removed or renamed it in between.
    InterfaceGone,
    /// A parameter lies outside the range this library accepts: an interface
    /// name or link kind longer than the protocol allows, a bitrate outside
    /// `1..=1_000_000`, or a sample point of `1000` or more.
    InvalidParameter,
}

} // verus!
