//! Client-side core for the line-based text protocol spoken by Minecraft
//! Pi Edition servers: request encoding, response framing, the flush and
//! drain policy of a connection, wire codecs for block values and integer
//! positions, and the 3-D line rasterizer used to batch block placement.
//!
//! The actual TCP socket lives outside this crate; the [`connection`]
//! module models the byte traffic of a connection so that every encoding
//! and framing decision is verified.
use vstd::prelude::*;

pub mod connection;
pub mod drawing;
pub mod events;
pub mod items;
pub mod minecraft;
pub mod numbers;
pub mod text;

verus! {

/// How a failed operation is classified, following the protocol's error
/// taxonomy: the transport itself failed, a reply line was not well formed
/// text, or a reply parsed as text but not into the expected shape.
#[derive(Clone, Copy, Debug, PartialEq, Eq, Structural)]
pub enum McpiError {
    /// The transport cannot carry the request (socket gone or closed).
    TransportUnavailable,
    /// A reply was not a valid text line (stream closed mid-line, bad bytes).
    MalformedResponse,
    /// A reply was a text line but its fields did not parse as expected.
    UnexpectedShape,
}

} // verus!
