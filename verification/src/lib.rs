//! Verified core of a browser-to-browser media signaling client.
//!
//! The library holds the signaling logic: the wire codec for offer,
//! answer and candidate messages, the registry of per-peer negotiation
//! contexts, and the state machine that drives offer/answer exchange.
//! The real-time transport engine and the capture devices live outside;
//! the surrounding application performs those calls and feeds their
//! results back in as plain values.

use vstd::prelude::*;

pub mod codec;
pub mod context;
pub mod messages;
pub mod registry;
pub mod session;

verus! {

/// A decoded signaling message could not be produced from the given text:
/// it is not well-formed wire data, its tag is unrecognized, or a field
/// required by its tag is absent or mistyped.
#[derive(Clone, Copy, Debug, PartialEq, Eq, Structural)]
pub struct DecodingError;

/// A message could not be put on the wire; this arises only when a text
/// field carries a character the wire format cannot represent.
#[derive(Clone, Copy, Debug, PartialEq, Eq, Structural)]
pub struct EncodingError;

} // verus!
