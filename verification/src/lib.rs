//! Wire-level message layer of the Peer Wire Protocol: the length-prefixed,
//! type-tagged binary framing two connected peers use after the initial
//! handshake, together with a stream framer that recovers whole frames from an
//! arbitrarily chunked byte stream and the per-connection choke/interest state.

use vstd::prelude::*;

pub mod framer;
pub mod pwp;
pub mod wire;

verus! {

/// A peer's identity: exactly 20 raw bytes, compared by byte equality.
pub type PeerId = [u8; 20];

/// The identity of the shared content: exactly 20 raw bytes.
pub type InfoHash = [u8; 20];

/// Zero-based index of a piece of the shared content.
pub type PieceIndex = u32;

/// Byte offset of a block within a piece.
pub type BlockOffset = u32;

/// Byte length of a block within a piece.
pub type BlockSize = u32;

} // verus!
