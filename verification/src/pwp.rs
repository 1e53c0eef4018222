//! Implementation of the Peer Wire Protocol (PWP): the messages exchanged
//! after the handshake, the fixed 68-byte handshake itself, and the
//! per-connection choke/interest flags.
//!
//! Every frame on the wire is a big-endian 32-bit length prefix followed by a
//! one-byte type tag and the payload; the sole exception is `KeepAlive`, whose
//! frame is the 4-byte prefix holding 0 and nothing else.

use crate::wire::{
    copy_range, lemma_u32_be_round_trip, lemma_u64_be_round_trip, push_bytes, push_u32_be,
    push_u64_be, read_u32_be, read_u64_be, u32_be_bytes, u32_from_be, u64_be_bytes, u64_from_be,
};
use vstd::prelude::*;

verus! {

/// Flag set when a handshake offers the fast extension.
pub const FLAG_FAST: u64 = 0x0000_0000_0000_0400;

/// Flag set when a handshake offers the distributed hash table.
pub const FLAG_DHT: u64 = 0x0000_0000_0000_0001;

/// Flag set when a handshake offers extended messaging.
pub const FLAG_EXTENDED: u64 = 0x0000_0000_1000_0000;

/// The largest declared frame length a decoder accepts by default: one
/// mebibyte, ample for the customary 16 KiB block transfers and for any
/// realistic bitfield, yet small enough that a hostile length prefix cannot
/// make a peer reserve unbounded memory.
pub const DEFAULT_MAX_FRAME: u32 = 0x0010_0000;

/// A fatal failure of the codec; every kind ends the connection's stream.
#[derive(Clone, Copy, Debug, PartialEq, Eq, Structural)]
pub enum CodecError {
    /// The handshake's fixed protocol-name field did not match.
    ProtocolMismatch,
    /// An unrecognized tag, or a declared length that disagrees with the tag.
    MalformedMessage,
    /// A declared length above the configured maximum frame size.
    FrameTooLarge,
}

/// Whether we will serve data requests of the peer (or they of us).
#[derive(Clone, Copy, Debug, PartialEq, Eq, Structural)]
pub enum ChokeFlag {
    Choked,
    Unchoked,
}

impl Default for ChokeFlag {
    /// A fresh connection starts choked.
    fn default() -> (r: Self)
        ensures
            r == ChokeFlag::Choked,
    {
        ChokeFlag::Choked
    }
}

/// Whether we want to request data from the peer (or they from us).
#[derive(Clone, Copy, Debug, PartialEq, Eq, Structural)]
pub enum InterestFlag {
    Interested,
    NotInterested,
}

impl Default for InterestFlag {
    /// A fresh connection starts not interested.
    fn default() -> (r: Self)
        ensures
            r == InterestFlag::NotInterested,
    {
        InterestFlag::NotInterested
    }
}

/// Messages sent over PWP after the handshake.
#[derive(Debug)]
pub enum Message {
    KeepAlive,
    Choke,
    Unchoke,
    Interested,
    Uninterested,
    Have(crate::PieceIndex),
    Bitfield(Vec<u8>),
    Request { index: crate::PieceIndex, offset: crate::BlockOffset, length: crate::BlockSize },
    Cancel { index: crate::PieceIndex, offset: crate::BlockOffset, length: crate::BlockSize },
    Block { index: crate::PieceIndex, offset: crate::BlockOffset, data: Vec<u8> },
}

/// The mathematical model of a message: the same variants with the byte
/// buffers abstracted to sequences.
pub enum MessageView {
    KeepAlive,
    Choke,
    Unchoke,
    Interested,
    Uninterested,
    Have(u32),
    Bitfield(Seq<u8>),
    Request { index: u32, offset: u32, length: u32 },
    Cancel { index: u32, offset: u32, length: u32 },
    Block { index: u32, offset: u32, data: Seq<u8> },
}

impl View for Message {
    type V = MessageView;

    open spec fn view(&self) -> MessageView {
        match self {
            Message::KeepAlive => MessageView::KeepAlive,
            Message::Choke => MessageView::Choke,
            Message::Unchoke => MessageView::Unchoke,
            Message::Interested => MessageView::Interested,
            Message::Uninterested => MessageView::Uninterested,
            Message::Have(index) => MessageView::Have(*index),
            Message::Bitfield(bits) => MessageView::Bitfield(bits@),
            Message::Request { index, offset, length } => MessageView::Request {
                index: *index,
                offset: *offset,
                length: *length,
            },
            Message::Cancel { index, offset, length } => MessageView::Cancel {
                index: *index,
                offset: *offset,
                length: *length,
            },
            Message::Block { index, offset, data } => MessageView::Block {
                index: *index,
                offset: *offset,
                data: data@,
            },
        }
    }
}

/// The byte length of a message's tag and payload: exactly the value its
/// 4-byte length prefix carries.
pub open spec fn payload_len(m: MessageView) -> int {
    match m {
        MessageView::KeepAlive => 0,
        MessageView::Choke => 1,
        MessageView::Unchoke => 1,
        MessageView::Interested => 1,
        MessageView::Uninterested => 1,
        MessageView::Have(_) => 5,
        MessageView::Bitfield(bits) => 1 + bits.len() as int,
        MessageView::Request { .. } => 13,
        MessageView::Cancel { .. } => 13,
        MessageView::Block { data, .. } => 9 + data.len() as int,
    }
}

/// A message is encodable when its tag and payload length fits the 32-bit
/// length prefix.
pub open spec fn msg_wf(m: MessageView) -> bool {
    payload_len(m) <= u32::MAX
}

/// The tag byte and payload of a message; empty for `KeepAlive`, which has no
/// tag.
pub open spec fn spec_body(m: MessageView) -> Seq<u8> {
    match m {
        MessageView::KeepAlive => Seq::empty(),
        MessageView::Choke => seq![0u8],
        MessageView::Unchoke => seq![1u8],
        MessageView::Interested => seq![2u8],
        MessageView::Uninterested => seq![3u8],
        MessageView::Have(index) => seq![4u8] + u32_be_bytes(index),
        MessageView::Bitfield(bits) => seq![5u8] + bits,
        MessageView::Request { index, offset, length } => seq![6u8] + u32_be_bytes(index)
            + u32_be_bytes(offset) + u32_be_bytes(length),
        MessageView::Cancel { index, offset, length } => seq![8u8] + u32_be_bytes(index)
            + u32_be_bytes(offset) + u32_be_bytes(length),
        MessageView::Block { index, offset, data } => seq![7u8] + u32_be_bytes(index)
            + u32_be_bytes(offset) + data,
    }
}

/// The exact wire encoding of a message: the length prefix, computed fresh
/// from the body, followed by the body.
pub open spec fn spec_encode(m: MessageView) -> Seq<u8> {
    u32_be_bytes(payload_len(m) as u32) + spec_body(m)
}

/// The body of a message is as long as its length prefix declares.
pub proof fn lemma_body_len(m: MessageView)
    ensures
        spec_body(m).len() == payload_len(m),
        msg_wf(m) ==> spec_encode(m).len() == 4 + payload_len(m),
{
}

impl Message {
    /// Serialize this message into its exact wire frame.
    pub fn serialize(self) -> (r: Vec<u8>)
        requires
            msg_wf(self@),
        ensures
            r@ == spec_encode(self@),
    {
        let ghost m = self@;
        let mut buf: Vec<u8> = Vec::new();
        match self {
            Message::KeepAlive => {
                push_u32_be(&mut buf, 0);
            },
            Message::Choke => {
                push_u32_be(&mut buf, 1);
                buf.push(0);
            },
            Message::Unchoke => {
                push_u32_be(&mut buf, 1);
                buf.push(1);
            },
            Message::Interested => {
                push_u32_be(&mut buf, 1);
                buf.push(2);
            },
            Message::Uninterested => {
                push_u32_be(&mut buf, 1);
                buf.push(3);
            },
            Message::Have(index) => {
                push_u32_be(&mut buf, 5);
                buf.push(4);
                push_u32_be(&mut buf, index);
            },
            Message::Bitfield(bits) => {
                let len = (bits.len() + 1) as u32;
                push_u32_be(&mut buf, len);
                buf.push(5);
                push_bytes(&mut buf, &bits);
            },
            Message::Request { index, offset, length } => {
                push_u32_be(&mut buf, 13);
                buf.push(6);
                push_u32_be(&mut buf, index);
                push_u32_be(&mut buf, offset);
                push_u32_be(&mut buf, length);
            },
            Message::Cancel { index, offset, length } => {
                push_u32_be(&mut buf, 13);
                buf.push(8);
                push_u32_be(&mut buf, index);
                push_u32_be(&mut buf, offset);
                push_u32_be(&mut buf, length);
            },
            Message::Block { index, offset, data } => {
                let len = (data.len() + 9) as u32;
                push_u32_be(&mut buf, len);
                buf.push(7);
                push_u32_be(&mut buf, index);
                push_u32_be(&mut buf, offset);
                push_bytes(&mut buf, &data);
            },
        }
        assert(buf@ =~= spec_encode(m));
        buf
    }
}

/// What one decode attempt against a buffer yields.
#[derive(Debug)]
pub enum Decoded {
    /// Not enough bytes for a whole frame; nothing was consumed.
    Incomplete,
    /// One complete message, and how many bytes of the buffer it occupied.
    Frame(Message, usize),
}

/// The model of a decode attempt.
pub enum SpecDecoded {
    Incomplete,
    Frame(MessageView, int),
    Malformed,
    TooLarge,
}

/// Dispatch on the tag byte of a frame whose `4 + len` bytes are all present;
/// `len` is the declared (nonzero) length.
pub open spec fn spec_decode_body(buf: Seq<u8>, len: int) -> SpecDecoded
    recommends
        1 <= len,
        4 + len <= buf.len(),
{
    let tag = buf[4];
    let end = 4 + len;
    if tag == 0 {
        if len == 1 {
            SpecDecoded::Frame(MessageView::Choke, 5)
        } else {
            SpecDecoded::Malformed
        }
    } else if tag == 1 {
        if len == 1 {
            SpecDecoded::Frame(MessageView::Unchoke, 5)
        } else {
            SpecDecoded::Malformed
        }
    } else if tag == 2 {
        if len == 1 {
            SpecDecoded::Frame(MessageView::Interested, 5)
        } else {
            SpecDecoded::Malformed
        }
    } else if tag == 3 {
        if len == 1 {
            SpecDecoded::Frame(MessageView::Uninterested, 5)
        } else {
            SpecDecoded::Malformed
        }
    } else if tag == 4 {
        if len == 5 {
            SpecDecoded::Frame(MessageView::Have(u32_from_be(buf.subrange(5, 9))), 9)
        } else {
            SpecDecoded::Malformed
        }
    } else if tag == 5 {
        SpecDecoded::Frame(MessageView::Bitfield(buf.subrange(5, end)), end)
    } else if tag == 6 {
        if len == 13 {
            SpecDecoded::Frame(
                MessageView::Request {
                    index: u32_from_be(buf.subrange(5, 9)),
                    offset: u32_from_be(buf.subrange(9, 13)),
                    length: u32_from_be(buf.subrange(13, 17)),
                },
                17,
            )
        } else {
            SpecDecoded::Malformed
        }
    } else if tag == 7 {
        if len >= 9 {
            SpecDecoded::Frame(
                MessageView::Block {
                    index: u32_from_be(buf.subrange(5, 9)),
                    offset: u32_from_be(buf.subrange(9, 13)),
                    data: buf.subrange(13, end),
                },
                end,
            )
        } else {
            SpecDecoded::Malformed
        }
    } else if tag == 8 {
        if len == 13 {
            SpecDecoded::Frame(
                MessageView::Cancel {
                    index: u32_from_be(buf.subrange(5, 9)),
                    offset: u32_from_be(buf.subrange(9, 13)),
                    length: u32_from_be(buf.subrange(13, 17)),
                },
                17,
            )
        } else {
            SpecDecoded::Malformed
        }
    } else {
        SpecDecoded::Malformed
    }
}

/// The model of decoding one frame from the front of `buf`: reads the 4-byte
/// length prefix, guards it against `max_frame` before anything else, and only
/// then asks for the rest of the frame.
pub open spec fn spec_decode(buf: Seq<u8>, max_frame: u32) -> SpecDecoded {
    if buf.len() < 4 {
        SpecDecoded::Incomplete
    } else {
        let len = u32_from_be(buf.subrange(0, 4));
        if len > max_frame {
            SpecDecoded::TooLarge
        } else if len == 0 {
            SpecDecoded::Frame(MessageView::KeepAlive, 4)
        } else if buf.len() < 4 + len {
            SpecDecoded::Incomplete
        } else {
            spec_decode_body(buf, len as int)
        }
    }
}

/// Whether an executable decode result is the one the model prescribes.
pub open spec fn decoded_matches(r: Result<Decoded, CodecError>, s: SpecDecoded) -> bool {
    match r {
        Ok(Decoded::Incomplete) => s is Incomplete,
        Ok(Decoded::Frame(m, n)) => s matches SpecDecoded::Frame(mv, c) && m@ == mv && n == c,
        Err(CodecError::MalformedMessage) => s is Malformed,
        Err(CodecError::FrameTooLarge) => s is TooLarge,
        Err(CodecError::ProtocolMismatch) => false,
    }
}

impl Message {
    /// Decode one frame from the front of `buf`, if a whole one is present.
    ///
    /// `Incomplete` consumes nothing and asks the caller to buffer more
    /// bytes; a declared length above `max_frame` is rejected before the rest
    /// of the frame is even awaited, so a hostile length prefix never causes
    /// an allocation.
    pub fn decode(buf: &Vec<u8>, max_frame: u32) -> (r: Result<Decoded, CodecError>)
        ensures
            decoded_matches(r, spec_decode(buf@, max_frame)),
    {
        if buf.len() < 4 {
            return Ok(Decoded::Incomplete);
        }
        let len = read_u32_be(buf, 0);
        if len > max_frame {
            return Err(CodecError::FrameTooLarge);
        }
        if len == 0 {
            return Ok(Decoded::Frame(Message::KeepAlive, 4));
        }
        if (buf.len() as u64) < 4u64 + len as u64 {
            return Ok(Decoded::Incomplete);
        }
        let end: usize = 4 + len as usize;
        let tag = buf[4];
        if tag == 0 {
            if len == 1 {
                Ok(Decoded::Frame(Message::Choke, 5))
            } else {
                Err(CodecError::MalformedMessage)
            }
        } else if tag == 1 {
            if len == 1 {
                Ok(Decoded::Frame(Message::Unchoke, 5))
            } else {
                Err(CodecError::MalformedMessage)
            }
        } else if tag == 2 {
            if len == 1 {
                Ok(Decoded::Frame(Message::Interested, 5))
            } else {
                Err(CodecError::MalformedMessage)
            }
        } else if tag == 3 {
            if len == 1 {
                Ok(Decoded::Frame(Message::Uninterested, 5))
            } else {
                Err(CodecError::MalformedMessage)
            }
        } else if tag == 4 {
            if len == 5 {
                let index = read_u32_be(buf, 5);
                Ok(Decoded::Frame(Message::Have(index), 9))
            } else {
                Err(CodecError::MalformedMessage)
            }
        } else if tag == 5 {
            let bits = copy_range(buf, 5, end);
            Ok(Decoded::Frame(Message::Bitfield(bits), end))
        } else if tag == 6 {
            if len == 13 {
                let index = read_u32_be(buf, 5);
                let offset = read_u32_be(buf, 9);
                let length = read_u32_be(buf, 13);
                Ok(Decoded::Frame(Message::Request { index, offset, length }, 17))
            } else {
                Err(CodecError::MalformedMessage)
            }
        } else if tag == 7 {
            if len >= 9 {
                let index = read_u32_be(buf, 5);
                let offset = read_u32_be(buf, 9);
                let data = copy_range(buf, 13, end);
                Ok(Decoded::Frame(Message::Block { index, offset, data }, end))
            } else {
                Err(CodecError::MalformedMessage)
            }
        } else if tag == 8 {
            if len == 13 {
                let index = read_u32_be(buf, 5);
                let offset = read_u32_be(buf, 9);
                let length = read_u32_be(buf, 13);
                Ok(Decoded::Frame(Message::Cancel { index, offset, length }, 17))
            } else {
                Err(CodecError::MalformedMessage)
            }
        } else {
            Err(CodecError::MalformedMessage)
        }
    }
}

/// The fixed 19-byte ASCII protocol identifier, "BitTorrent protocol".
pub open spec fn protocol_name() -> Seq<u8> {
    seq![
        66u8, 105u8, 116u8, 84u8, 111u8, 114u8, 114u8, 101u8, 110u8, 116u8, 32u8, 112u8, 114u8,
        111u8, 116u8, 111u8, 99u8, 111u8, 108u8,
    ]
}

/// The protocol identifier as an owned buffer.
fn protocol_name_bytes() -> (r: Vec<u8>)
    ensures
        r@ == protocol_name(),
{
    let mut r: Vec<u8> = Vec::new();
    r.push(66);
    r.push(105);
    r.push(116);
    r.push(84);
    r.push(111);
    r.push(114);
    r.push(114);
    r.push(101);
    r.push(110);
    r.push(116);
    r.push(32);
    r.push(112);
    r.push(114);
    r.push(111);
    r.push(116);
    r.push(111);
    r.push(99);
    r.push(111);
    r.push(108);
    assert(r@ =~= protocol_name());
    r
}

/// The establishing handshake that starts a PWP connection.
#[derive(Debug)]
pub struct Handshake {
    /// The reserved bits of the handshake, used to flag certain extensions;
    /// unknown bits are carried through untouched.
    pub flags: u64,
    /// The identity of the content the connection is about.
    pub info_hash: crate::InfoHash,
    /// The identity the sending peer claims.
    pub peer_id: crate::PeerId,
}

/// The mathematical model of a handshake.
pub struct HandshakeView {
    pub flags: u64,
    pub info_hash: Seq<u8>,
    pub peer_id: Seq<u8>,
}

impl View for Handshake {
    type V = HandshakeView;

    open spec fn view(&self) -> HandshakeView {
        HandshakeView { flags: self.flags, info_hash: self.info_hash@, peer_id: self.peer_id@ }
    }
}

/// The exact 68 bytes of a handshake: the literal 19, the protocol name, the
/// big-endian flags, the peer identity, the content identity.
pub open spec fn spec_handshake_encode(h: HandshakeView) -> Seq<u8> {
    seq![19u8] + protocol_name() + u64_be_bytes(h.flags) + h.peer_id + h.info_hash
}

/// Whether a 68-byte buffer opens with the expected length byte and protocol
/// name; nothing after the name is validated.
pub open spec fn handshake_name_ok(buf: Seq<u8>) -> bool
    recommends
        buf.len() == 68,
{
    buf[0] == 19 && buf.subrange(1, 20) == protocol_name()
}

/// Append a 20-byte identifier to `buf`.
fn push_id(buf: &mut Vec<u8>, id: &[u8; 20])
    ensures
        final(buf)@ == old(buf)@ + id@,
{
    let mut i: usize = 0;
    while i < 20
        invariant
            i <= 20,
            buf@ == old(buf)@ + id@.subrange(0, i as int),
        decreases 20 - i,
    {
        buf.push(id[i]);
        i = i + 1;
        assert(buf@ =~= old(buf)@ + id@.subrange(0, i as int));
    }
    assert(buf@ =~= old(buf)@ + id@);
}

/// Copy the 20-byte identifier at offset `at` out of `buf`.
fn read_id(buf: &Vec<u8>, at: usize) -> (r: [u8; 20])
    requires
        at + 20 <= buf@.len(),
    ensures
        r@ == buf@.subrange(at as int, at + 20),
{
    let n: usize = buf.len();
    let mut r: [u8; 20] = [0; 20];
    let mut i: usize = 0;
    while i < 20
        invariant
            at + 20 <= n == buf@.len(),
            i <= 20,
            forall|j: int| 0 <= j < i ==> r@[j] == buf@[at + j],
        decreases 20 - i,
    {
        r[i] = buf[at + i];
        i = i + 1;
    }
    assert(r@ =~= buf@.subrange(at as int, at + 20));
    r
}

impl Handshake {
    /// Serialize this handshake into its exact 68-byte form.
    pub fn serialize(&self) -> (r: Vec<u8>)
        ensures
            r@ == spec_handshake_encode(self@),
            r@.len() == 68,
            r@[0] == 19,
    {
        let mut buf: Vec<u8> = Vec::new();
        buf.push(19);
        let name = protocol_name_bytes();
        push_bytes(&mut buf, &name);
        push_u64_be(&mut buf, self.flags);
        push_id(&mut buf, &self.peer_id);
        push_id(&mut buf, &self.info_hash);
        assert(buf@ =~= spec_handshake_encode(self@));
        buf
    }

    /// Decode a handshake from exactly 68 bytes.
    ///
    /// Only the leading length byte and the protocol name are validated; the
    /// flags and the two identities are accepted as they stand, so bits this
    /// implementation does not know survive unchanged.
    pub fn decode(buf: &Vec<u8>) -> (r: Result<Handshake, CodecError>)
        requires
            buf@.len() == 68,
        ensures
            handshake_name_ok(buf@) ==> (r matches Ok(h) && h@.flags == u64_from_be(
                buf@.subrange(20, 28),
            ) && h@.peer_id == buf@.subrange(28, 48) && h@.info_hash == buf@.subrange(48, 68)),
            !handshake_name_ok(buf@) ==> r == Err::<Handshake, CodecError>(
                CodecError::ProtocolMismatch,
            ),
    {
        if buf[0] != 19 {
            return Err(CodecError::ProtocolMismatch);
        }
        let name = protocol_name_bytes();
        let mut i: usize = 0;
        while i < 19
            invariant
                buf@.len() == 68,
                i <= 19,
                name@ == protocol_name(),
                forall|j: int| 0 <= j < i ==> buf@[1 + j] == protocol_name()[j],
            decreases 19 - i,
        {
            if buf[1 + i] != name[i] {
                proof {
                    assert(buf@.subrange(1, 20)[i as int] != protocol_name()[i as int]);
                }
                return Err(CodecError::ProtocolMismatch);
            }
            i = i + 1;
        }
        proof {
            assert(buf@.subrange(1, 20) =~= protocol_name());
        }
        let flags = read_u64_be(buf, 20);
        let peer_id = read_id(buf, 28);
        let info_hash = read_id(buf, 48);
        Ok(Handshake { flags, info_hash, peer_id })
    }
}

/// Decoding the encoding of any handshake recovers it exactly: the name
/// check passes, and the flags — unknown bits included — and both identities
/// come back unchanged.
pub proof fn lemma_handshake_round_trip(h: HandshakeView)
    requires
        h.peer_id.len() == 20,
        h.info_hash.len() == 20,
    ensures
        spec_handshake_encode(h).len() == 68,
        spec_handshake_encode(h)[0] == 19,
        handshake_name_ok(spec_handshake_encode(h)),
        u64_from_be(spec_handshake_encode(h).subrange(20, 28)) == h.flags,
        spec_handshake_encode(h).subrange(28, 48) == h.peer_id,
        spec_handshake_encode(h).subrange(48, 68) == h.info_hash,
{
    let buf = spec_handshake_encode(h);
    assert(buf.subrange(1, 20) =~= protocol_name());
    assert(buf.subrange(20, 28) =~= u64_be_bytes(h.flags));
    lemma_u64_be_round_trip(h.flags);
    assert(buf.subrange(28, 48) =~= h.peer_id);
    assert(buf.subrange(48, 68) =~= h.info_hash);
}

/// Round-trip, with the stream in view: decoding a buffer that opens with the
/// encoding of any message — whatever bytes follow it — yields exactly that
/// message, consumes exactly its frame, and leaves the following bytes as the
/// remainder.
pub proof fn lemma_decode_encode(m: MessageView, rest: Seq<u8>, max_frame: u32)
    requires
        msg_wf(m),
        payload_len(m) <= max_frame,
    ensures
        spec_decode(spec_encode(m) + rest, max_frame) == SpecDecoded::Frame(
            m,
            4 + payload_len(m),
        ),
        (spec_encode(m) + rest).skip(4 + payload_len(m)) == rest,
{
    lemma_body_len(m);
    let buf = spec_encode(m) + rest;
    let l = payload_len(m);
    assert(buf.subrange(0, 4) =~= u32_be_bytes(l as u32));
    lemma_u32_be_round_trip(l as u32);
    assert(u32_from_be(buf.subrange(0, 4)) == l as u32);
    assert(buf.skip(4 + l) =~= rest);
    match m {
        MessageView::KeepAlive => {},
        MessageView::Choke => {
            assert(buf[4] == spec_body(m)[0]);
        },
        MessageView::Unchoke => {
            assert(buf[4] == spec_body(m)[0]);
        },
        MessageView::Interested => {
            assert(buf[4] == spec_body(m)[0]);
        },
        MessageView::Uninterested => {
            assert(buf[4] == spec_body(m)[0]);
        },
        MessageView::Have(index) => {
            assert(buf[4] == spec_body(m)[0]);
            assert(buf.subrange(5, 9) =~= u32_be_bytes(index));
            lemma_u32_be_round_trip(index);
        },
        MessageView::Bitfield(bits) => {
            assert(buf[4] == spec_body(m)[0]);
            assert(buf.subrange(5, 4 + l) =~= bits);
        },
        MessageView::Request { index, offset, length } => {
            assert(buf[4] == spec_body(m)[0]);
            assert(buf.subrange(5, 9) =~= u32_be_bytes(index));
            assert(buf.subrange(9, 13) =~= u32_be_bytes(offset));
            assert(buf.subrange(13, 17) =~= u32_be_bytes(length));
            lemma_u32_be_round_trip(index);
            lemma_u32_be_round_trip(offset);
            lemma_u32_be_round_trip(length);
        },
        MessageView::Cancel { index, offset, length } => {
            assert(buf[4] == spec_body(m)[0]);
            assert(buf.subrange(5, 9) =~= u32_be_bytes(index));
            assert(buf.subrange(9, 13) =~= u32_be_bytes(offset));
            assert(buf.subrange(13, 17) =~= u32_be_bytes(length));
            lemma_u32_be_round_trip(index);
            lemma_u32_be_round_trip(offset);
            lemma_u32_be_round_trip(length);
        },
        MessageView::Block { index, offset, data } => {
            assert(buf[4] == spec_body(m)[0]);
            assert(buf.subrange(5, 9) =~= u32_be_bytes(index));
            assert(buf.subrange(9, 13) =~= u32_be_bytes(offset));
            assert(buf.subrange(13, 4 + l) =~= data);
            lemma_u32_be_round_trip(index);
            lemma_u32_be_round_trip(offset);
        },
    }
}

/// Round-trip: decoding the exact encoding of any message yields that
/// message back, and consumes the whole buffer.
pub proof fn lemma_round_trip(m: MessageView, max_frame: u32)
    requires
        msg_wf(m),
        payload_len(m) <= max_frame,
    ensures
        spec_decode(spec_encode(m), max_frame) == SpecDecoded::Frame(
            m,
            spec_encode(m).len() as int,
        ),
{
    lemma_body_len(m);
    lemma_decode_encode(m, Seq::empty(), max_frame);
    assert(spec_encode(m) + Seq::<u8>::empty() =~= spec_encode(m));
}

/// Length-prefix correctness: every encoded frame's total length is 4 plus
/// the big-endian value of its first four bytes.
pub proof fn lemma_length_prefix(m: MessageView)
    requires
        msg_wf(m),
    ensures
        spec_encode(m).len() == 4 + u32_from_be(spec_encode(m).subrange(0, 4)),
{
    lemma_body_len(m);
    assert(spec_encode(m).subrange(0, 4) =~= u32_be_bytes(payload_len(m) as u32));
    lemma_u32_be_round_trip(payload_len(m) as u32);
}

/// A strict prefix of an encoded frame never yields a message or an error:
/// decode reports it incomplete, so a framer waits instead of misreading a
/// frame split across transport reads.
pub proof fn lemma_prefix_incomplete(m: MessageView, k: int, max_frame: u32)
    requires
        msg_wf(m),
        payload_len(m) <= max_frame,
        0 <= k < spec_encode(m).len(),
    ensures
        spec_decode(spec_encode(m).take(k), max_frame) is Incomplete,
{
    lemma_body_len(m);
    let p = spec_encode(m).take(k);
    if k >= 4 {
        assert(p.subrange(0, 4) =~= u32_be_bytes(payload_len(m) as u32));
        lemma_u32_be_round_trip(payload_len(m) as u32);
    }
}

/// A declared length above the configured maximum is rejected as soon as the
/// 4-byte prefix is present, however few of the frame's remaining bytes have
/// arrived: nothing past the prefix is read, and nothing is allocated for the
/// claimed size.
pub proof fn lemma_too_large_rejected(buf: Seq<u8>, max_frame: u32)
    requires
        buf.len() >= 4,
        u32_from_be(buf.subrange(0, 4)) > max_frame,
    ensures
        spec_decode(buf, max_frame) == SpecDecoded::TooLarge,
{
}

/// An unrecognized tag byte makes the frame malformed, whatever length it
/// declares.
pub proof fn lemma_unknown_tag_rejected(buf: Seq<u8>, max_frame: u32)
    requires
        buf.len() >= 4,
        1 <= u32_from_be(buf.subrange(0, 4)) <= max_frame,
        4 + u32_from_be(buf.subrange(0, 4)) <= buf.len(),
        buf[4] > 8,
    ensures
        spec_decode(buf, max_frame) == SpecDecoded::Malformed,
{
}

/// A frame decoded from a buffer occupies between 4 bytes and the whole
/// buffer: exactly 4 plus its declared length.
pub proof fn lemma_decode_frame_bounds(buf: Seq<u8>, max_frame: u32)
    requires
        spec_decode(buf, max_frame) is Frame,
    ensures
        spec_decode(buf, max_frame) matches SpecDecoded::Frame(m, n) ==> 4 <= n <= buf.len()
            && n == 4 + u32_from_be(buf.subrange(0, 4)),
{
}

/// Appending bytes to a buffer that already opens with a complete frame
/// changes nothing about what decodes from its front.
pub proof fn lemma_decode_extend(buf: Seq<u8>, more: Seq<u8>, max_frame: u32)
    requires
        spec_decode(buf, max_frame) is Frame,
    ensures
        spec_decode(buf + more, max_frame) == spec_decode(buf, max_frame),
{
    let b2 = buf + more;
    assert(b2.subrange(0, 4) =~= buf.subrange(0, 4));
    let l = u32_from_be(buf.subrange(0, 4)) as int;
    if l > 0 {
        assert(buf.len() >= 4 + l);
        assert(b2[4] == buf[4]);
        assert(b2.subrange(5, 4 + l) =~= buf.subrange(5, 4 + l));
        if l >= 5 {
            assert(b2.subrange(5, 9) =~= buf.subrange(5, 9));
        }
        if l >= 9 {
            assert(b2.subrange(9, 13) =~= buf.subrange(9, 13));
            assert(b2.subrange(13, 4 + l) =~= buf.subrange(13, 4 + l));
        }
        if l >= 13 {
            assert(b2.subrange(13, 17) =~= buf.subrange(13, 17));
        }
    }
}

/// The four independent flags that gate data flow on one connection.
///
/// They mutate only in response to the four control messages — one flag per
/// message, the other three untouched — and start fully closed: both sides
/// choked, neither side interested.
#[derive(Debug)]
pub struct Connection {
    /// Whether we refuse to serve the peer's block requests.
    pub us_choking: ChokeFlag,
    /// Whether we want to request blocks from the peer.
    pub us_interested: InterestFlag,
    /// Whether the peer refuses to serve our block requests.
    pub them_choking: ChokeFlag,
    /// Whether the peer wants to request blocks from us.
    pub them_interested: InterestFlag,
}

impl Default for Connection {
    /// A freshly opened connection is fully closed for data flow.
    fn default() -> (r: Self)
        ensures
            r.us_choking == ChokeFlag::Choked,
            r.us_interested == InterestFlag::NotInterested,
            r.them_choking == ChokeFlag::Choked,
            r.them_interested == InterestFlag::NotInterested,
    {
        Connection {
            us_choking: ChokeFlag::Choked,
            us_interested: InterestFlag::NotInterested,
            them_choking: ChokeFlag::Choked,
            them_interested: InterestFlag::NotInterested,
        }
    }
}

impl Connection {
    /// Record a message received from the peer.
    ///
    /// Each of the four control messages flips exactly one of the two
    /// `them_*` flags; every other message leaves the state untouched, and no
    /// message is ever rejected — re-choking an already choked peer is a
    /// legal no-op.
    pub fn on_receive(&mut self, m: &Message)
        ensures
            final(self).them_choking == (if m is Choke {
                ChokeFlag::Choked
            } else if m is Unchoke {
                ChokeFlag::Unchoked
            } else {
                old(self).them_choking
            }),
            final(self).them_interested == (if m is Interested {
                InterestFlag::Interested
            } else if m is Uninterested {
                InterestFlag::NotInterested
            } else {
                old(self).them_interested
            }),
            final(self).us_choking == old(self).us_choking,
            final(self).us_interested == old(self).us_interested,
    {
        match m {
            Message::Choke => self.them_choking = ChokeFlag::Choked,
            Message::Unchoke => self.them_choking = ChokeFlag::Unchoked,
            Message::Interested => self.them_interested = InterestFlag::Interested,
            Message::Uninterested => self.them_interested = InterestFlag::NotInterested,
            _ => (),
        }
    }

    /// Record a message we sent to the peer.
    ///
    /// The mirror image of [`Connection::on_receive`]: each control message
    /// flips exactly one of the two `us_*` flags, and everything else is a
    /// no-op.
    pub fn on_send(&mut self, m: &Message)
        ensures
            final(self).us_choking == (if m is Choke {
                ChokeFlag::Choked
            } else if m is Unchoke {
                ChokeFlag::Unchoked
            } else {
                old(self).us_choking
            }),
            final(self).us_interested == (if m is Interested {
                InterestFlag::Interested
            } else if m is Uninterested {
                InterestFlag::NotInterested
            } else {
                old(self).us_interested
            }),
            final(self).them_choking == old(self).them_choking,
            final(self).them_interested == old(self).them_interested,
    {
        match m {
            Message::Choke => self.us_choking = ChokeFlag::Choked,
            Message::Unchoke => self.us_choking = ChokeFlag::Unchoked,
            Message::Interested => self.us_interested = InterestFlag::Interested,
            Message::Uninterested => self.us_interested = InterestFlag::NotInterested,
            _ => (),
        }
    }
}

} // verus!
