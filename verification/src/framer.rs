//! The stream framer: bridges an unbounded, arbitrarily chunked byte stream
//! to a sequence of complete messages.
//!
//! A transport such as TCP offers no message boundaries, so several frames
//! may arrive in one read and one frame may arrive split across many. The
//! framer accumulates every inbound chunk and repeatedly decodes from the
//! front of its buffer: this is the one place messages are split apart and
//! reassembled, and the lemmas at the end of this file state that the result
//! never depends on how the stream was chunked.

use crate::pwp::{
    msg_wf, payload_len, spec_decode, spec_encode, CodecError, Decoded, Message, MessageView,
    SpecDecoded,
};
use crate::wire::copy_range;
use vstd::prelude::*;

verus! {

/// Per-connection accumulation buffer and frame-size limit.
///
/// Each connection owns one framer; nothing is shared, so independent
/// connections need no locking around their codecs.
#[derive(Debug)]
pub struct StreamFramer {
    buffer: Vec<u8>,
    max_frame: u32,
}

impl StreamFramer {
    /// The bytes received but not yet decoded.
    pub closed spec fn buffered(&self) -> Seq<u8> {
        self.buffer@
    }

    /// The configured bound on a frame's declared length.
    pub closed spec fn max(&self) -> u32 {
        self.max_frame
    }

    /// A fresh framer with an empty buffer.
    pub fn new(max_frame: u32) -> (r: Self)
        ensures
            r.buffered() == Seq::<u8>::empty(),
            r.max() == max_frame,
    {
        StreamFramer { buffer: Vec::new(), max_frame }
    }

    /// Append one inbound chunk to the accumulation buffer.
    pub fn feed(&mut self, chunk: &Vec<u8>)
        ensures
            final(self).buffered() == old(self).buffered() + chunk@,
            final(self).max() == old(self).max(),
    {
        let mut i: usize = 0;
        let n: usize = chunk.len();
        while i < n
            invariant
                i <= n == chunk@.len(),
                self.buffer@ == old(self).buffer@ + chunk@.subrange(0, i as int),
                self.max_frame == old(self).max_frame,
            decreases n - i,
        {
            self.buffer.push(chunk[i]);
            i = i + 1;
            assert(self.buffer@ =~= old(self).buffer@ + chunk@.subrange(0, i as int));
        }
        assert(self.buffer@ =~= old(self).buffer@ + chunk@);
    }

    /// Decode one message from the front of the buffer, if a whole frame is
    /// there.
    ///
    /// `Ok(Some(m))` removes exactly the consumed frame from the front and
    /// keeps the remainder for the next attempt; `Ok(None)` means more bytes
    /// are needed and consumes nothing; an error is fatal for this stream.
    pub fn next_message(&mut self) -> (r: Result<Option<Message>, CodecError>)
        ensures
            final(self).max() == old(self).max(),
            match spec_decode(old(self).buffered(), old(self).max()) {
                SpecDecoded::Incomplete => r == Ok::<Option<Message>, CodecError>(None)
                    && final(self).buffered() == old(self).buffered(),
                SpecDecoded::Frame(mv, n) => r matches Ok(Some(m)) && m@ == mv
                    && final(self).buffered() == old(self).buffered().skip(n),
                SpecDecoded::Malformed => r == Err::<Option<Message>, CodecError>(
                    CodecError::MalformedMessage,
                ) && final(self).buffered() == old(self).buffered(),
                SpecDecoded::TooLarge => r == Err::<Option<Message>, CodecError>(
                    CodecError::FrameTooLarge,
                ) && final(self).buffered() == old(self).buffered(),
            },
    {
        match Message::decode(&self.buffer, self.max_frame)? {
            Decoded::Incomplete => Ok(None),
            Decoded::Frame(m, consumed) => {
                self.buffer = copy_range(&self.buffer, consumed, self.buffer.len());
                assert(self.buffer@ =~= old(self).buffer@.skip(
                    spec_decode(old(self).buffered(), old(self).max())->Frame_1,
                ));
                Ok(Some(m))
            },
        }
    }

    /// To be called when the transport signals end-of-stream: a clean end has
    /// an empty buffer, while leftover bytes mean the stream broke off in the
    /// middle of a frame.
    pub fn finish(&self) -> (r: Result<(), CodecError>)
        ensures
            r is Ok <==> self.buffered().len() == 0,
            r is Err ==> r == Err::<(), CodecError>(CodecError::MalformedMessage),
    {
        if self.buffer.len() == 0 {
            Ok(())
        } else {
            Err(CodecError::MalformedMessage)
        }
    }
}

/// The concatenated wire encodings of a sequence of messages.
pub open spec fn concat_encodings(ms: Seq<MessageView>) -> Seq<u8>
    decreases ms.len(),
{
    if ms.len() == 0 {
        Seq::empty()
    } else {
        spec_encode(ms[0]) + concat_encodings(ms.skip(1))
    }
}

/// Every message of `ms` is encodable and fits the frame-size bound.
pub open spec fn all_sendable(ms: Seq<MessageView>, max_frame: u32) -> bool {
    forall|i: int| 0 <= i < ms.len() ==> msg_wf(#[trigger] ms[i]) && payload_len(ms[i]) <= max_frame
}

/// The messages obtained by decoding frames off the front of `buf` until the
/// bytes run out, a frame is incomplete, or decoding fails.
pub open spec fn spec_drain(buf: Seq<u8>, max_frame: u32) -> Seq<MessageView>
    decreases buf.len(),
{
    match spec_decode(buf, max_frame) {
        SpecDecoded::Frame(m, n) => if 1 <= n <= buf.len() {
            seq![m] + spec_drain(buf.skip(n), max_frame)
        } else {
            seq![m]
        },
        _ => Seq::empty(),
    }
}

/// The bytes left in the buffer once `spec_drain` has stopped.
pub open spec fn spec_leftover(buf: Seq<u8>, max_frame: u32) -> Seq<u8>
    decreases buf.len(),
{
    match spec_decode(buf, max_frame) {
        SpecDecoded::Frame(m, n) => if 1 <= n <= buf.len() {
            spec_leftover(buf.skip(n), max_frame)
        } else {
            buf
        },
        _ => buf,
    }
}

/// Streaming reassembly, all at once: draining the concatenated encodings of
/// any messages yields exactly those messages, in order, with nothing left
/// over.
pub proof fn lemma_stream_reassembly(ms: Seq<MessageView>, max_frame: u32)
    requires
        all_sendable(ms, max_frame),
    ensures
        spec_drain(concat_encodings(ms), max_frame) == ms,
        spec_leftover(concat_encodings(ms), max_frame) == Seq::<u8>::empty(),
    decreases ms.len(),
{
    let buf = concat_encodings(ms);
    if ms.len() == 0 {
        assert(buf.len() < 4);
        assert(spec_drain(buf, max_frame) =~= ms);
        assert(spec_leftover(buf, max_frame) =~= Seq::<u8>::empty());
    } else {
        let m = ms[0];
        let rest = concat_encodings(ms.skip(1));
        crate::pwp::lemma_body_len(m);
        crate::pwp::lemma_decode_encode(m, rest, max_frame);
        let n = 4 + payload_len(m);
        assert(buf.skip(n) == rest);
        lemma_stream_reassembly(ms.skip(1), max_frame);
        assert(spec_drain(buf, max_frame) =~= ms);
    }
}

/// Streaming split, in any chunking: as long as draining has stopped only
/// for want of bytes (never on an error), feeding more bytes later yields
/// exactly the messages a single drain of the whole stream would have
/// yielded — first the ones already extracted, then those of the leftover
/// joined with the new bytes. Applied once per inbound chunk, this says the
/// framer's output does not depend on where the stream was cut.
pub proof fn lemma_drain_append(buf: Seq<u8>, more: Seq<u8>, max_frame: u32)
    requires
        spec_decode(spec_leftover(buf, max_frame), max_frame) is Incomplete,
    ensures
        spec_drain(buf + more, max_frame) == spec_drain(buf, max_frame) + spec_drain(
            spec_leftover(buf, max_frame) + more,
            max_frame,
        ),
        spec_leftover(buf + more, max_frame) == spec_leftover(
            spec_leftover(buf, max_frame) + more,
            max_frame,
        ),
    decreases buf.len(),
{
    match spec_decode(buf, max_frame) {
        SpecDecoded::Frame(m, n) => {
            crate::pwp::lemma_decode_frame_bounds(buf, max_frame);
            crate::pwp::lemma_decode_extend(buf, more, max_frame);
            assert((buf + more).skip(n) =~= buf.skip(n) + more);
            lemma_drain_append(buf.skip(n), more, max_frame);
            assert(spec_drain(buf + more, max_frame) =~= spec_drain(buf, max_frame)
                + spec_drain(spec_leftover(buf, max_frame) + more, max_frame));
        },
        SpecDecoded::Incomplete => {
            assert(spec_leftover(buf, max_frame) == buf);
            assert(spec_drain(buf + more, max_frame) =~= spec_drain(buf, max_frame)
                + spec_drain(spec_leftover(buf, max_frame) + more, max_frame));
        },
        SpecDecoded::Malformed => {
            assert(spec_decode(spec_leftover(buf, max_frame), max_frame) is Malformed);
        },
        SpecDecoded::TooLarge => {
            assert(spec_decode(spec_leftover(buf, max_frame), max_frame) is TooLarge);
        },
    }
}

} // verus!
