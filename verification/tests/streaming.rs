use peer_wire::framer::StreamFramer;
use peer_wire::pwp::{CodecError, Message, DEFAULT_MAX_FRAME};

/// The wire image of a mixed bag of messages, together with the images of
/// each frame so the extracted messages can be compared exactly.
fn sample_stream() -> (Vec<u8>, Vec<Vec<u8>>) {
    let messages = || {
        vec![
            Message::Choke,
            Message::KeepAlive,
            Message::Have(23),
            Message::Bitfield(vec![0xFF, 0x00, 0xAA]),
            Message::Request { index: 666, offset: 420, length: 16384 },
            Message::Block { index: 666, offset: 420, data: vec![4, 8, 15, 16, 23, 42] },
            Message::Cancel { index: 666, offset: 420, length: 16384 },
            Message::Unchoke,
            Message::Interested,
            Message::KeepAlive,
            Message::Uninterested,
        ]
    };
    let frames: Vec<Vec<u8>> = messages().into_iter().map(|m| m.serialize()).collect();
    let mut stream = Vec::new();
    for frame in &frames {
        stream.extend_from_slice(frame);
    }
    (stream, frames)
}

/// Drain every message the framer can currently produce, re-serializing each
/// so it can be compared against the frame it came from.
fn drain(framer: &mut StreamFramer, out: &mut Vec<Vec<u8>>) {
    while let Some(m) = framer.next_message().expect("stream is well-formed") {
        out.push(m.serialize());
    }
}

#[test]
fn framer_all_at_once() {
    let (stream, frames) = sample_stream();
    let mut framer = StreamFramer::new(DEFAULT_MAX_FRAME);
    let mut got = Vec::new();
    framer.feed(&stream);
    drain(&mut framer, &mut got);
    assert_eq!(got, frames);
    assert!(framer.finish().is_ok());
}

#[test]
fn framer_one_byte_at_a_time() {
    let (stream, frames) = sample_stream();
    let mut framer = StreamFramer::new(DEFAULT_MAX_FRAME);
    let mut got = Vec::new();
    for byte in stream {
        framer.feed(&vec![byte]);
        drain(&mut framer, &mut got);
    }
    assert_eq!(got, frames);
    assert!(framer.finish().is_ok());
}

#[test]
fn framer_odd_chunks() {
    let (stream, frames) = sample_stream();
    for chunk_size in [2usize, 3, 5, 7, 11, 13, 64] {
        let mut framer = StreamFramer::new(DEFAULT_MAX_FRAME);
        let mut got = Vec::new();
        for chunk in stream.chunks(chunk_size) {
            framer.feed(&chunk.to_vec());
            drain(&mut framer, &mut got);
        }
        assert_eq!(got, frames, "chunk size {}", chunk_size);
        assert!(framer.finish().is_ok());
    }
}

#[test]
fn framer_end_of_stream_mid_frame() {
    let mut framer = StreamFramer::new(DEFAULT_MAX_FRAME);
    framer.feed(&vec![0, 0, 0, 5, 4]);
    assert!(framer.next_message().unwrap().is_none());
    assert_eq!(framer.finish().unwrap_err(), CodecError::MalformedMessage);
}

#[test]
fn framer_malformed_frame_is_fatal() {
    let mut framer = StreamFramer::new(DEFAULT_MAX_FRAME);
    framer.feed(&vec![0, 0, 0, 1, 255]);
    assert_eq!(
        framer.next_message().unwrap_err(),
        CodecError::MalformedMessage
    );
}

#[test]
fn framer_rejects_hostile_length_from_header_alone() {
    let mut framer = StreamFramer::new(DEFAULT_MAX_FRAME);
    framer.feed(&vec![0xFF, 0xFF, 0xFF, 0xFF]);
    assert_eq!(framer.next_message().unwrap_err(), CodecError::FrameTooLarge);
}
