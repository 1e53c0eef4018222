use peer_wire::pwp::{CodecError, Decoded, Handshake, Message, DEFAULT_MAX_FRAME};

/// Encode `msg`, decode the result, and check that exactly the original
/// comes back (via its unique wire image) and that the whole frame was
/// consumed.
fn assert_round_trip(msg: Message, max_frame: u32) {
    let encoded = msg.serialize();
    let decoded = Message::decode(&encoded, max_frame).expect("decode failed");
    match decoded {
        Decoded::Frame(back, consumed) => {
            assert_eq!(consumed, encoded.len());
            assert_eq!(back.serialize(), encoded);
        }
        Decoded::Incomplete => panic!("complete frame reported incomplete"),
    }
}

#[test]
fn round_trip_control_messages() {
    assert_round_trip(Message::Choke, DEFAULT_MAX_FRAME);
    assert_round_trip(Message::Unchoke, DEFAULT_MAX_FRAME);
    assert_round_trip(Message::Interested, DEFAULT_MAX_FRAME);
    assert_round_trip(Message::Uninterested, DEFAULT_MAX_FRAME);
}

#[test]
fn round_trip_have_boundaries() {
    for index in [0u32, 1, 23, 0xFFFF_FFFF] {
        let encoded = Message::Have(index).serialize();
        match Message::decode(&encoded, DEFAULT_MAX_FRAME).unwrap() {
            Decoded::Frame(Message::Have(back), consumed) => {
                assert_eq!(back, index);
                assert_eq!(consumed, 9);
            }
            other => panic!("expected a Have frame, got {:?}", other),
        }
    }
}

#[test]
fn round_trip_request_boundaries() {
    for v in [0u32, 1, 0xFFFF_FFFF] {
        let encoded = Message::Request { index: v, offset: v, length: v }.serialize();
        match Message::decode(&encoded, DEFAULT_MAX_FRAME).unwrap() {
            Decoded::Frame(Message::Request { index, offset, length }, consumed) => {
                assert_eq!((index, offset, length), (v, v, v));
                assert_eq!(consumed, 17);
            }
            other => panic!("expected a Request frame, got {:?}", other),
        }
    }
}

#[test]
fn round_trip_cancel_boundaries() {
    for v in [0u32, 0xFFFF_FFFF] {
        let encoded = Message::Cancel { index: v, offset: v, length: v }.serialize();
        match Message::decode(&encoded, DEFAULT_MAX_FRAME).unwrap() {
            Decoded::Frame(Message::Cancel { index, offset, length }, consumed) => {
                assert_eq!((index, offset, length), (v, v, v));
                assert_eq!(consumed, 17);
            }
            other => panic!("expected a Cancel frame, got {:?}", other),
        }
    }
}

#[test]
fn round_trip_bitfield_boundaries() {
    // Empty, small, and as large as the configured frame size admits.
    let max_frame: u32 = 64;
    for bits in [vec![], vec![0xA5], vec![0xFF; 63]] {
        let encoded = Message::Bitfield(bits.clone()).serialize();
        match Message::decode(&encoded, max_frame).unwrap() {
            Decoded::Frame(Message::Bitfield(back), consumed) => {
                assert_eq!(back, bits);
                assert_eq!(consumed, 5 + bits.len());
            }
            other => panic!("expected a Bitfield frame, got {:?}", other),
        }
    }
}

#[test]
fn round_trip_block_boundaries() {
    let max_frame: u32 = 64;
    for data in [vec![], vec![1, 2, 3], vec![0x55; 55]] {
        let encoded = Message::Block { index: 7, offset: 0xFFFF_FFFF, data: data.clone() }
            .serialize();
        match Message::decode(&encoded, max_frame).unwrap() {
            Decoded::Frame(Message::Block { index, offset, data: back }, consumed) => {
                assert_eq!(index, 7);
                assert_eq!(offset, 0xFFFF_FFFF);
                assert_eq!(back, data);
                assert_eq!(consumed, 13 + data.len());
            }
            other => panic!("expected a Block frame, got {:?}", other),
        }
    }
}

#[test]
fn keepalive_round_trip() {
    let encoded = Message::KeepAlive.serialize();
    assert_eq!(encoded, vec![0, 0, 0, 0]);
    match Message::decode(&vec![0, 0, 0, 0], DEFAULT_MAX_FRAME).unwrap() {
        Decoded::Frame(Message::KeepAlive, consumed) => assert_eq!(consumed, 4),
        other => panic!("expected a KeepAlive frame, got {:?}", other),
    }
}

#[test]
fn incomplete_header() {
    // Fewer than 4 bytes: no length prefix yet.
    for n in 0..4 {
        let buf = vec![0u8; n];
        match Message::decode(&buf, DEFAULT_MAX_FRAME).unwrap() {
            Decoded::Incomplete => {}
            other => panic!("expected incomplete, got {:?}", other),
        }
    }
}

#[test]
fn incomplete_body() {
    // Declared length 5 (a Have frame) but only two payload bytes present.
    let buf = vec![0, 0, 0, 5, 4, 0];
    match Message::decode(&buf, DEFAULT_MAX_FRAME).unwrap() {
        Decoded::Incomplete => {}
        other => panic!("expected incomplete, got {:?}", other),
    }
}

#[test]
fn reject_frame_too_large() {
    // A hostile length prefix is rejected from the header alone, before the
    // rest of the frame is even awaited.
    let buf = vec![0xFF, 0xFF, 0xFF, 0xFF];
    assert_eq!(
        Message::decode(&buf, DEFAULT_MAX_FRAME).unwrap_err(),
        CodecError::FrameTooLarge
    );
    let one_above = (DEFAULT_MAX_FRAME + 1).to_be_bytes().to_vec();
    assert_eq!(
        Message::decode(&one_above, DEFAULT_MAX_FRAME).unwrap_err(),
        CodecError::FrameTooLarge
    );
}

#[test]
fn reject_unknown_tag() {
    for len in [1u8, 9, 100] {
        let mut buf = vec![0, 0, 0, len, 255];
        buf.resize(4 + len as usize, 0);
        assert_eq!(
            Message::decode(&buf, DEFAULT_MAX_FRAME).unwrap_err(),
            CodecError::MalformedMessage
        );
    }
}

#[test]
fn reject_request_wrong_length() {
    for len in [12u8, 14] {
        let mut buf = vec![0, 0, 0, len, 6];
        buf.resize(4 + len as usize, 0);
        assert_eq!(
            Message::decode(&buf, DEFAULT_MAX_FRAME).unwrap_err(),
            CodecError::MalformedMessage
        );
    }
}

#[test]
fn reject_short_block() {
    // A Block must carry at least its 9 fixed payload bytes.
    let buf = vec![0, 0, 0, 8, 7, 0, 0, 0, 0, 0, 0, 0];
    assert_eq!(
        Message::decode(&buf, DEFAULT_MAX_FRAME).unwrap_err(),
        CodecError::MalformedMessage
    );
}

#[test]
fn reject_fixed_arity_with_payload() {
    // Choke with a declared length of 2: the tag implies exactly 1.
    let buf = vec![0, 0, 0, 2, 0, 0];
    assert_eq!(
        Message::decode(&buf, DEFAULT_MAX_FRAME).unwrap_err(),
        CodecError::MalformedMessage
    );
}

#[test]
fn handshake_round_trip() {
    // Flag bits this implementation does not know must survive unchanged.
    let unknown_bits: u64 = 0x8040_2010_0804_0201;
    let handshake = Handshake {
        flags: unknown_bits,
        peer_id: *b"Landslide Experiment",
        info_hash: *b"12345678901234567890",
    };
    let encoded = handshake.serialize();
    assert_eq!(encoded.len(), 68);
    assert_eq!(encoded[0], 0x13);
    assert_eq!(&encoded[1..20], &b"BitTorrent protocol"[..]);

    let back = Handshake::decode(&encoded).expect("own handshake must decode");
    assert_eq!(back.flags, unknown_bits);
    assert_eq!(back.peer_id, *b"Landslide Experiment");
    assert_eq!(back.info_hash, *b"12345678901234567890");
}

#[test]
fn handshake_rejects_wrong_name() {
    let handshake = Handshake {
        flags: 0,
        peer_id: *b"Landslide Experiment",
        info_hash: *b"12345678901234567890",
    };
    let mut encoded = handshake.serialize();
    encoded[5] ^= 0x20;
    assert_eq!(
        Handshake::decode(&encoded).unwrap_err(),
        CodecError::ProtocolMismatch
    );
}

#[test]
fn handshake_rejects_wrong_length_byte() {
    let handshake = Handshake {
        flags: 0,
        peer_id: *b"Landslide Experiment",
        info_hash: *b"12345678901234567890",
    };
    let mut encoded = handshake.serialize();
    encoded[0] = 20;
    assert_eq!(
        Handshake::decode(&encoded).unwrap_err(),
        CodecError::ProtocolMismatch
    );
}
