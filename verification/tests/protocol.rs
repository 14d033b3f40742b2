use frostwall::protocol::{
    decode, encode, ManifestEntry, Message, ProtocolError, DECODE_LIMIT, WIRE_VERSION,
};

#[test]
fn manifest_round_trips() {
    let m = Message::Manifest(vec![
        ManifestEntry { rel_path: "a.txt".into(), size: 10 },
        ManifestEntry { rel_path: "dir/b.bin".into(), size: 4096 },
    ]);
    assert_eq!(decode(&encode(&m).unwrap()).unwrap(), m);
}

#[test]
fn chunk_round_trips_with_large_payload() {
    let m = Message::Chunk(vec![0x77u8; 300_000]);
    assert_eq!(decode(&encode(&m).unwrap()).unwrap(), m);
}

#[test]
fn file_end_and_done_round_trip() {
    let hash = [0xAAu8; 32];
    assert_eq!(decode(&encode(&Message::FileEnd(hash)).unwrap()).unwrap(), Message::FileEnd(hash));
    assert_eq!(decode(&encode(&Message::Done).unwrap()).unwrap(), Message::Done);
}

#[test]
fn accept_reject_and_cancel_round_trip() {
    assert_eq!(decode(&encode(&Message::Accept).unwrap()).unwrap(), Message::Accept);
    assert_eq!(decode(&encode(&Message::Reject).unwrap()).unwrap(), Message::Reject);
    assert_eq!(decode(&encode(&Message::Cancel).unwrap()).unwrap(), Message::Cancel);
}

#[test]
fn encrypted_round_trips() {
    let m = Message::Encrypted(vec![1, 2, 3]);
    assert_eq!(decode(&encode(&m).unwrap()).unwrap(), m);
}

#[test]
fn decode_garbage_errors() {
    assert!(decode(&[0xFFu8; 8]).is_err());
}

#[test]
fn encode_prepends_version_byte() {
    let encoded = encode(&Message::Done).unwrap();
    assert_eq!(encoded[0], WIRE_VERSION);
}

#[test]
fn decode_rejects_unknown_version() {
    let mut bad = encode(&Message::Done).unwrap();
    bad[0] = 99;
    assert_eq!(decode(&bad), Err(ProtocolError::Version(99)));
}

#[test]
fn decode_rejects_short_frame() {
    assert_eq!(decode(&[WIRE_VERSION]), Err(ProtocolError::TooShort)); // version + no body
    assert_eq!(decode(&[]), Err(ProtocolError::TooShort));
}

#[test]
fn frames_have_the_documented_bytes() {
    assert_eq!(encode(&Message::Done).unwrap(), [1, 3]);
    assert_eq!(encode(&Message::Accept).unwrap(), [1, 4]);
    assert_eq!(encode(&Message::Reject).unwrap(), [1, 5]);
    assert_eq!(encode(&Message::Cancel).unwrap(), [1, 6]);
    assert_eq!(encode(&Message::Chunk(vec![9, 8])).unwrap(), [1, 1, 2, 9, 8]);
    assert_eq!(encode(&Message::Encrypted(vec![7])).unwrap(), [1, 7, 1, 7]);
    let mut end = vec![1, 2];
    end.extend_from_slice(&[5u8; 32]);
    assert_eq!(encode(&Message::FileEnd([5u8; 32])).unwrap(), end);
    let m = Message::Manifest(vec![ManifestEntry { rel_path: "é".into(), size: 70_000 }]);
    assert_eq!(
        encode(&m).unwrap(),
        [1, 0, 1, 2, 0xc3, 0xa9, 252, 0x70, 0x11, 0x01, 0x00]
    );
    let m = Message::Manifest(vec![ManifestEntry { rel_path: "a".into(), size: 300 }]);
    assert_eq!(encode(&m).unwrap(), [1, 0, 1, 1, b'a', 251, 0x2c, 0x01]);
    let m = Message::Manifest(vec![ManifestEntry { rel_path: "a".into(), size: 1 << 40 }]);
    assert_eq!(encode(&m).unwrap(), [1, 0, 1, 1, b'a', 253, 0, 0, 0, 0, 0, 1, 0, 0]);
}

#[test]
fn decode_takes_wide_integers_and_refuses_the_reserved_markers() {
    assert_eq!(decode(&[1, 251, 3, 0]), Ok(Message::Done));
    assert_eq!(decode(&[1, 253, 3, 0, 0, 0, 0, 0, 0, 0]), Ok(Message::Done));
    assert!(matches!(decode(&[1, 254, 3, 0]), Err(ProtocolError::Decode(_))));
    assert!(matches!(decode(&[1, 255]), Err(ProtocolError::Decode(_))));
    assert!(matches!(decode(&[1, 253, 3, 0, 0, 0, 1, 0, 0, 0]), Err(ProtocolError::Decode(_))));
}

#[test]
fn decode_refuses_what_is_not_exactly_one_message() {
    assert!(matches!(decode(&[1, 3, 0]), Err(ProtocolError::Decode(_)))); // trailing byte
    assert!(matches!(decode(&[1, 8]), Err(ProtocolError::Decode(_)))); // no such message
    assert!(matches!(decode(&[1, 1, 5, 0]), Err(ProtocolError::Decode(_)))); // truncated blob
    assert!(matches!(decode(&[1, 2, 0]), Err(ProtocolError::Decode(_)))); // short hash
    assert!(matches!(decode(&[1, 0, 1, 1, 0xff, 0]), Err(ProtocolError::Decode(_)))); // bad UTF-8
    assert!(matches!(decode(&[1, 0, 2, 1, b'a', 0]), Err(ProtocolError::Decode(_)))); // missing entry
}

#[test]
fn size_limit_holds_both_ways() {
    // one byte of tag, five of length
    let most = DECODE_LIMIT as usize - 6;
    let frame = encode(&Message::Chunk(vec![0u8; most])).unwrap();
    assert_eq!(decode(&frame).unwrap(), Message::Chunk(vec![0u8; most]));
    assert_eq!(encode(&Message::Chunk(vec![0u8; most + 1])), Err(ProtocolError::Encode));
    let mut long = frame.clone();
    long.push(0);
    let n = (most + 1) as u32;
    long[3..7].copy_from_slice(&n.to_le_bytes());
    assert!(matches!(decode(&long), Err(ProtocolError::Decode(_))));
}
