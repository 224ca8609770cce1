use bytes::BytesMut;
use peerwire::peer::{
    be_u32_bytes, decode_frame, encode_frame, read_be_u32, FrameError, Message, MessageFrame,
    MessageType, Piece, Request,
};

const KINDS: [MessageType; 9] = [
    MessageType::Choke,
    MessageType::Unchoke,
    MessageType::Interested,
    MessageType::NotInterested,
    MessageType::Have,
    MessageType::Bitfield,
    MessageType::Request,
    MessageType::Piece,
    MessageType::Cancel,
];

fn message(id: MessageType, payload: Vec<u8>) -> Message {
    Message { id, payload }
}

fn sample_payload(kind: MessageType) -> Vec<u8> {
    match kind {
        MessageType::Choke
        | MessageType::Unchoke
        | MessageType::Interested
        | MessageType::NotInterested => vec![],
        MessageType::Have => vec![0, 0, 0, 42],
        MessageType::Bitfield => vec![0b1010_0000, 0xff],
        MessageType::Request | MessageType::Cancel => vec![0, 0, 0, 1, 0, 0, 64, 0, 0, 0, 64, 0],
        MessageType::Piece => vec![0, 0, 0, 1, 0, 0, 64, 0, 9, 8, 7, 6, 5],
    }
}

#[test]
fn tags_are_zero_to_eight_in_order() {
    for (expected, kind) in KINDS.iter().enumerate() {
        assert_eq!(kind.tag(), expected as u8);
        assert_eq!(MessageType::from_tag(expected as u8), Some(*kind));
    }
    assert_eq!(MessageType::from_tag(9), None);
    assert_eq!(MessageType::from_tag(255), None);
}

#[test]
fn big_endian_helpers_read_and_write() {
    assert_eq!(be_u32_bytes(0x0102_0304), [1, 2, 3, 4]);
    assert_eq!(be_u32_bytes(0), [0, 0, 0, 0]);
    assert_eq!(be_u32_bytes(u32::MAX), [255, 255, 255, 255]);
    assert_eq!(be_u32_bytes(65536), [0, 1, 0, 0]);
    assert_eq!(read_be_u32(&[9, 1, 2, 3, 4, 9], 1), 0x0102_0304);
    assert_eq!(read_be_u32(&[255, 255, 255, 255], 0), u32::MAX);
    for value in [0u32, 1, 255, 256, 65535, 65536, 0x00ff_ff00, 0xdead_beef, u32::MAX] {
        assert_eq!(read_be_u32(&be_u32_bytes(value), 0), value);
        assert_eq!(be_u32_bytes(value), value.to_be_bytes());
    }
}

#[test]
fn encode_writes_big_endian_length_then_tag_then_payload() {
    let bytes = encode_frame(&message(MessageType::Have, vec![0, 0, 0, 7])).unwrap();
    assert_eq!(bytes, vec![0, 0, 0, 5, 4, 0, 0, 0, 7]);
    let bytes = encode_frame(&message(MessageType::Interested, vec![])).unwrap();
    assert_eq!(bytes, vec![0, 0, 0, 1, 2]);
    let long = encode_frame(&message(MessageType::Bitfield, vec![7; 256])).unwrap();
    assert_eq!(&long[..5], &[0, 0, 1, 1, 5]);
    assert_eq!(long.len(), 4 + 1 + 256);
}

#[test]
fn round_trip_every_variant_through_the_buffer() {
    for kind in KINDS {
        let sent = message(kind, sample_payload(kind));
        let mut buf = BytesMut::new();
        assert_eq!(MessageFrame.encode(sent.clone(), &mut buf), Ok(()));
        assert_eq!(buf.len(), 5 + sent.payload.len());
        let got = MessageFrame.decode(&mut buf);
        assert_eq!(got, Ok(Some(sent)));
        assert!(buf.is_empty());
    }
}

#[test]
fn round_trip_every_variant_on_plain_bytes() {
    for kind in KINDS {
        let sent = message(kind, sample_payload(kind));
        let bytes = encode_frame(&sent).unwrap();
        let step = decode_frame(&bytes);
        assert_eq!(step.consumed, bytes.len());
        assert_eq!(step.missing, 0);
        assert_eq!(step.result, Ok(Some(sent)));
    }
}

#[test]
fn round_trip_of_the_largest_frame() {
    let sent = message(MessageType::Piece, vec![0xab; 65535]);
    let mut buf = BytesMut::new();
    assert_eq!(MessageFrame.encode(sent.clone(), &mut buf), Ok(()));
    assert_eq!(&buf[..4], &[0, 1, 0, 0]);
    assert_eq!(MessageFrame.decode(&mut buf), Ok(Some(sent)));
    assert!(buf.is_empty());
}

#[test]
fn every_proper_prefix_of_a_frame_asks_for_more() {
    let bytes = encode_frame(&message(MessageType::Piece, vec![1, 2, 3, 4, 5, 6, 7, 8, 9])).unwrap();
    for cut in 0..bytes.len() {
        let step = decode_frame(&bytes[..cut]);
        assert_eq!(step.result, Ok(None), "prefix of {cut} bytes");
        assert_eq!(step.consumed, 0);
        let expected_missing = if cut < 4 { 0 } else { bytes.len() - cut };
        assert_eq!(step.missing, expected_missing);

        let mut buf = BytesMut::from(&bytes[..cut]);
        assert_eq!(MessageFrame.decode(&mut buf), Ok(None));
        assert_eq!(&buf[..], &bytes[..cut]);
    }
}

#[test]
fn short_buffer_with_largest_length_asks_for_more() {
    let mut buf = BytesMut::from(&[0u8, 1, 0, 0][..]);
    assert_eq!(MessageFrame.decode(&mut buf), Ok(None));
    assert_eq!(&buf[..], &[0, 1, 0, 0]);
    let step = decode_frame(&[0, 1, 0, 0, 7]);
    assert_eq!(step.result, Ok(None));
    assert_eq!(step.missing, 65536 + 4 - 5);
}

#[test]
fn pending_frame_gets_room_reserved() {
    let mut buf = BytesMut::from(&[0u8, 0, 16, 0, 7][..]);
    assert_eq!(MessageFrame.decode(&mut buf), Ok(None));
    assert_eq!(&buf[..], &[0, 0, 16, 0, 7]);
    assert!(buf.capacity() >= 4 + 4096);
}

#[test]
fn oversized_length_is_refused_whatever_follows() {
    for tail in [vec![], vec![0u8], vec![7u8; 10], vec![200u8; 70000]] {
        let mut bytes = vec![0u8, 1, 0, 1];
        bytes.extend_from_slice(&tail);
        let step = decode_frame(&bytes);
        assert_eq!(step.result, Err(FrameError::Oversized { length: 65537 }));
        assert_eq!(step.consumed, 0);
        let mut buf = BytesMut::from(&bytes[..]);
        assert_eq!(
            MessageFrame.decode(&mut buf),
            Err(FrameError::Oversized { length: 65537 })
        );
        assert_eq!(&buf[..], &bytes[..]);
    }
    let step = decode_frame(&[255, 255, 255, 255, 0]);
    assert_eq!(step.result, Err(FrameError::Oversized { length: u32::MAX }));
}

#[test]
fn little_endian_length_is_not_understood() {
    // 5 written little-endian reads as 0x05000000, far over the limit
    let step = decode_frame(&[5, 0, 0, 0, 4, 0, 0, 0, 7]);
    assert_eq!(step.result, Err(FrameError::Oversized { length: 0x0500_0000 }));
}

#[test]
fn encode_refuses_a_payload_that_leaves_no_room_for_the_tag() {
    let mut buf = BytesMut::from(&[1u8, 2, 3][..]);
    let result = MessageFrame.encode(message(MessageType::Piece, vec![0; 65536]), &mut buf);
    assert_eq!(result, Err(FrameError::PayloadTooLong { payload: 65536 }));
    assert_eq!(&buf[..], &[1, 2, 3]);
    assert_eq!(
        encode_frame(&message(MessageType::Bitfield, vec![0; 70000])),
        Err(FrameError::PayloadTooLong { payload: 70000 })
    );
    assert!(encode_frame(&message(MessageType::Bitfield, vec![0; 65535])).is_ok());
}

#[test]
fn encode_appends_behind_what_the_buffer_holds() {
    let mut buf = BytesMut::from(&[9u8, 9][..]);
    assert_eq!(MessageFrame.encode(message(MessageType::Unchoke, vec![]), &mut buf), Ok(()));
    assert_eq!(MessageFrame.encode(message(MessageType::Have, vec![0, 0, 0, 3]), &mut buf), Ok(()));
    assert_eq!(&buf[..], &[9, 9, 0, 0, 0, 1, 1, 0, 0, 0, 5, 4, 0, 0, 0, 3]);
}

#[test]
fn encode_checked_encodes_where_there_is_room() {
    let mut buf = BytesMut::new();
    let result = MessageFrame.encode_checked(message(MessageType::Cancel, vec![1, 2]), &mut buf);
    assert_eq!(result, Some(Ok(())));
    assert_eq!(&buf[..], &[0, 0, 0, 3, 8, 1, 2]);
    let result = MessageFrame.encode_checked(message(MessageType::Cancel, vec![0; 65536]), &mut buf);
    assert_eq!(result, Some(Err(FrameError::PayloadTooLong { payload: 65536 })));
    assert_eq!(&buf[..], &[0, 0, 0, 3, 8, 1, 2]);
}

#[test]
fn keepalive_is_absorbed_silently() {
    let mut buf = BytesMut::from(&[0u8, 0, 0, 0][..]);
    assert_eq!(MessageFrame.decode(&mut buf), Ok(None));
    assert!(buf.is_empty());

    let mut buf = BytesMut::from(&[0u8, 0, 0, 0, 0, 0, 0, 1, 0, 0xaa][..]);
    assert_eq!(
        MessageFrame.decode(&mut buf),
        Ok(Some(message(MessageType::Choke, vec![])))
    );
    assert_eq!(&buf[..], &[0xaa]);
}

#[test]
fn keepalives_before_a_partial_frame_are_dropped() {
    let mut buf = BytesMut::from(&[0u8, 0, 0, 0, 0, 0, 0, 0, 0, 0, 0, 3, 4][..]);
    assert_eq!(MessageFrame.decode(&mut buf), Ok(None));
    assert_eq!(&buf[..], &[0, 0, 0, 3, 4]);
    let step = decode_frame(&[0, 0, 0, 0, 0, 0]);
    assert_eq!(step.consumed, 4);
    assert_eq!(step.result, Ok(None));
}

#[test]
fn keepalive_flood_is_passed_over() {
    let mut bytes = vec![0u8; 4 * 200_000];
    bytes.extend_from_slice(&[0, 0, 0, 2, 5, 0x80]);
    let step = decode_frame(&bytes);
    assert_eq!(step.consumed, bytes.len());
    assert_eq!(step.result, Ok(Some(message(MessageType::Bitfield, vec![0x80]))));
    let mut buf = BytesMut::from(&vec![0u8; 4 * 200_000][..]);
    assert_eq!(MessageFrame.decode(&mut buf), Ok(None));
    assert!(buf.is_empty());
}

#[test]
fn unknown_tag_is_refused() {
    let mut buf = BytesMut::from(&[0u8, 0, 0, 2, 9, 1][..]);
    assert_eq!(MessageFrame.decode(&mut buf), Err(FrameError::UnknownType { tag: 9 }));
    assert_eq!(&buf[..], &[0, 0, 0, 2, 9, 1]);
    let step = decode_frame(&[0, 0, 0, 0, 0, 0, 0, 1, 255]);
    assert_eq!(step.result, Err(FrameError::UnknownType { tag: 255 }));
    assert_eq!(step.consumed, 4);
}

#[test]
fn unknown_tag_of_a_partial_frame_waits_for_the_frame() {
    let step = decode_frame(&[0, 0, 0, 3, 9]);
    assert_eq!(step.result, Ok(None));
    assert_eq!(step.missing, 2);
}

#[test]
fn decode_takes_one_frame_at_a_time() {
    let mut buf = BytesMut::new();
    assert_eq!(MessageFrame.encode(message(MessageType::Bitfield, vec![0xf0]), &mut buf), Ok(()));
    assert_eq!(MessageFrame.encode(message(MessageType::Unchoke, vec![]), &mut buf), Ok(()));
    assert_eq!(
        MessageFrame.decode(&mut buf),
        Ok(Some(message(MessageType::Bitfield, vec![0xf0])))
    );
    assert_eq!(&buf[..], &[0, 0, 0, 1, 1]);
    assert_eq!(MessageFrame.decode(&mut buf), Ok(Some(message(MessageType::Unchoke, vec![]))));
    assert_eq!(MessageFrame.decode(&mut buf), Ok(None));
}

#[test]
fn decode_picks_up_when_the_rest_arrives() {
    let bytes = encode_frame(&message(MessageType::Have, vec![0, 0, 1, 0])).unwrap();
    let mut buf = BytesMut::new();
    for (i, byte) in bytes.iter().enumerate() {
        buf.extend_from_slice(&[*byte]);
        let got = MessageFrame.decode(&mut buf);
        if i + 1 < bytes.len() {
            assert_eq!(got, Ok(None));
        } else {
            assert_eq!(got, Ok(Some(message(MessageType::Have, vec![0, 0, 1, 0]))));
        }
    }
}

#[test]
fn request_payload_is_three_big_endian_numbers() {
    let request = Request { index: 1, begin: 16384, length: 11872 };
    assert_eq!(request.as_bytes(), [0, 0, 0, 1, 0, 0, 0x40, 0, 0, 0, 0x2e, 0x60]);
    let request = Request { index: u32::MAX, begin: 0, length: 1 };
    assert_eq!(request.as_bytes(), [255, 255, 255, 255, 0, 0, 0, 0, 0, 0, 0, 1]);
}

#[test]
fn piece_payload_is_index_begin_and_block() {
    let payload = [0, 0, 0, 2, 0, 0, 0x40, 0, 10, 20, 30];
    let piece = Piece::load_from_payload(&payload).unwrap();
    assert_eq!(piece.index, 2);
    assert_eq!(piece.begin, 16384);
    assert_eq!(piece.piece, &[10, 20, 30]);
    let piece = Piece::load_from_payload(&payload[..8]).unwrap();
    assert_eq!(piece.piece, &[] as &[u8]);
    assert!(Piece::load_from_payload(&payload[..7]).is_none());
    assert!(Piece::load_from_payload(&[]).is_none());
}

#[test]
fn message_clone_is_equal() {
    let m = message(MessageType::Piece, vec![1, 2, 3]);
    assert_eq!(m.clone(), m);
    assert_eq!(Message::MAX, 65536);
}
