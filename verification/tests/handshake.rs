use peerwire::handshake::{Handshake, HandshakeError};
use peerwire::octets::same_bytes;

const INFO_HASH: [u8; 20] = [
    0xd6, 0x9f, 0x91, 0xe6, 0xb2, 0xae, 0x4c, 0x54, 0x24, 0x68, 0xd1, 0x07, 0x3a, 0x71, 0xd4, 0xea,
    0x13, 0x87, 0x9a, 0x7f,
];
const PEER_ID: [u8; 20] = *b"00112233445566778899";

#[test]
fn new_handshake_has_the_fixed_fields() {
    let handshake = Handshake::new(INFO_HASH, PEER_ID);
    assert_eq!(handshake.length, 19);
    assert_eq!(&handshake.protocol, b"BitTorrent protocol");
    assert_eq!(handshake.reserved, [0; 8]);
    assert_eq!(handshake.info_hash, INFO_HASH);
    assert_eq!(handshake.peer_id, PEER_ID);
}

#[test]
fn handshake_is_68_bytes_in_wire_order() {
    let bytes = Handshake::new(INFO_HASH, PEER_ID).as_bytes();
    assert_eq!(bytes.len(), 68);
    assert_eq!(bytes[0], 19);
    assert_eq!(&bytes[1..20], b"BitTorrent protocol");
    assert_eq!(&bytes[20..28], &[0; 8]);
    assert_eq!(&bytes[28..48], &INFO_HASH);
    assert_eq!(&bytes[48..68], &PEER_ID);
}

#[test]
fn reply_with_the_same_info_hash_gives_the_remote_peer_id() {
    let mut ours = Handshake::new(INFO_HASH, PEER_ID);
    let theirs = Handshake::new(INFO_HASH, *b"-RN0.0.0-abcdefghijk").as_bytes();
    assert_eq!(ours.receive(&theirs), Ok(()));
    assert_eq!(&ours.peer_id, b"-RN0.0.0-abcdefghijk");
    assert_eq!(ours.info_hash, INFO_HASH);
    assert_eq!(ours.length, 19);
}

#[test]
fn reply_with_another_info_hash_is_a_mismatch() {
    let mut ours = Handshake::new(INFO_HASH, PEER_ID);
    let mut other = INFO_HASH;
    other[19] ^= 1;
    let theirs = Handshake::new(other, *b"-RN0.0.0-abcdefghijk").as_bytes();
    assert_eq!(ours.receive(&theirs), Err(HandshakeError::InfoHashMismatch));
    assert_eq!(ours.peer_id, PEER_ID);
    assert_eq!(ours.as_bytes(), Handshake::new(INFO_HASH, PEER_ID).as_bytes());

    let mut ours = Handshake::new(INFO_HASH, PEER_ID);
    let theirs = Handshake::new([0; 20], PEER_ID).as_bytes();
    assert_eq!(ours.receive(&theirs), Err(HandshakeError::InfoHashMismatch));
}

#[test]
fn protocol_name_and_reserved_bytes_of_a_reply_are_not_checked() {
    let mut ours = Handshake::new(INFO_HASH, PEER_ID);
    let mut theirs = Handshake::new(INFO_HASH, [7; 20]).as_bytes();
    theirs[0] = 3;
    theirs[1..20].copy_from_slice(b"Some other protocol");
    theirs[20..28].copy_from_slice(&[0xff; 8]);
    assert_eq!(ours.receive(&theirs), Ok(()));
    assert_eq!(ours.peer_id, [7; 20]);
    assert_eq!(&ours.protocol, b"BitTorrent protocol");
    assert_eq!(ours.reserved, [0; 8]);
}

#[test]
fn same_bytes_compares_length_and_content() {
    assert!(same_bytes(&[], &[]));
    assert!(same_bytes(&[1, 2, 3], &[1, 2, 3]));
    assert!(!same_bytes(&[1, 2, 3], &[1, 2, 4]));
    assert!(!same_bytes(&[1, 2, 3], &[1, 2]));
    assert!(!same_bytes(&[], &[0]));
}
