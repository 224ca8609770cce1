use crate::octets::{array20, same_bytes};
use vstd::prelude::*;

verus! {

/// The first message between two peers, 68 bytes in all: the length of the
/// protocol name, the name, eight reserved bytes, the info hash, and the
/// sender's peer id.
#[derive(Debug, Clone, Copy)]
pub struct Handshake {
    pub length: u8,
    pub protocol: [u8; 19],
    pub reserved: [u8; 8],
    pub info_hash: [u8; 20],
    pub peer_id: [u8; 20],
}

/// Why a peer's handshake was turned down.
#[derive(Debug, Clone, Copy, PartialEq, Eq, Structural)]
pub enum HandshakeError {
    /// The peer answered for another torrent.
    InfoHashMismatch,
}

/// The protocol name, `BitTorrent protocol`, in ASCII.
pub open spec fn protocol_name() -> Seq<u8> {
    seq![
        66u8, 105u8, 116u8, 84u8, 111u8, 114u8, 114u8, 101u8, 110u8, 116u8, 32u8, 112u8, 114u8,
        111u8, 116u8, 111u8, 99u8, 111u8, 108u8,
    ]
}

impl Handshake {
    /// The bytes of this handshake on the wire.
    pub open spec fn wire(&self) -> Seq<u8> {
        seq![self.length] + self.protocol@ + self.reserved@ + self.info_hash@ + self.peer_id@
    }

    /// The handshake that a client with `peer_id` sends for the torrent
    /// with `info_hash`.
    pub fn new(info_hash: [u8; 20], peer_id: [u8; 20]) -> (handshake: Self)
        ensures
            handshake.length == 19,
            handshake.protocol@ == protocol_name(),
            handshake.reserved@ == Seq::new(8, |i: int| 0u8),
            handshake.info_hash == info_hash,
            handshake.peer_id == peer_id,
    {
        let protocol: [u8; 19] = [
            66,
            105,
            116,
            84,
            111,
            114,
            114,
            101,
            110,
            116,
            32,
            112,
            114,
            111,
            116,
            111,
            99,
            111,
            108,
        ];
        let reserved: [u8; 8] = [0, 0, 0, 0, 0, 0, 0, 0];
        assert(protocol@ =~= protocol_name());
        assert(reserved@ =~= Seq::new(8, |i: int| 0u8));
        Self { length: 19, protocol, reserved, info_hash, peer_id }
    }

    /// The 68 bytes to send.
    pub fn as_bytes(&self) -> (bytes: [u8; 68])
        ensures
            bytes@ == self.wire(),
    {
        let mut bytes = [0u8; 68];
        bytes[0] = self.length;
        let mut i: usize = 0;
        while i < 19
            invariant
                i <= 19,
                bytes@[0] == self.length,
                forall|k: int| 0 <= k < i ==> bytes@[1 + k] == self.protocol@[k],
            decreases 19 - i,
        {
            bytes[1 + i] = self.protocol[i];
            i = i + 1;
        }
        i = 0;
        while i < 8
            invariant
                i <= 8,
                bytes@[0] == self.length,
                forall|k: int| 0 <= k < 19 ==> bytes@[1 + k] == self.protocol@[k],
                forall|k: int| 0 <= k < i ==> bytes@[20 + k] == self.reserved@[k],
            decreases 8 - i,
        {
            bytes[20 + i] = self.reserved[i];
            i = i + 1;
        }
        i = 0;
        while i < 20
            invariant
                i <= 20,
                bytes@[0] == self.length,
                forall|k: int| 0 <= k < 19 ==> bytes@[1 + k] == self.protocol@[k],
                forall|k: int| 0 <= k < 8 ==> bytes@[20 + k] == self.reserved@[k],
                forall|k: int| 0 <= k < i ==> bytes@[28 + k] == self.info_hash@[k],
                forall|k: int| 0 <= k < i ==> bytes@[48 + k] == self.peer_id@[k],
            decreases 20 - i,
        {
            bytes[28 + i] = self.info_hash[i];
            bytes[48 + i] = self.peer_id[i];
            i = i + 1;
        }
        assert(bytes@ =~= self.wire());
        bytes
    }

    /// Takes the peer's answer to this handshake. The answer must carry
    /// the info hash that was sent, in bytes 28 to 48; its peer id, bytes 48
    /// to 68, then replaces the one held. Protocol name and reserved bytes
    /// of the answer are not looked at.
    pub fn receive(&mut self, reply: &[u8; 68]) -> (result: Result<(), HandshakeError>)
        ensures
            reply@.subrange(28, 48) != old(self).info_hash@ ==> result == Err::<
                (),
                HandshakeError,
            >(HandshakeError::InfoHashMismatch) && *final(self) == *old(self),
            reply@.subrange(28, 48) == old(self).info_hash@ ==> result == Ok::<
                (),
                HandshakeError,
            >(()) && final(self).peer_id@ == reply@.subrange(48, 68) && *final(self) == (Handshake {
                peer_id: final(self).peer_id,
                ..*old(self)
            }),
    {
        let theirs = array20(reply.as_slice(), 28);
        if !same_bytes(theirs.as_slice(), self.info_hash.as_slice()) {
            return Err(HandshakeError::InfoHashMismatch);
        }
        self.peer_id = array20(reply.as_slice(), 48);
        Ok(())
    }
}

} // verus!
