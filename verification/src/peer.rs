use crate::buffer::{buffer_advance, buffer_extend, buffer_reserve, buffer_slice, buffered};
use bytes::BytesMut;
use vstd::prelude::*;
use vstd::slice::slice_to_vec;

verus! {

/// The kind of a peer message, carried on the wire as one byte.
#[derive(Debug, Clone, Copy, PartialEq, Eq, Structural)]
pub enum MessageType {
    Choke,
    Unchoke,
    Interested,
    NotInterested,
    Have,
    Bitfield,
    Request,
    Piece,
    Cancel,
}

impl MessageType {
    /// The byte that stands for this kind on the wire.
    pub open spec fn spec_tag(self) -> u8 {
        match self {
            MessageType::Choke => 0,
            MessageType::Unchoke => 1,
            MessageType::Interested => 2,
            MessageType::NotInterested => 3,
            MessageType::Have => 4,
            MessageType::Bitfield => 5,
            MessageType::Request => 6,
            MessageType::Piece => 7,
            MessageType::Cancel => 8,
        }
    }

    /// The kind that a wire byte stands for, if it stands for one.
    pub open spec fn spec_from_tag(tag: u8) -> Option<MessageType> {
        if tag == 0 {
            Some(MessageType::Choke)
        } else if tag == 1 {
            Some(MessageType::Unchoke)
        } else if tag == 2 {
            Some(MessageType::Interested)
        } else if tag == 3 {
            Some(MessageType::NotInterested)
        } else if tag == 4 {
            Some(MessageType::Have)
        } else if tag == 5 {
            Some(MessageType::Bitfield)
        } else if tag == 6 {
            Some(MessageType::Request)
        } else if tag == 7 {
            Some(MessageType::Piece)
        } else if tag == 8 {
            Some(MessageType::Cancel)
        } else {
            None
        }
    }

    /// The byte that stands for this kind on the wire.
    pub fn tag(self) -> (tag: u8)
        ensures
            tag == self.spec_tag(),
            tag <= 8,
    {
        match self {
            MessageType::Choke => 0,
            MessageType::Unchoke => 1,
            MessageType::Interested => 2,
            MessageType::NotInterested => 3,
            MessageType::Have => 4,
            MessageType::Bitfield => 5,
            MessageType::Request => 6,
            MessageType::Piece => 7,
            MessageType::Cancel => 8,
        }
    }

    /// The kind that `tag` stands for; none above 8.
    pub fn from_tag(tag: u8) -> (kind: Option<MessageType>)
        ensures
            kind == Self::spec_from_tag(tag),
            kind is Some <==> tag <= 8,
    {
        match tag {
            0 => Some(MessageType::Choke),
            1 => Some(MessageType::Unchoke),
            2 => Some(MessageType::Interested),
            3 => Some(MessageType::NotInterested),
            4 => Some(MessageType::Have),
            5 => Some(MessageType::Bitfield),
            6 => Some(MessageType::Request),
            7 => Some(MessageType::Piece),
            8 => Some(MessageType::Cancel),
            _ => None,
        }
    }
}

/// Every kind is found again from its wire byte, and a byte that names a
/// kind is that kind's byte.
pub proof fn lemma_tag_round_trip(kind: MessageType, tag: u8)
    ensures
        MessageType::spec_from_tag(kind.spec_tag()) == Some(kind),
        MessageType::spec_from_tag(tag) matches Some(k) ==> k.spec_tag() == tag,
{
}

/// A peer message: its kind and the bytes that follow the kind on the wire.
#[derive(Debug, PartialEq, Eq)]
pub struct Message {
    pub id: MessageType,
    pub payload: Vec<u8>,
}

/// What a [`Message`] holds, as mathematical values.
pub struct MessageView {
    pub id: MessageType,
    pub payload: Seq<u8>,
}

impl View for Message {
    type V = MessageView;

    open spec fn view(&self) -> MessageView {
        MessageView { id: self.id, payload: self.payload@ }
    }
}

impl Clone for Message {
    fn clone(&self) -> (copy: Self)
        ensures
            copy@ == self@,
    {
        Message { id: self.id, payload: self.payload.clone() }
    }
}

impl Message {
    /// Largest frame length accepted in either direction: the kind byte plus
    /// the payload.
    pub const MAX: usize = 65536;
}

/// Value of the first four bytes of `s` read as a big-endian number.
pub open spec fn be_value(s: Seq<u8>) -> int
    recommends
        s.len() >= 4,
{
    s[0] * 0x100_0000 + s[1] * 0x1_0000 + s[2] * 0x100 + s[3]
}

/// The four bytes that write `x` as a big-endian number.
pub open spec fn be_bytes(x: int) -> Seq<u8>
    recommends
        0 <= x <= u32::MAX,
{
    seq![
        (x / 0x100_0000) as u8,
        ((x / 0x1_0000) % 0x100) as u8,
        ((x / 0x100) % 0x100) as u8,
        (x % 0x100) as u8,
    ]
}

/// Writing a 32-bit number big-endian and reading it back gives the number.
pub proof fn lemma_be_value_of_bytes(x: u32)
    ensures
        be_bytes(x as int).len() == 4,
        be_value(be_bytes(x as int)) == x,
{
    let b = be_bytes(x as int);
    let x = x as int;
    assert(b[0] == x / 0x100_0000);
    assert(b[1] == (x / 0x1_0000) % 0x100);
    assert(b[2] == (x / 0x100) % 0x100);
    assert(b[3] == x % 0x100);
    assert(x == (x / 0x100) * 0x100 + x % 0x100);
    assert(x / 0x100 == (x / 0x1_0000) * 0x100 + (x / 0x100) % 0x100);
    assert(x / 0x1_0000 == (x / 0x100_0000) * 0x100 + (x / 0x1_0000) % 0x100);
}

/// Four bytes read big-endian give a 32-bit number, and writing that number
/// back gives the four bytes.
pub proof fn lemma_be_bytes_of_value(s: Seq<u8>)
    ensures
        0 <= be_value(s) <= u32::MAX,
        s.len() == 4 ==> be_bytes(be_value(s)) == s,
{
    let v = be_value(s);
    let (s0, s1, s2, s3) = (s[0] as int, s[1] as int, s[2] as int, s[3] as int);
    assert(v == ((s0 * 0x100 + s1) * 0x100 + s2) * 0x100 + s3);
    assert(v % 0x100 == s3 && v / 0x100 == (s0 * 0x100 + s1) * 0x100 + s2);
    assert((v / 0x100) % 0x100 == s2 && v / 0x1_0000 == s0 * 0x100 + s1);
    assert((v / 0x1_0000) % 0x100 == s1 && v / 0x100_0000 == s0);
    if s.len() == 4 {
        assert(be_bytes(v) =~= s);
    }
}

/// Reads the four bytes at `at` as a big-endian number.
pub fn read_be_u32(bytes: &[u8], at: usize) -> (value: u32)
    requires
        at + 4 <= bytes@.len(),
    ensures
        value == be_value(bytes@.subrange(at as int, at + 4)),
{
    let b0: u32 = bytes[at] as u32;
    let b1: u32 = bytes[at + 1] as u32;
    let b2: u32 = bytes[at + 2] as u32;
    let b3: u32 = bytes[at + 3] as u32;
    b0 * 0x100_0000 + b1 * 0x1_0000 + b2 * 0x100 + b3
}

/// Writes `x` as four big-endian bytes.
pub fn be_u32_bytes(x: u32) -> (bytes: [u8; 4])
    ensures
        bytes@ == be_bytes(x as int),
{
    let bytes: [u8; 4] = [
        (x / 0x100_0000) as u8,
        ((x / 0x1_0000) % 0x100) as u8,
        ((x / 0x100) % 0x100) as u8,
        (x % 0x100) as u8,
    ];
    assert(bytes@ =~= be_bytes(x as int));
    bytes
}

/// Why a frame was refused.
#[derive(Debug, Clone, Copy, PartialEq, Eq, Structural)]
pub enum FrameError {
    /// The length prefix of an incoming frame announces more than
    /// [`Message::MAX`] bytes.
    Oversized { length: u32 },
    /// The payload of an outgoing message leaves no room for the kind byte
    /// within [`Message::MAX`] bytes.
    PayloadTooLong { payload: usize },
    /// The byte after the length prefix names no message kind.
    UnknownType { tag: u8 },
}

/// What the front of a receive buffer amounts to.
pub struct Decoding {
    /// Bytes that are done with: the keepalives in front, and the frame
    /// where one was decoded.
    pub consumed: nat,
    /// Bytes still to arrive before the pending frame is whole, where its
    /// length prefix is already there; zero otherwise.
    pub missing: nat,
    /// The message, `None` where more bytes are needed, or the refusal.
    pub result: Result<Option<MessageView>, FrameError>,
}

/// Length in bytes of the run of keepalives (frames of length zero) at the
/// front of `s`.
pub open spec fn keepalive_len(s: Seq<u8>) -> nat
    decreases s.len(),
{
    if s.len() >= 4 && be_value(s) == 0 {
        4 + keepalive_len(s.skip(4))
    } else {
        0
    }
}

/// What a buffer that starts with no keepalive amounts to.
pub open spec fn frame_at(s: Seq<u8>) -> Decoding {
    if s.len() < 4 {
        Decoding { consumed: 0, missing: 0, result: Ok(None) }
    } else if be_value(s) > Message::MAX {
        Decoding {
            consumed: 0,
            missing: 0,
            result: Err(FrameError::Oversized { length: be_value(s) as u32 }),
        }
    } else if s.len() < 4 + be_value(s) {
        Decoding { consumed: 0, missing: (4 + be_value(s) - s.len()) as nat, result: Ok(None) }
    } else {
        match MessageType::spec_from_tag(s[4]) {
            None => Decoding {
                consumed: 0,
                missing: 0,
                result: Err(FrameError::UnknownType { tag: s[4] }),
            },
            Some(id) => Decoding {
                consumed: (4 + be_value(s)) as nat,
                missing: 0,
                result: Ok(Some(MessageView { id, payload: s.subrange(5, 4 + be_value(s)) })),
            },
        }
    }
}

/// What a receive buffer amounts to: its keepalives are passed over, and
/// what follows them is either a whole frame, the start of one, or refused.
pub open spec fn decoding(s: Seq<u8>) -> Decoding {
    let skipped = keepalive_len(s);
    let front = frame_at(s.skip(skipped as int));
    Decoding { consumed: skipped + front.consumed, missing: front.missing, result: front.result }
}

/// The bytes of the frame that carries `m`: the big-endian length of kind
/// byte and payload, the kind byte, the payload.
pub open spec fn frame_bytes(m: MessageView) -> Seq<u8> {
    be_bytes(m.payload.len() as int + 1) + seq![m.id.spec_tag()] + m.payload
}

/// A decode result with the message taken by its view.
pub open spec fn result_view(result: Result<Option<Message>, FrameError>) -> Result<
    Option<MessageView>,
    FrameError,
> {
    match result {
        Ok(Some(m)) => Ok(Some(m@)),
        Ok(None) => Ok(None),
        Err(e) => Err(e),
    }
}

/// Result of one look at a receive buffer; see [`Decoding`].
#[derive(Debug, PartialEq, Eq)]
pub struct Decoded {
    pub consumed: usize,
    pub missing: usize,
    pub result: Result<Option<Message>, FrameError>,
}

impl View for Decoded {
    type V = Decoding;

    open spec fn view(&self) -> Decoding {
        Decoding {
            consumed: self.consumed as nat,
            missing: self.missing as nat,
            result: result_view(self.result),
        }
    }
}

/// Decodes the front of `buf` without changing it. Keepalives are passed
/// over in a loop; the caller drops `consumed` bytes afterwards.
pub fn decode_frame(buf: &[u8]) -> (step: Decoded)
    ensures
        step@ == decoding(buf@),
        step.consumed <= buf@.len(),
{
    let mut at: usize = 0;
    assert(buf@.skip(0) =~= buf@);
    while buf.len() - at >= 4 && read_be_u32(buf, at) == 0
        invariant
            at <= buf@.len(),
            keepalive_len(buf@) == at + keepalive_len(buf@.skip(at as int)),
        decreases buf@.len() - at,
    {
        proof {
            assert(buf@.skip(at as int).skip(4) =~= buf@.skip(at + 4));
            assert(buf@.subrange(at as int, at + 4) =~= buf@.skip(at as int).subrange(0, 4));
        }
        at = at + 4;
    }
    let ghost rest = buf@.skip(at as int);
    if buf.len() - at < 4 {
        return Decoded { consumed: at, missing: 0, result: Ok(None) };
    }
    let prefix: u32 = read_be_u32(buf, at);
    proof {
        assert(buf@.subrange(at as int, at + 4) =~= rest.subrange(0, 4));
        assert(keepalive_len(rest) == 0);
    }
    if prefix as usize > Message::MAX {
        return Decoded {
            consumed: at,
            missing: 0,
            result: Err(FrameError::Oversized { length: prefix }),
        };
    }
    let length: usize = prefix as usize;
    let have: usize = buf.len() - at;
    if have < 4 + length {
        return Decoded { consumed: at, missing: 4 + length - have, result: Ok(None) };
    }
    let tag: u8 = buf[at + 4];
    match MessageType::from_tag(tag) {
        None => Decoded { consumed: at, missing: 0, result: Err(FrameError::UnknownType { tag }) },
        Some(id) => {
            let payload = slice_to_vec(&buf[at + 5..at + 4 + length]);
            proof {
                assert(buf@.subrange(at + 5, at + 4 + length) =~= rest.subrange(5, 4 + length));
            }
            Decoded {
                consumed: at + 4 + length,
                missing: 0,
                result: Ok(Some(Message { id, payload })),
            }
        },
    }
}

/// Encodes `item` as one frame. A payload that leaves no room for the kind
/// byte within [`Message::MAX`] is refused and nothing is produced.
pub fn encode_frame(item: &Message) -> (result: Result<Vec<u8>, FrameError>)
    ensures
        item.payload@.len() + 1 > Message::MAX ==> result == Err::<Vec<u8>, FrameError>(
            FrameError::PayloadTooLong { payload: item.payload.len() },
        ),
        item.payload@.len() + 1 <= Message::MAX ==> (result matches Ok(bytes) && bytes@
            == frame_bytes(item@)),
{
    let n: usize = item.payload.len();
    if n >= Message::MAX {
        return Err(FrameError::PayloadTooLong { payload: n });
    }
    let prefix = be_u32_bytes((n + 1) as u32);
    let mut bytes: Vec<u8> = Vec::with_capacity(5 + n);
    bytes.extend_from_slice(prefix.as_slice());
    bytes.push(item.id.tag());
    bytes.extend_from_slice(item.payload.as_slice());
    assert(bytes@ =~= frame_bytes(item@));
    Ok(bytes)
}

/// Decoding what was encoded gives the message back, whatever follows the
/// frame in the buffer, and consumes exactly the frame.
pub proof fn lemma_decode_inverts_encode(m: MessageView, tail: Seq<u8>)
    requires
        m.payload.len() + 1 <= Message::MAX,
    ensures
        frame_bytes(m).len() == 5 + m.payload.len(),
        decoding(frame_bytes(m) + tail) == (Decoding {
            consumed: 5 + m.payload.len(),
            missing: 0,
            result: Ok(Some(m)),
        }),
{
    let n = m.payload.len() as int;
    let s = frame_bytes(m) + tail;
    lemma_be_value_of_bytes((n + 1) as u32);
    let prefix = be_bytes(n + 1);
    assert(s[0] == prefix[0] && s[1] == prefix[1] && s[2] == prefix[2] && s[3] == prefix[3]);
    assert(be_value(s) == n + 1);
    assert(keepalive_len(s) == 0);
    assert(s.skip(0) =~= s);
    assert(s[4] == m.id.spec_tag());
    lemma_tag_round_trip(m.id, 0);
    assert(s.subrange(5, 4 + (n + 1)) =~= m.payload);
}

/// A buffer that ends before its first frame does asks for more bytes and
/// is never refused: either the length prefix is not whole yet, or it
/// announces an acceptable length that the buffer does not reach.
pub proof fn lemma_short_buffer_is_incomplete(s: Seq<u8>)
    requires
        s.len() < 4 || (be_value(s) <= Message::MAX && s.len() < 4 + be_value(s)),
    ensures
        decoding(s).result == Ok::<Option<MessageView>, FrameError>(None),
        decoding(s).consumed == 0,
{
    assert(keepalive_len(s) == 0);
    assert(s.skip(0) =~= s);
}

/// A length prefix above [`Message::MAX`] is refused as oversized, whatever
/// bytes follow it.
pub proof fn lemma_oversized_is_refused(s: Seq<u8>)
    requires
        s.len() >= 4,
        be_value(s) > Message::MAX,
    ensures
        decoding(s).result == Err::<Option<MessageView>, FrameError>(
            FrameError::Oversized { length: be_value(s) as u32 },
        ),
        decoding(s).consumed == 0,
{
    assert(keepalive_len(s) == 0);
    assert(s.skip(0) =~= s);
}

/// A keepalive in front of a buffer is passed over: the buffer amounts to
/// what follows the keepalive, with four more bytes consumed.
pub proof fn lemma_keepalive_is_absorbed(s: Seq<u8>)
    ensures
        decoding(seq![0u8, 0u8, 0u8, 0u8] + s) == (Decoding {
            consumed: 4 + decoding(s).consumed,
            ..decoding(s)
        }),
{
    let k = seq![0u8, 0u8, 0u8, 0u8] + s;
    assert(be_value(k) == 0);
    assert(k.skip(4) =~= s);
    assert(keepalive_len(k) == 4 + keepalive_len(s));
    lemma_consumed_within_buffer(s);
    assert(k.skip(4 + keepalive_len(s) as int) =~= s.skip(keepalive_len(s) as int));
}

/// Never more is consumed than the buffer holds.
pub proof fn lemma_consumed_within_buffer(s: Seq<u8>)
    ensures
        keepalive_len(s) <= s.len(),
        decoding(s).consumed <= s.len(),
    decreases s.len(),
{
    if s.len() >= 4 && be_value(s) == 0 {
        lemma_consumed_within_buffer(s.skip(4));
    }
}

/// The codec between a byte buffer and peer messages.
#[derive(Debug, Clone, Copy)]
pub struct MessageFrame;

impl MessageFrame {
    /// Takes the next message off the front of `src`. Keepalives in front
    /// are dropped in any case; a decoded frame is dropped with them. Where
    /// a frame is pending, room is reserved for the bytes it still lacks.
    pub fn decode(&mut self, src: &mut BytesMut) -> (result: Result<Option<Message>, FrameError>)
        ensures
            result_view(result) == decoding(buffered(*old(src))).result,
            buffered(*final(src)) == buffered(*old(src)).skip(
                decoding(buffered(*old(src))).consumed as int,
            ),
    {
        let step = decode_frame(buffer_slice(src));
        buffer_advance(src, step.consumed);
        if step.missing > 0 {
            buffer_reserve(src, step.missing);
        }
        step.result
    }

    /// Appends the frame of `item` to `dst`, or refuses `item` and leaves
    /// `dst` as it was. Buffer and frame together must not be longer than
    /// an allocation can be.
    pub fn encode(&mut self, item: Message, dst: &mut BytesMut) -> (result: Result<(), FrameError>)
        requires
            buffered(*old(dst)).len() + item.payload@.len() + 5 <= isize::MAX,
        ensures
            item.payload@.len() + 1 > Message::MAX ==> result == Err::<(), FrameError>(
                FrameError::PayloadTooLong { payload: item.payload.len() },
            ) && buffered(*final(dst)) == buffered(*old(dst)),
            item.payload@.len() + 1 <= Message::MAX ==> result == Ok::<(), FrameError>(())
                && buffered(*final(dst)) == buffered(*old(dst)) + frame_bytes(item@),
    {
        match encode_frame(&item) {
            Ok(bytes) => {
                proof {
                    lemma_decode_inverts_encode(item@, Seq::empty());
                }
                buffer_extend(dst, bytes.as_slice());
                Ok(())
            },
            Err(e) => Err(e),
        }
    }

    /// As [`MessageFrame::encode`], for any buffer: where buffer and frame
    /// together would be longer than an allocation can be, nothing is
    /// appended and the answer is `None`.
    pub fn encode_checked(&mut self, item: Message, dst: &mut BytesMut) -> (result: Option<
        Result<(), FrameError>,
    >)
        ensures
            result is None <==> buffered(*old(dst)).len() + item.payload@.len() + 5 > isize::MAX,
            result is None ==> buffered(*final(dst)) == buffered(*old(dst)),
            result matches Some(r) ==> {
                &&& item.payload@.len() + 1 > Message::MAX ==> r == Err::<(), FrameError>(
                    FrameError::PayloadTooLong { payload: item.payload.len() },
                ) && buffered(*final(dst)) == buffered(*old(dst))
                &&& item.payload@.len() + 1 <= Message::MAX ==> r == Ok::<(), FrameError>(())
                    && buffered(*final(dst)) == buffered(*old(dst)) + frame_bytes(item@)
            },
    {
        let held: usize = buffer_slice(dst).len();
        let n: usize = item.payload.len();
        let limit: usize = isize::MAX as usize;
        if n > limit - 5 || held > limit - 5 - n {
            None
        } else {
            Some(self.encode(item, dst))
        }
    }
}

/// A request for one block: which piece, where in the piece the block
/// starts, and how many bytes it has.
#[derive(Debug, Clone, Copy, PartialEq, Eq, Structural)]
pub struct Request {
    pub index: u32,
    pub begin: u32,
    pub length: u32,
}

impl Request {
    /// The payload of a request message: the three fields, big-endian, in
    /// the order index, begin, length.
    pub open spec fn spec_bytes(self) -> Seq<u8> {
        be_bytes(self.index as int) + be_bytes(self.begin as int) + be_bytes(self.length as int)
    }

    /// The payload of the request message.
    pub fn as_bytes(&self) -> (bytes: [u8; 12])
        ensures
            bytes@ == self.spec_bytes(),
    {
        let i = be_u32_bytes(self.index);
        let b = be_u32_bytes(self.begin);
        let l = be_u32_bytes(self.length);
        let bytes: [u8; 12] = [
            i[0],
            i[1],
            i[2],
            i[3],
            b[0],
            b[1],
            b[2],
            b[3],
            l[0],
            l[1],
            l[2],
            l[3],
        ];
        assert(bytes@ =~= self.spec_bytes());
        bytes
    }
}

/// One block as a peer sent it: the piece it belongs to, where in the piece
/// it starts, and its bytes, borrowed from the message payload.
#[derive(Debug, Clone, Copy)]
pub struct Piece<'a> {
    pub index: u32,
    pub begin: u32,
    pub piece: &'a [u8],
}

/// What a [`Piece`] holds, as mathematical values.
pub struct PieceView {
    pub index: int,
    pub begin: int,
    pub piece: Seq<u8>,
}

impl<'a> View for Piece<'a> {
    type V = PieceView;

    open spec fn view(&self) -> PieceView {
        PieceView { index: self.index as int, begin: self.begin as int, piece: self.piece@ }
    }
}

/// The block that the payload of a piece message carries: index and begin,
/// big-endian, then the block's bytes. A payload too short for the two
/// numbers carries none.
pub open spec fn piece_of_payload(payload: Seq<u8>) -> Option<PieceView> {
    if payload.len() < 8 {
        None
    } else {
        Some(
            PieceView {
                index: be_value(payload),
                begin: be_value(payload.skip(4)),
                piece: payload.skip(8),
            },
        )
    }
}

impl<'a> Piece<'a> {
    /// Reads the payload of a piece message.
    pub fn load_from_payload(payload: &'a [u8]) -> (block: Option<Piece<'a>>)
        ensures
            match block {
                Some(p) => Some(p@),
                None => None,
            } == piece_of_payload(payload@),
    {
        if payload.len() < 8 {
            return None;
        }
        let index = read_be_u32(payload, 0);
        let begin = read_be_u32(payload, 4);
        let piece = &payload[8..payload.len()];
        proof {
            assert(be_value(payload@.subrange(0, 4)) == be_value(payload@));
            assert(be_value(payload@.subrange(4, 8)) == be_value(payload@.skip(4)));
            assert(payload@.subrange(8, payload@.len() as int) =~= payload@.skip(8));
        }
        Some(Piece { index, begin, piece })
    }
}

} // verus!
