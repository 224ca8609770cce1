use crate::digest::{sha1_digest, sha1_of};
use crate::handshake::Handshake;
use crate::octets::same_bytes;
use crate::peer::{piece_of_payload, Message, MessageType, MessageView, Piece, Request};
use crate::queue::{after, queue_within, PiecesQueue, QueueCall};
use crate::torrent::{Info, Keys, Torrent};
use std::sync::Arc;
use vstd::prelude::*;
use vstd::slice::slice_to_vec;

verus! {

/// Size of chunk `index` when `length` bytes are cut into `count` chunks of
/// at most `max_length` bytes: every chunk is full but possibly the last,
/// which holds the remainder when there is one.
pub open spec fn residual_size(index: int, count: int, length: int, max_length: int) -> int {
    if index == count - 1 && length % max_length != 0 {
        length % max_length
    } else {
        max_length
    }
}

/// Number of chunks of at most `max_length` bytes needed for `length` bytes.
pub open spec fn chunk_count(length: int, max_length: int) -> int {
    if length % max_length == 0 {
        length / max_length
    } else {
        length / max_length + 1
    }
}

/// Computes [`residual_size`]: the size of chunk `index` of `count`.
pub fn get_residual_size(index: usize, count: usize, length: usize, max_length: usize) -> (size:
    usize)
    requires
        count > 0,
        max_length > 0,
    ensures
        size == residual_size(index as int, count as int, length as int, max_length as int),
        0 < size <= max_length,
{
    if index == count - 1 && (length % max_length) != 0 {
        length % max_length
    } else {
        max_length
    }
}

/// Computes [`chunk_count`].
pub fn get_chunk_count(length: usize, max_length: usize) -> (count: usize)
    requires
        max_length > 0,
    ensures
        count == chunk_count(length as int, max_length as int),
{
    if length % max_length == 0 {
        length / max_length
    } else {
        assert(length as int / max_length as int <= length as int - 1) by (nonlinear_arith)
            requires
                max_length > 0,
                length >= 0,
                length as int % max_length as int != 0,
        ;
        length / max_length + 1
    }
}

/// The chunks of a length add up to it: there is at least one, all but the
/// last are full, and the last one ends where the length ends.
pub proof fn lemma_chunks_fill_length(length: int, max_length: int)
    requires
        length > 0,
        max_length > 0,
    ensures
        chunk_count(length, max_length) >= 1,
        forall|index: int|
            0 <= index < chunk_count(length, max_length) - 1 ==> #[trigger] residual_size(
                index,
                chunk_count(length, max_length),
                length,
                max_length,
            ) == max_length,
        0 < residual_size(
            chunk_count(length, max_length) - 1,
            chunk_count(length, max_length),
            length,
            max_length,
        ) <= max_length,
        (chunk_count(length, max_length) - 1) * max_length + residual_size(
            chunk_count(length, max_length) - 1,
            chunk_count(length, max_length),
            length,
            max_length,
        ) == length,
{
    let q = length / max_length;
    let r = length % max_length;
    assert(length == q * max_length + r && 0 <= r < max_length) by (nonlinear_arith)
        requires
            length > 0,
            max_length > 0,
            q == length / max_length,
            r == length % max_length,
    ;
    assert(q >= 0) by (nonlinear_arith)
        requires
            length > 0,
            max_length > 0,
            q == length / max_length,
    ;
    assert((q - 1) * max_length == q * max_length - max_length) by (nonlinear_arith);
    if r == 0 {
        assert(q >= 1) by (nonlinear_arith)
            requires
                length == q * max_length,
                length > 0,
                max_length > 0,
        ;
    }
}

/// What a session reads of a torrent: the piece length, the length of the
/// one file, and the expected digest of each piece.
pub struct TorrentMetadata {
    pub piece_length: int,
    pub total_length: int,
    pub hashes: Seq<Seq<u8>>,
}

impl TorrentMetadata {
    /// Number of pieces: one for each digest.
    pub open spec fn num_pieces(self) -> int {
        self.hashes.len() as int
    }

    /// Piece length and piece count are positive where needed and fit the
    /// 32-bit fields of a request.
    pub open spec fn fits(self) -> bool {
        &&& 0 < self.piece_length <= u32::MAX
        &&& self.num_pieces() <= u32::MAX
        &&& 0 <= self.total_length
    }

    /// Bytes in piece `piece`: the piece length, but for the last piece
    /// what is left of the file when that is less.
    pub open spec fn piece_size(self, piece: int) -> int {
        residual_size(piece, self.num_pieces(), self.total_length, self.piece_length)
    }

    /// Number of blocks that piece `piece` is fetched in.
    pub open spec fn block_count(self, piece: int) -> int {
        chunk_count(self.piece_size(piece), Worker::BLOCK_SIZE as int)
    }

    /// Bytes in block `block` of piece `piece`.
    pub open spec fn block_size(self, piece: int, block: int) -> int {
        residual_size(
            block,
            self.block_count(piece),
            self.piece_size(piece),
            Worker::BLOCK_SIZE as int,
        )
    }

    /// The request message for block `block` of piece `piece`.
    pub open spec fn request_for(self, piece: int, block: int) -> MessageView {
        MessageView {
            id: MessageType::Request,
            payload: (Request {
                index: piece as u32,
                begin: (block * Worker::BLOCK_SIZE) as u32,
                length: self.block_size(piece, block) as u32,
            }).spec_bytes(),
        }
    }

    /// Whether `m` is the answer to the request for block `block` of piece
    /// `piece`: a piece message for that piece and offset, with as many
    /// bytes as were asked for.
    pub open spec fn answers(self, piece: int, block: int, m: MessageView) -> bool {
        &&& m.id == MessageType::Piece
        &&& piece_of_payload(m.payload) matches Some(p)
        &&& p.index == piece
        &&& p.begin == block * Worker::BLOCK_SIZE
        &&& p.piece.len() == self.block_size(piece, block)
    }
}

impl Info {
    /// What a session reads of this description. The total length of a
    /// torrent of several files, on which no session runs, counts as zero.
    pub open spec fn metadata(&self) -> TorrentMetadata {
        TorrentMetadata {
            piece_length: self.plength as int,
            total_length: match self.keys {
                Keys::SingleFile { length } => length as int,
                Keys::MultiFile { .. } => 0,
            },
            hashes: self.pieces@,
        }
    }
}

/// Why a session ended without having emptied the queue.
#[derive(Debug, Clone, Copy, PartialEq, Eq, Structural)]
pub enum SessionError {
    /// The torrent describes several files.
    MultiFile,
    /// The piece length is zero, or the piece length or the number of
    /// pieces does not fit the 32-bit fields of a request.
    Unfit,
    /// The first message was no bitfield.
    ExpectedBitfield,
    /// The answer to `interested` was no unchoke with an empty payload.
    ExpectedUnchoke,
    /// Reading from or writing to the peer failed.
    Network,
    /// Nobody takes finished pieces any more.
    Undeliverable,
}

/// Where a session stands.
#[derive(Debug, PartialEq, Eq)]
pub enum SessionState {
    /// Waiting for the peer's bitfield.
    AwaitBitfield,
    /// `interested` is being written.
    SendInterested,
    /// Waiting for the peer's unchoke.
    AwaitUnchoke,
    /// The request for block `block` of piece `piece` is being written;
    /// `data` holds the blocks before it.
    SendRequest { piece: usize, block: usize, data: Vec<u8> },
    /// Waiting for block `block` of piece `piece`.
    AwaitBlock { piece: usize, block: usize, data: Vec<u8> },
    /// Piece `piece` is verified and being handed over.
    Delivering { piece: usize },
    /// The queue was empty: the session ended in order.
    Done,
    /// The session ended early.
    Failed(SessionError),
}

/// A [`SessionState`] as mathematical values.
pub enum Phase {
    AwaitBitfield,
    SendInterested,
    AwaitUnchoke,
    SendRequest { piece: int, block: int, data: Seq<u8> },
    AwaitBlock { piece: int, block: int, data: Seq<u8> },
    Delivering { piece: int },
    Done,
    Failed(SessionError),
}

impl View for SessionState {
    type V = Phase;

    open spec fn view(&self) -> Phase {
        match self {
            SessionState::AwaitBitfield => Phase::AwaitBitfield,
            SessionState::SendInterested => Phase::SendInterested,
            SessionState::AwaitUnchoke => Phase::AwaitUnchoke,
            SessionState::SendRequest { piece, block, data } => Phase::SendRequest {
                piece: *piece as int,
                block: *block as int,
                data: data@,
            },
            SessionState::AwaitBlock { piece, block, data } => Phase::AwaitBlock {
                piece: *piece as int,
                block: *block as int,
                data: data@,
            },
            SessionState::Delivering { piece } => Phase::Delivering { piece: *piece as int },
            SessionState::Done => Phase::Done,
            SessionState::Failed(e) => Phase::Failed(*e),
        }
    }
}

impl Phase {
    /// A piece in work is one of the torrent, the block in work is one of
    /// the piece, and the bytes held are the blocks before it.
    pub open spec fn wf(self, meta: TorrentMetadata) -> bool {
        match self {
            Phase::SendRequest { piece, block, data } | Phase::AwaitBlock { piece, block, data } => {
                &&& 0 <= piece < meta.num_pieces()
                &&& 0 <= block < meta.block_count(piece)
                &&& data.len() == block * Worker::BLOCK_SIZE
            },
            Phase::Delivering { piece } => 0 <= piece < meta.num_pieces(),
            _ => true,
        }
    }
}

/// What the caller saw happen since the last action.
#[derive(Debug, PartialEq, Eq)]
pub enum Event {
    /// A message arrived.
    Received(Message),
    /// Reading failed, or the peer closed the connection.
    ReadFailed,
    /// The message of the last action was written.
    Sent,
    /// Writing failed.
    SendFailed,
    /// The piece of the last action was handed over.
    Delivered,
    /// The piece of the last action could not be handed over.
    DeliverFailed,
}

/// An [`Event`] as mathematical values.
pub enum EventView {
    Received(MessageView),
    ReadFailed,
    Sent,
    SendFailed,
    Delivered,
    DeliverFailed,
}

impl View for Event {
    type V = EventView;

    open spec fn view(&self) -> EventView {
        match self {
            Event::Received(m) => EventView::Received(m@),
            Event::ReadFailed => EventView::ReadFailed,
            Event::Sent => EventView::Sent,
            Event::SendFailed => EventView::SendFailed,
            Event::Delivered => EventView::Delivered,
            Event::DeliverFailed => EventView::DeliverFailed,
        }
    }
}

/// What the caller is to do next. It answers with the event that tells
/// how it went.
#[derive(Debug, PartialEq, Eq)]
pub enum Action {
    /// Read one message: answer `Received` or `ReadFailed`.
    Receive,
    /// Write this message: answer `Sent` or `SendFailed`.
    Send(Message),
    /// Hand this verified piece over: answer `Delivered` or
    /// `DeliverFailed`.
    Deliver { index: usize, data: Vec<u8> },
    /// Nothing: the session is over.
    Stop,
}

/// An [`Action`] as mathematical values.
pub enum ActionView {
    Receive,
    Send(MessageView),
    Deliver { index: int, data: Seq<u8> },
    Stop,
}

impl View for Action {
    type V = ActionView;

    open spec fn view(&self) -> ActionView {
        match self {
            Action::Receive => ActionView::Receive,
            Action::Send(m) => ActionView::Send(m@),
            Action::Deliver { index, data } => ActionView::Deliver {
                index: *index as int,
                data: data@,
            },
            Action::Stop => ActionView::Stop,
        }
    }
}

/// One transition of a session: where it stands afterwards, what is then
/// pending in the queue, and what the caller is to do.
pub struct Step {
    pub state: Phase,
    pub queue: Seq<usize>,
    pub action: ActionView,
}

/// The session ends early; the queue stays as it is.
pub open spec fn fail(error: SessionError, queue: Seq<usize>) -> Step {
    Step { state: Phase::Failed(error), queue, action: ActionView::Stop }
}

/// The session turns to the index that has waited longest and asks for its
/// first block, or ends in order where nothing is pending.
pub open spec fn next_piece(meta: TorrentMetadata, queue: Seq<usize>) -> Step {
    if queue.len() == 0 {
        Step { state: Phase::Done, queue, action: ActionView::Stop }
    } else {
        Step {
            state: Phase::SendRequest { piece: queue[0] as int, block: 0, data: Seq::empty() },
            queue: queue.drop_first(),
            action: ActionView::Send(meta.request_for(queue[0] as int, 0)),
        }
    }
}

/// The session gives `piece` up: the index goes behind all pending ones,
/// and the session turns to the next piece.
pub open spec fn abandon(meta: TorrentMetadata, piece: int, queue: Seq<usize>) -> Step {
    next_piece(meta, queue.push(piece as usize))
}

/// All blocks of `piece` are in, and `digest` is the digest of `data`: the
/// piece is handed over where the digest is the expected one, and given up
/// where it is not.
pub open spec fn conclude(
    meta: TorrentMetadata,
    piece: int,
    data: Seq<u8>,
    digest: Seq<u8>,
    queue: Seq<usize>,
) -> Step {
    if digest == meta.hashes[piece] {
        Step {
            state: Phase::Delivering { piece },
            queue,
            action: ActionView::Deliver { index: piece, data },
        }
    } else {
        abandon(meta, piece, queue)
    }
}

/// The transition of a session in `state` on `event`, with `queue` pending.
pub open spec fn step(meta: TorrentMetadata, state: Phase, event: EventView, queue: Seq<usize>) -> Step {
    match state {
        Phase::AwaitBitfield => match event {
            EventView::Received(m) => if m.id == MessageType::Bitfield {
                Step {
                    state: Phase::SendInterested,
                    queue,
                    action: ActionView::Send(
                        MessageView { id: MessageType::Interested, payload: Seq::empty() },
                    ),
                }
            } else {
                fail(SessionError::ExpectedBitfield, queue)
            },
            _ => fail(SessionError::Network, queue),
        },
        Phase::SendInterested => match event {
            EventView::Sent => Step { state: Phase::AwaitUnchoke, queue, action: ActionView::Receive },
            _ => fail(SessionError::Network, queue),
        },
        Phase::AwaitUnchoke => match event {
            EventView::Received(m) => if m.id == MessageType::Unchoke && m.payload.len() == 0 {
                next_piece(meta, queue)
            } else {
                fail(SessionError::ExpectedUnchoke, queue)
            },
            _ => fail(SessionError::Network, queue),
        },
        Phase::SendRequest { piece, block, data } => match event {
            EventView::Sent => Step {
                state: Phase::AwaitBlock { piece, block, data },
                queue,
                action: ActionView::Receive,
            },
            _ => fail(SessionError::Network, queue.push(piece as usize)),
        },
        Phase::AwaitBlock { piece, block, data } => match event {
            EventView::Received(m) => if meta.answers(piece, block, m) {
                let grown = data + m.payload.skip(8);
                if block + 1 < meta.block_count(piece) {
                    Step {
                        state: Phase::SendRequest { piece, block: block + 1, data: grown },
                        queue,
                        action: ActionView::Send(meta.request_for(piece, block + 1)),
                    }
                } else {
                    conclude(meta, piece, grown, sha1_of(grown), queue)
                }
            } else {
                abandon(meta, piece, queue)
            },
            _ => abandon(meta, piece, queue),
        },
        Phase::Delivering { piece } => match event {
            EventView::Delivered => next_piece(meta, queue),
            _ => fail(SessionError::Undeliverable, queue),
        },
        Phase::Done => Step { state: Phase::Done, queue, action: ActionView::Stop },
        Phase::Failed(e) => fail(e, queue),
    }
}

/// One peer of a download: the torrent, and the peer's address.
#[derive(Debug)]
pub struct Worker {
    pub torrent: Arc<Torrent>,
    pub peer: String,
}

impl Worker {
    /// Largest block that is asked for in one request.
    pub const BLOCK_SIZE: usize = 16384;

    /// A worker for the peer at address `peer`.
    pub fn new(torrent: Arc<Torrent>, peer: String) -> (worker: Self)
        ensures
            worker.torrent == torrent,
            worker.peer == peer,
    {
        Self { torrent, peer }
    }

    /// What this worker's sessions read of the torrent.
    pub open spec fn meta(&self) -> TorrentMetadata {
        self.torrent.info.metadata()
    }

    /// Whether a session can run on this worker's torrent.
    pub open spec fn ready(&self) -> bool {
        &&& self.torrent.info.keys is SingleFile
        &&& self.meta().fits()
    }

    /// Why no session can run on this worker's torrent, where none can.
    pub open spec fn start_error(&self) -> SessionError {
        if self.torrent.info.keys is MultiFile {
            SessionError::MultiFile
        } else {
            SessionError::Unfit
        }
    }

    /// The peer id that this client presents.
    pub open spec fn spec_peer_id() -> Seq<u8> {
        seq![
            48u8, 48u8, 49u8, 49u8, 50u8, 50u8, 51u8, 51u8, 52u8, 52u8, 53u8, 53u8, 54u8, 54u8,
            55u8, 55u8, 56u8, 56u8, 57u8, 57u8,
        ]
    }

    /// The handshake that this client opens a connection with.
    pub fn handshake(&self, info_hash: [u8; 20]) -> (handshake: Handshake)
        ensures
            handshake.length == 19,
            handshake.protocol@ == crate::handshake::protocol_name(),
            handshake.reserved@ == Seq::new(8, |i: int| 0u8),
            handshake.info_hash == info_hash,
            handshake.peer_id@ == Self::spec_peer_id(),
    {
        let peer_id: [u8; 20] = [
            48,
            48,
            49,
            49,
            50,
            50,
            51,
            51,
            52,
            52,
            53,
            53,
            54,
            54,
            55,
            55,
            56,
            56,
            57,
            57,
        ];
        assert(peer_id@ =~= Self::spec_peer_id());
        Handshake::new(info_hash, peer_id)
    }

    /// Opens a session, which waits for the peer's bitfield. A torrent of
    /// several files, or one whose piece length or piece count does not fit
    /// a request, is refused.
    pub fn start(&self) -> (result: Result<SessionState, SessionError>)
        ensures
            result is Ok <==> self.ready(),
            result matches Ok(state) ==> state@ == Phase::AwaitBitfield,
            result matches Err(error) ==> error == self.start_error(),
    {
        let info = &self.torrent.info;
        if info.file_length().is_none() {
            return Err(SessionError::MultiFile);
        }
        if info.plength == 0 || info.plength > u32::MAX as usize {
            return Err(SessionError::Unfit);
        }
        if info.pieces.num_pieces() > u32::MAX as usize {
            return Err(SessionError::Unfit);
        }
        Ok(SessionState::AwaitBitfield)
    }

    /// Bytes in piece `piece`.
    pub fn piece_size(&self, piece: usize) -> (size: usize)
        requires
            self.ready(),
            piece < self.meta().num_pieces(),
        ensures
            size == self.meta().piece_size(piece as int),
            0 < size <= self.meta().piece_length,
    {
        let info = &self.torrent.info;
        let length: usize = match info.file_length() {
            Some(length) => length,
            None => 0,
        };
        get_residual_size(piece, info.pieces.num_pieces(), length, info.plength)
    }

    /// Number of blocks that `size` bytes are fetched in.
    pub fn block_count(size: usize) -> (count: usize)
        ensures
            count == chunk_count(size as int, Self::BLOCK_SIZE as int),
            size > 0 ==> (count - 1) * Self::BLOCK_SIZE < size <= count * Self::BLOCK_SIZE,
    {
        get_chunk_count(size, Self::BLOCK_SIZE)
    }

    /// The request message for block `block` of piece `piece`.
    pub fn request(&self, piece: usize, block: usize) -> (message: Message)
        requires
            self.ready(),
            piece < self.meta().num_pieces(),
            block < self.meta().block_count(piece as int),
        ensures
            message@ == self.meta().request_for(piece as int, block as int),
    {
        let size = self.piece_size(piece);
        let count = Self::block_count(size);
        let length = get_residual_size(block, count, size, Self::BLOCK_SIZE);
        let request = Request {
            index: piece as u32,
            begin: (block * Self::BLOCK_SIZE) as u32,
            length: length as u32,
        };
        let bytes = request.as_bytes();
        Message { id: MessageType::Request, payload: slice_to_vec(bytes.as_slice()) }
    }

    /// Turns to the index that has waited longest, or ends the session in
    /// order where nothing is pending.
    pub fn next_piece(&self, queue: &mut PiecesQueue) -> (next: (SessionState, Action))
        requires
            self.ready(),
            queue_within(old(queue)@, self.meta().num_pieces()),
        ensures
            next.0@ == next_piece(self.meta(), old(queue)@).state,
            next.1@ == next_piece(self.meta(), old(queue)@).action,
            final(queue)@ == next_piece(self.meta(), old(queue)@).queue,
            next.0@.wf(self.meta()),
            queue_within(final(queue)@, self.meta().num_pieces()),
    {
        match queue.take_piece() {
            None => (SessionState::Done, Action::Stop),
            Some(piece) => {
                let size = self.piece_size(piece);
                let message = self.request(piece, 0);
                (
                    SessionState::SendRequest { piece, block: 0, data: Vec::with_capacity(size) },
                    Action::Send(message),
                )
            },
        }
    }

    /// Gives `piece` back to the queue and turns to the next piece.
    pub fn abandon(&self, piece: usize, queue: &mut PiecesQueue) -> (next: (SessionState, Action))
        requires
            self.ready(),
            piece < self.meta().num_pieces(),
            queue_within(old(queue)@, self.meta().num_pieces()),
        ensures
            next.0@ == abandon(self.meta(), piece as int, old(queue)@).state,
            next.1@ == abandon(self.meta(), piece as int, old(queue)@).action,
            final(queue)@ == abandon(self.meta(), piece as int, old(queue)@).queue,
            next.0@.wf(self.meta()),
            queue_within(final(queue)@, self.meta().num_pieces()),
    {
        queue.push_piece(piece);
        self.next_piece(queue)
    }

    /// Decides on a piece whose blocks are all in, given the digest of its
    /// bytes: the piece is handed over where the digest is the expected
    /// one; where it is not, the bytes are dropped and the piece is given
    /// back to the queue.
    pub fn conclude_piece(
        &self,
        piece: usize,
        data: Vec<u8>,
        digest: &[u8; 20],
        queue: &mut PiecesQueue,
    ) -> (next: (SessionState, Action))
        requires
            self.ready(),
            piece < self.meta().num_pieces(),
            queue_within(old(queue)@, self.meta().num_pieces()),
        ensures
            next.0@ == conclude(self.meta(), piece as int, data@, digest@, old(queue)@).state,
            next.1@ == conclude(self.meta(), piece as int, data@, digest@, old(queue)@).action,
            final(queue)@ == conclude(self.meta(), piece as int, data@, digest@, old(queue)@).queue,
            next.0@.wf(self.meta()),
            queue_within(final(queue)@, self.meta().num_pieces()),
    {
        let expected: &[u8; 20] = &self.torrent.info.pieces.0[piece];
        if same_bytes(digest.as_slice(), expected.as_slice()) {
            (SessionState::Delivering { piece }, Action::Deliver { index: piece, data })
        } else {
            self.abandon(piece, queue)
        }
    }

    /// Whether `message` answers the request for block `block` of piece
    /// `piece`.
    pub fn answers(&self, piece: usize, block: usize, message: &Message) -> (yes: bool)
        requires
            self.ready(),
            piece < self.meta().num_pieces(),
            block < self.meta().block_count(piece as int),
        ensures
            yes == self.meta().answers(piece as int, block as int, message@),
    {
        match message.id {
            MessageType::Piece => {},
            _ => {
                return false;
            },
        }
        let size = self.piece_size(piece);
        let count = Self::block_count(size);
        let length = get_residual_size(block, count, size, Self::BLOCK_SIZE);
        match Piece::load_from_payload(message.payload.as_slice()) {
            None => false,
            Some(p) => p.index as usize == piece && p.begin as usize == block * Self::BLOCK_SIZE
                && p.piece.len() == length,
        }
    }

    /// One transition of a session: from where it stands and what the
    /// caller saw, to where it stands next and what the caller is to do.
    /// The queue loses the index that the session turns to and gains the
    /// one that it gives up. A piece that is handed over is whole and has
    /// the digest that the torrent expects of it.
    pub fn step(&self, state: SessionState, event: Event, queue: &mut PiecesQueue) -> (next: (
        SessionState,
        Action,
    ))
        requires
            self.ready(),
            state@.wf(self.meta()),
            queue_within(old(queue)@, self.meta().num_pieces()),
        ensures
            next.0@ == step(self.meta(), state@, event@, old(queue)@).state,
            next.1@ == step(self.meta(), state@, event@, old(queue)@).action,
            final(queue)@ == step(self.meta(), state@, event@, old(queue)@).queue,
            next.0@.wf(self.meta()),
            queue_within(final(queue)@, self.meta().num_pieces()),
            next.1 matches Action::Deliver { index, data } ==> {
                &&& index < self.meta().num_pieces()
                &&& data@.len() == self.meta().piece_size(index as int)
                &&& sha1_of(data@) == self.meta().hashes[index as int]
            },
    {
        proof {
            lemma_delivered_piece_is_verified(self.meta(), state@, event@, queue@);
        }
        match state {
            SessionState::AwaitBitfield => match event {
                Event::Received(m) => match m.id {
                    MessageType::Bitfield => (
                        SessionState::SendInterested,
                        Action::Send(Message { id: MessageType::Interested, payload: Vec::new() }),
                    ),
                    _ => (SessionState::Failed(SessionError::ExpectedBitfield), Action::Stop),
                },
                _ => (SessionState::Failed(SessionError::Network), Action::Stop),
            },
            SessionState::SendInterested => match event {
                Event::Sent => (SessionState::AwaitUnchoke, Action::Receive),
                _ => (SessionState::Failed(SessionError::Network), Action::Stop),
            },
            SessionState::AwaitUnchoke => match event {
                Event::Received(m) => match m.id {
                    MessageType::Unchoke => if m.payload.len() == 0 {
                        self.next_piece(queue)
                    } else {
                        (SessionState::Failed(SessionError::ExpectedUnchoke), Action::Stop)
                    },
                    _ => (SessionState::Failed(SessionError::ExpectedUnchoke), Action::Stop),
                },
                _ => (SessionState::Failed(SessionError::Network), Action::Stop),
            },
            SessionState::SendRequest { piece, block, data } => match event {
                Event::Sent => (SessionState::AwaitBlock { piece, block, data }, Action::Receive),
                _ => {
                    queue.push_piece(piece);
                    (SessionState::Failed(SessionError::Network), Action::Stop)
                },
            },
            SessionState::AwaitBlock { piece, block, data } => match event {
                Event::Received(m) => {
                    if self.answers(piece, block, &m) {
                        let mut data = data;
                        let size = self.piece_size(piece);
                        let count = Self::block_count(size);
                        data.extend_from_slice(&m.payload.as_slice()[8..m.payload.len()]);
                        assert(data@ =~= state@->AwaitBlock_data + m.payload@.skip(8));
                        if block + 1 < count {
                            let message = self.request(piece, block + 1);
                            (
                                SessionState::SendRequest { piece, block: block + 1, data },
                                Action::Send(message),
                            )
                        } else {
                            let digest = sha1_digest(data.as_slice());
                            self.conclude_piece(piece, data, &digest, queue)
                        }
                    } else {
                        self.abandon(piece, queue)
                    }
                },
                _ => self.abandon(piece, queue),
            },
            SessionState::Delivering { piece } => match event {
                Event::Delivered => self.next_piece(queue),
                _ => (SessionState::Failed(SessionError::Undeliverable), Action::Stop),
            },
            SessionState::Done => (SessionState::Done, Action::Stop),
            SessionState::Failed(e) => (SessionState::Failed(e), Action::Stop),
        }
    }
}

/// The blocks of a piece add up to the piece: the blocks before the last
/// are full, and the last one ends where the piece ends.
pub proof fn lemma_blocks_fill_piece(meta: TorrentMetadata, piece: int)
    requires
        meta.piece_size(piece) > 0,
    ensures
        meta.block_count(piece) >= 1,
        forall|block: int|
            0 <= block < meta.block_count(piece) - 1 ==> #[trigger] meta.block_size(piece, block)
                == Worker::BLOCK_SIZE,
        (meta.block_count(piece) - 1) * Worker::BLOCK_SIZE + meta.block_size(
            piece,
            meta.block_count(piece) - 1,
        ) == meta.piece_size(piece),
        0 < meta.block_size(piece, meta.block_count(piece) - 1) <= Worker::BLOCK_SIZE,
{
}

/// A transition leaves the session well-formed and the queue within the
/// torrent's pieces.
pub proof fn lemma_step_keeps_wf(
    meta: TorrentMetadata,
    state: Phase,
    event: EventView,
    queue: Seq<usize>,
)
    requires
        meta.fits(),
        state.wf(meta),
        queue_within(queue, meta.num_pieces()),
    ensures
        step(meta, state, event, queue).state.wf(meta),
        queue_within(step(meta, state, event, queue).queue, meta.num_pieces()),
{
    let next = step(meta, state, event, queue);
    match state {
        Phase::SendRequest { piece, block, data } | Phase::AwaitBlock { piece, block, data } => {
            assert(meta.piece_size(piece) > 0);
            lemma_blocks_fill_piece(meta, piece);
            let returned = queue.push(piece as usize);
            assert(queue_within(returned, meta.num_pieces()));
            assert(returned.len() > 0);
            assert(meta.piece_size(returned[0] as int) > 0);
            lemma_blocks_fill_piece(meta, returned[0] as int);
            assert(queue_within(returned.drop_first(), meta.num_pieces()));
        },
        _ => {},
    }
    if queue.len() > 0 {
        assert(meta.piece_size(queue[0] as int) > 0);
        lemma_blocks_fill_piece(meta, queue[0] as int);
        assert(queue_within(queue.drop_first(), meta.num_pieces()));
    }
}

/// A piece is handed over only when its last block has arrived, and then
/// it is whole and has the digest that the torrent expects of it.
pub proof fn lemma_delivered_piece_is_verified(
    meta: TorrentMetadata,
    state: Phase,
    event: EventView,
    queue: Seq<usize>,
)
    requires
        meta.fits(),
        state.wf(meta),
    ensures
        step(meta, state, event, queue).action matches ActionView::Deliver { index, data } ==> {
            &&& state matches Phase::AwaitBlock { piece, .. }
            &&& index == piece
            &&& 0 <= index < meta.num_pieces()
            &&& data.len() == meta.piece_size(index)
            &&& sha1_of(data) == meta.hashes[index]
            &&& step(meta, state, event, queue).state == (Phase::Delivering { piece: index })
            &&& step(meta, state, event, queue).queue == queue
        },
{
    match state {
        Phase::AwaitBlock { piece, block, data } => {
            assert(meta.piece_size(piece) > 0);
            lemma_blocks_fill_piece(meta, piece);
        },
        _ => {},
    }
}

/// Whatever arrives in place of the block that was asked for (another
/// message, a block for another piece or offset, one of another length, or
/// nothing because reading failed), the piece goes to the back of the queue
/// and the session goes on with the index in front, asking for its first
/// block. It does not end.
pub proof fn lemma_failed_block_requeues(
    meta: TorrentMetadata,
    piece: int,
    block: int,
    data: Seq<u8>,
    event: EventView,
    queue: Seq<usize>,
)
    requires
        0 <= piece <= usize::MAX,
        !(event matches EventView::Received(m) && meta.answers(piece, block, m)),
    ensures
        ({
            let next = step(meta, Phase::AwaitBlock { piece, block, data }, event, queue);
            let returned = queue.push(piece as usize);
            &&& next.queue == returned.drop_first()
            &&& next.queue.len() == queue.len()
            &&& queue.len() == 0 ==> next.queue.len() == 0
            &&& queue.len() > 0 ==> next.queue.last() == piece
            &&& next.state == (Phase::SendRequest {
                piece: returned[0] as int,
                block: 0,
                data: Seq::empty(),
            })
            &&& next.action == ActionView::Send(meta.request_for(returned[0] as int, 0))
        }),
{
}

/// A request that could not be written costs the session, not the piece:
/// the index goes to the back of the queue.
pub proof fn lemma_failed_request_requeues(
    meta: TorrentMetadata,
    piece: int,
    block: int,
    data: Seq<u8>,
    event: EventView,
    queue: Seq<usize>,
)
    requires
        event != EventView::Sent,
    ensures
        step(meta, Phase::SendRequest { piece, block, data }, event, queue) == fail(
            SessionError::Network,
            queue.push(piece as usize),
        ),
{
}

/// The piece that a session works on, if it works on one.
pub open spec fn in_work(state: Phase) -> Option<int> {
    match state {
        Phase::SendRequest { piece, .. } | Phase::AwaitBlock { piece, .. } | Phase::Delivering {
            piece,
        } => Some(piece),
        _ => None,
    }
}

/// No piece is lost while it is being fetched: after any transition of a
/// session that asks for blocks of a piece, the session still works on the
/// piece or the piece is pending in the queue.
pub proof fn lemma_piece_stays_accounted(
    meta: TorrentMetadata,
    state: Phase,
    event: EventView,
    queue: Seq<usize>,
)
    requires
        state is SendRequest || state is AwaitBlock,
        0 <= in_work(state)->0 <= usize::MAX,
    ensures
        in_work(step(meta, state, event, queue).state) == in_work(state) || step(
            meta,
            state,
            event,
            queue,
        ).queue.contains(in_work(state)->0 as usize),
{
    let piece = in_work(state)->0;
    let returned = queue.push(piece as usize);
    assert(returned[queue.len() as int] == piece);
    if queue.len() > 0 {
        assert(returned.drop_first()[queue.len() - 1] == piece);
    }
}

/// A session touches the queue by the queue's two calls only: it gives
/// back the piece that it works on, and it takes the index in front. It
/// never gives back an index that it does not hold.
pub proof fn lemma_session_returns_only_its_piece(
    meta: TorrentMetadata,
    state: Phase,
    event: EventView,
    queue: Seq<usize>,
)
    ensures
        ({
            let next = step(meta, state, event, queue).queue;
            ||| next == queue
            ||| next == after(queue, QueueCall::Take)
            ||| in_work(state) matches Some(piece) && next == after(
                queue,
                QueueCall::Return(piece as usize),
            )
            ||| in_work(state) matches Some(piece) && next == after(
                after(queue, QueueCall::Return(piece as usize)),
                QueueCall::Take,
            )
        }),
{
}

/// Requests are not pipelined: once a request is handed out, the session
/// waits for it to be written and then for one message, before it hands
/// out anything else.
pub proof fn lemma_one_request_at_a_time(
    meta: TorrentMetadata,
    state: Phase,
    event: EventView,
    queue: Seq<usize>,
)
    requires
        step(meta, state, event, queue).action matches ActionView::Send(m) && m.id
            == MessageType::Request,
    ensures
        ({
            let asked = step(meta, state, event, queue);
            let written = step(meta, asked.state, EventView::Sent, asked.queue);
            &&& asked.state matches Phase::SendRequest { piece, block, .. }
            &&& asked.action == ActionView::Send(meta.request_for(piece, block))
            &&& written.state matches Phase::AwaitBlock { piece: p, block: b, .. }
            &&& p == piece && b == block
            &&& written.action == ActionView::Receive
            &&& written.queue == asked.queue
        }),
{
}

} // verus!
