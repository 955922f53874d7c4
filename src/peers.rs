use vstd::prelude::*;
use vstd::string::*;
use vstd::utf8::*;
use crate::BLOCK_SIZE;
use crate::bitfield::{Bitfield, bit_at, bytes_for, lemma_mark_sets_only, marked, zeros};
use crate::download_manager::{PieceProgress, concat_blocks, overlay};
use crate::message::{Message, MessageView, WireError, decode_view, result_view};

verus! {

/// The protocol name of the standard handshake.
pub const PROTOCOL_NAME: &'static str = "BitTorrent protocol";

/// The opening message of a connection, sent once in each direction.
#[derive(Debug)]
pub struct HandShake {
    pub protocol: String,
    pub reserved: Vec<u8>,
    pub info_hash: Vec<u8>,
    pub peer_id: Vec<u8>,
}

/// Why a handshake response does not decode.
#[derive(Debug, Clone, Copy, PartialEq, Eq, Structural)]
pub enum HandshakeError {
    /// The bytes end before the protocol name, reserved bytes and both identifiers.
    TooShort,
    /// The protocol name is not valid UTF-8 text.
    InvalidProtocolName,
    /// The response names other content than the transfer it answers.
    OtherContent,
}

/// The mathematical value of a [`HandShake`].
pub struct HandshakeView {
    pub protocol: Seq<char>,
    pub reserved: Seq<u8>,
    pub info_hash: Seq<u8>,
    pub peer_id: Seq<u8>,
}

impl View for HandShake {
    type V = HandshakeView;

    open spec fn view(&self) -> HandshakeView {
        HandshakeView {
            protocol: self.protocol@,
            reserved: self.reserved@,
            info_hash: self.info_hash@,
            peer_id: self.peer_id@,
        }
    }
}

/// The wire encoding of a handshake: the name's byte length in one byte, the
/// name's UTF-8 bytes, the reserved bytes, the content id, the sender's id.
pub open spec fn handshake_bytes(h: HandshakeView) -> Seq<u8> {
    seq![encode_utf8(h.protocol).len() as u8] + encode_utf8(h.protocol) + h.reserved + h.info_hash
        + h.peer_id
}

/// Whether a handshake response is too short: under 48 bytes, or under
/// 49 bytes plus the announced protocol-name length.
pub open spec fn handshake_too_short(b: Seq<u8>) -> bool {
    b.len() < 48 || b.len() < 49 + b[0]
}

/// Decoding of a handshake response; bytes after the peer id are not read.
pub open spec fn decode_handshake(b: Seq<u8>) -> Result<HandshakeView, HandshakeError> {
    if handshake_too_short(b) {
        Err(HandshakeError::TooShort)
    } else {
        let n = b[0] as int;
        if !valid_utf8(b.subrange(1, 1 + n)) {
            Err(HandshakeError::InvalidProtocolName)
        } else {
            Ok(
                HandshakeView {
                    protocol: decode_utf8(b.subrange(1, 1 + n)),
                    reserved: b.subrange(1 + n, 9 + n),
                    info_hash: b.subrange(9 + n, 29 + n),
                    peer_id: b.subrange(29 + n, 49 + n),
                },
            )
        }
    }
}

/// The value of a handshake decoding result.
pub open spec fn handshake_result_view(r: Result<HandShake, HandshakeError>) -> Result<
    HandshakeView,
    HandshakeError,
> {
    match r {
        Ok(h) => Ok(h@),
        Err(e) => Err(e),
    }
}

/// Relies on std::str::from_utf8: it accepts exactly the valid UTF-8 byte
/// sequences, and then gives the text they encode.
#[verifier::external_body]
fn utf8_text(bytes: &[u8]) -> (r: Option<String>)
    ensures
        r is Some <==> valid_utf8(bytes@),
        r is Some ==> r->Some_0@ == decode_utf8(bytes@),
{
    match std::str::from_utf8(bytes) {
        Ok(text) => Some(text.to_string()),
        Err(_) => None,
    }
}

/// Decoding a handshake's encoding gives it back, for any protocol name that
/// fits the one-byte length, 8 reserved bytes and 20-byte identifiers; a
/// response of fewer than 48 bytes is always refused as too short.
pub proof fn lemma_handshake_round_trip(h: HandshakeView, short: Seq<u8>)
    requires
        encode_utf8(h.protocol).len() < 256,
        h.reserved.len() == 8,
        h.info_hash.len() == 20,
        h.peer_id.len() == 20,
        short.len() < 48,
    ensures
        decode_handshake(handshake_bytes(h)) == Ok::<HandshakeView, HandshakeError>(h),
        decode_handshake(short) == Err::<HandshakeView, HandshakeError>(HandshakeError::TooShort),
{
    let b = handshake_bytes(h);
    let name = encode_utf8(h.protocol);
    let n = name.len() as int;
    assert(b[0] as int == n);
    assert(b.subrange(1, 1 + n) =~= name);
    assert(b.subrange(1 + n, 9 + n) =~= h.reserved);
    assert(b.subrange(9 + n, 29 + n) =~= h.info_hash);
    assert(b.subrange(29 + n, 49 + n) =~= h.peer_id);
    encode_utf8_valid_utf8(h.protocol);
    encode_utf8_decode_utf8(h.protocol);
}

impl HandShake {
    /// The handshake this client sends: the standard protocol name, eight
    /// zero reserved bytes, the content id and the client's own id.
    pub fn standard(info_hash: &[u8], peer_id: &str) -> (r: HandShake)
        ensures
            r.protocol@ == PROTOCOL_NAME@,
            r.reserved@ == seq![0u8, 0u8, 0u8, 0u8, 0u8, 0u8, 0u8, 0u8],
            r.info_hash@ == info_hash@,
            r.peer_id@ == encode_utf8(peer_id@),
    {
        let reserved: Vec<u8> = vec![0u8, 0u8, 0u8, 0u8, 0u8, 0u8, 0u8, 0u8];
        let mut hash: Vec<u8> = Vec::new();
        crate::message::push_all(&mut hash, info_hash);
        let mut id: Vec<u8> = Vec::new();
        crate::message::push_all(&mut id, peer_id.as_bytes());
        assert(hash@ =~= info_hash@);
        assert(id@ =~= encode_utf8(peer_id@));
        HandShake {
            protocol: String::from_str(PROTOCOL_NAME),
            reserved,
            info_hash: hash,
            peer_id: id,
        }
    }

    /// Whether this handshake names the content `info_hash`; a response
    /// that names other content is for another transfer.
    pub fn is_for(&self, info_hash: &[u8]) -> (r: bool)
        ensures
            r == (self.info_hash@ == info_hash@),
    {
        if self.info_hash.len() != info_hash.len() {
            return false;
        }
        let mut k: usize = 0;
        while k < info_hash.len()
            invariant
                k <= info_hash@.len(),
                self.info_hash@.len() == info_hash@.len(),
                forall|j: int| 0 <= j < k ==> self.info_hash@[j] == info_hash@[j],
            decreases info_hash@.len() - k,
        {
            if self.info_hash[k] != info_hash[k] {
                return false;
            }
            k = k + 1;
        }
        assert(self.info_hash@ =~= info_hash@);
        true
    }

    /// Decodes a peer's handshake response and accepts it only when it names
    /// the content `info_hash`: a peer answering for other content cannot
    /// serve this transfer.
    pub fn accept_response(payload: Vec<u8>, info_hash: &[u8]) -> (r: Result<
        Self,
        HandshakeError,
    >)
        ensures
            match decode_handshake(payload@) {
                Err(e) => r == Err::<HandShake, HandshakeError>(e),
                Ok(h) => if h.info_hash == info_hash@ {
                    r is Ok && r->Ok_0@ == h
                } else {
                    r == Err::<HandShake, HandshakeError>(HandshakeError::OtherContent)
                },
            },
    {
        let response = HandShake::from_bytes(payload)?;
        if response.is_for(info_hash) {
            Ok(response)
        } else {
            Err(HandshakeError::OtherContent)
        }
    }

    /// The wire encoding; the protocol name must fit its one-byte length.
    pub fn as_bytes(&self) -> (r: Vec<u8>)
        requires
            encode_utf8(self.protocol@).len() < 256,
        ensures
            r@ == handshake_bytes(self@),
    {
        let name: &[u8] = self.protocol.as_str().as_bytes();
        let mut out: Vec<u8> = Vec::new();
        out.push(name.len() as u8);
        crate::message::push_all(&mut out, name);
        crate::message::push_all(&mut out, self.reserved.as_slice());
        crate::message::push_all(&mut out, self.info_hash.as_slice());
        crate::message::push_all(&mut out, self.peer_id.as_slice());
        assert(out@ =~= handshake_bytes(self@));
        out
    }

    /// Decodes a handshake response; see [`decode_handshake`].
    pub fn from_bytes(payload: Vec<u8>) -> (r: Result<Self, HandshakeError>)
        ensures
            handshake_result_view(r) == decode_handshake(payload@),
    {
        if payload.len() < 48 {
            return Err(HandshakeError::TooShort);
        }
        let n = payload[0] as usize;
        if payload.len() < 49 + n {
            return Err(HandshakeError::TooShort);
        }
        let bytes = payload.as_slice();
        let name = crate::message::copy_range(bytes, 1, 1 + n);
        let protocol = match utf8_text(name.as_slice()) {
            Some(text) => text,
            None => {
                return Err(HandshakeError::InvalidProtocolName);
            },
        };
        let reserved = crate::message::copy_range(bytes, 1 + n, 9 + n);
        let info_hash = crate::message::copy_range(bytes, 9 + n, 29 + n);
        let peer_id = crate::message::copy_range(bytes, 29 + n, 49 + n);
        Ok(HandShake { protocol, reserved, info_hash, peer_id })
    }
}

/// A piece index beyond the bitmap that a peer advertised.
#[derive(Debug, Clone, Copy, PartialEq, Eq, Structural)]
pub struct PieceOutOfRange {
    pub index: u64,
}

/// The bytes of a bitmap that may not have been received yet.
pub open spec fn bits_of(bf: Option<Bitfield>) -> Option<Seq<u8>> {
    match bf {
        Some(b) => Some(b.0@),
        None => None,
    }
}

/// `b` extended with zero bytes to at least `n` bytes.
pub open spec fn grown(b: Seq<u8>, n: nat) -> Seq<u8> {
    if b.len() >= n {
        b
    } else {
        b + zeros((n - b.len()) as nat)
    }
}

/// A peer's advertised bitmap after a message from it: a `Have` marks its
/// piece, first creating the bitmap or growing it with clear bits when it
/// does not reach that index yet; a `Bitfield` replaces the bitmap;
/// anything else leaves it.
pub open spec fn after_message(bf: Option<Seq<u8>>, m: MessageView) -> Option<Seq<u8>> {
    match m {
        MessageView::Have(i) => {
            let base = match bf {
                Some(b) => b,
                None => Seq::empty(),
            };
            Some(marked(grown(base, bytes_for((i + 1) as nat)), i as int))
        },
        MessageView::Bitfield(b) => Some(b),
        _ => bf,
    }
}

/// After a `Have` for piece `i`, the peer's bitmap is known, holds `i`,
/// marks it, and keeps every other bit it had before.
pub proof fn lemma_have_marks(bf: Option<Seq<u8>>, i: u64)
    ensures
        after_message(bf, MessageView::Have(i)) is Some,
        ({
            let b = after_message(bf, MessageView::Have(i))->Some_0;
            &&& i < b.len() * 8
            &&& bit_at(b, i as int)
            &&& bf is Some ==> b.len() >= bf->Some_0.len()
            &&& bf is Some ==> forall|j: int|
                0 <= j < bf->Some_0.len() * 8 && j != i ==> #[trigger] bit_at(b, j) == bit_at(
                    bf->Some_0,
                    j,
                )
        }),
{
    let base = match bf {
        Some(b) => b,
        None => Seq::empty(),
    };
    let g = grown(base, bytes_for((i + 1) as nat));
    assert(i < g.len() * 8);
    lemma_mark_sets_only(g, i as int);
    assert forall|j: int| 0 <= j < base.len() * 8 implies #[trigger] bit_at(g, j) == bit_at(
        base,
        j,
    ) by {
        assert(g[j / 8] == base[j / 8]);
    }
}

/// Extends `v` with zero bytes to at least `n` bytes.
fn grow_to(v: &mut Vec<u8>, n: usize)
    ensures
        final(v)@ == grown(old(v)@, n as nat),
{
    if v.len() >= n {
        return;
    }
    while v.len() < n
        invariant
            v@.len() <= n,
            old(v)@.len() < n,
            v@ == old(v)@ + zeros((v@.len() - old(v)@.len()) as nat),
        decreases n - v@.len(),
    {
        v.push(0u8);
        assert(v@ =~= old(v)@ + zeros((v@.len() - old(v)@.len()) as nat));
    }
}

/// The request for the block of piece `piece` that starts at `begin`: one
/// block size, or the rest of the piece when less is left.
pub open spec fn block_request(piece: u64, begin: u64, piece_length: u64) -> MessageView {
    let size = if piece_length - begin < BLOCK_SIZE {
        (piece_length - begin) as u64
    } else {
        BLOCK_SIZE
    };
    MessageView::Request(piece, begin, size)
}

/// Whether a message is a reply that fills a block of `progress`: a `Piece`
/// for its index whose offset falls inside it.
pub open spec fn fills_block(progress: PieceProgress, m: MessageView) -> bool {
    match m {
        MessageView::Piece(index, begin, _) => index == progress.index && begin / BLOCK_SIZE
            < progress.blocks@.len(),
        _ => false,
    }
}

/// The blocks of `blocks` after the reply `(begin, data)` was stored in the
/// block that holds offset `begin`.
pub open spec fn stored(blocks: Seq<Seq<u8>>, begin: u64, data: Seq<u8>) -> Seq<Seq<u8>> {
    let k = (begin / BLOCK_SIZE) as int;
    blocks.update(k, overlay(blocks[k], data))
}

/// The state of the exchange with one peer, apart from the connection itself.
pub struct Peer {
    pub am_choking: bool,
    pub am_interested: bool,
    pub is_choking: bool,
    pub is_interested: bool,
    pub address: String,
    pub peer_id: Option<String>,
    pub bit_field: Option<Bitfield>,
    pub message_backlog: Vec<Message>,
}

impl Peer {
    /// A fresh session: both sides choking and not interested, no bitmap
    /// seen yet, an empty backlog.
    pub fn new(address: String) -> (r: Self)
        ensures
            r.am_choking,
            !r.am_interested,
            r.is_choking,
            !r.is_interested,
            r.address@ == address@,
            r.peer_id is None,
            r.bit_field is None,
            r.message_backlog@.len() == 0,
    {
        Peer {
            am_choking: true,
            am_interested: false,
            is_choking: true,
            is_interested: false,
            address,
            peer_id: None,
            bit_field: None,
            message_backlog: Vec::new(),
        }
    }

    /// Decodes one received frame and records what it says of the peer's
    /// pieces: a `Have` marks the piece in the advertised bitmap, a
    /// `Bitfield` becomes that bitmap.
    pub fn next_message(&mut self, frame: &[u8]) -> (r: Result<Message, WireError>)
        ensures
            result_view(r) == decode_view(frame@),
            bits_of(final(self).bit_field) == match r {
                Ok(m) => after_message(bits_of(old(self).bit_field), m@),
                Err(_) => bits_of(old(self).bit_field),
            },
            final(self).am_choking == old(self).am_choking,
            final(self).am_interested == old(self).am_interested,
            final(self).is_choking == old(self).is_choking,
            final(self).is_interested == old(self).is_interested,
            final(self).address == old(self).address,
            final(self).peer_id == old(self).peer_id,
            final(self).message_backlog == old(self).message_backlog,
    {
        let r = Message::from_bytes(frame);
        match &r {
            Ok(Message::Have(index)) => {
                self.set_piece(index);
            },
            Ok(Message::Bitfield(bits)) => {
                let mut copy: Vec<u8> = Vec::new();
                crate::message::push_all(&mut copy, bits.as_slice());
                assert(copy@ =~= bits@);
                self.bit_field = Some(Bitfield::from(copy));
            },
            _ => {},
        }
        r
    }

    /// Marks a piece the peer announced, creating or growing the bitmap
    /// when it does not reach that piece yet.
    fn set_piece(&mut self, piece: &u64)
        requires
            *piece < crate::message::WIRE_INT_LIMIT,
        ensures
            bits_of(final(self).bit_field) == after_message(
                bits_of(old(self).bit_field),
                MessageView::Have(*piece),
            ),
            final(self).am_choking == old(self).am_choking,
            final(self).am_interested == old(self).am_interested,
            final(self).is_choking == old(self).is_choking,
            final(self).is_interested == old(self).is_interested,
            final(self).address == old(self).address,
            final(self).peer_id == old(self).peer_id,
            final(self).message_backlog == old(self).message_backlog,
    {
        let needed = (*piece / 8 + 1) as usize;
        assert(needed == bytes_for((*piece + 1) as nat));
        if self.bit_field.is_none() {
            self.bit_field = Some(Bitfield(Vec::new()));
        }
        match &mut self.bit_field {
            Some(bitfield) => {
                grow_to(&mut bitfield.0, needed);
                let index = *piece as usize;
                bitfield.set_piece(&index);
            },
            None => {},
        }
    }

    /// Whether the peer has piece `piece`: `None` while no bitmap was
    /// received, an error when the index lies beyond the received bitmap.
    pub fn has_piece(&self, piece: &u64) -> (r: Result<Option<bool>, PieceOutOfRange>)
        ensures
            match bits_of(self.bit_field) {
                None => r == Ok::<Option<bool>, PieceOutOfRange>(None),
                Some(b) => if *piece < b.len() * 8 {
                    r == Ok::<Option<bool>, PieceOutOfRange>(Some(bit_at(b, *piece as int)))
                } else {
                    r == Err::<Option<bool>, PieceOutOfRange>(PieceOutOfRange { index: *piece })
                },
            },
    {
        match &self.bit_field {
            None => Ok(None),
            Some(bitfield) => {
                if *piece / 8 < bitfield.0.len() as u64 {
                    let byte = bitfield.0[(*piece / 8) as usize];
                    let mask: u8 = 1u8 << ((*piece % 8) as u8);
                    Ok(Some(byte & mask != 0))
                } else {
                    Err(PieceOutOfRange { index: *piece })
                }
            },
        }
    }

    /// The request for the block of `piece` that starts at `begin`.
    pub fn request_block(&self, piece: u64, begin: u64, piece_length: u64) -> (r: Message)
        requires
            begin < piece_length,
        ensures
            r@ == block_request(piece, begin, piece_length),
    {
        let size = if piece_length - begin < BLOCK_SIZE {
            piece_length - begin
        } else {
            BLOCK_SIZE
        };
        Message::Request(piece, begin, size)
    }

    /// The requests that fetch a whole piece of `expected_length` bytes, one
    /// per block in ascending offset order.
    pub fn request_piece(&self, piece_index: u64, expected_length: u64) -> (r: Vec<Message>)
        ensures
            r@.len() == crate::download_manager::block_count(expected_length as nat),
            forall|k: int|
                0 <= k < r@.len() ==> (#[trigger] r@[k])@ == block_request(
                    piece_index,
                    (k * BLOCK_SIZE) as u64,
                    expected_length,
                ),
    {
        let count: u64 = if expected_length % BLOCK_SIZE == 0 {
            expected_length / BLOCK_SIZE
        } else {
            expected_length / BLOCK_SIZE + 1
        };
        let mut requests: Vec<Message> = Vec::new();
        let mut k: u64 = 0;
        while k < count
            invariant
                k <= count,
                count == crate::download_manager::block_count(expected_length as nat),
                requests@.len() == k,
                forall|j: int|
                    0 <= j < requests@.len() ==> (#[trigger] requests@[j])@ == block_request(
                        piece_index,
                        (j * BLOCK_SIZE) as u64,
                        expected_length,
                    ),
            decreases count - k,
        {
            let begin = k * BLOCK_SIZE;
            let request = self.request_block(piece_index, begin, expected_length);
            requests.push(request);
            k = k + 1;
        }
        requests
    }

    /// Takes one message received while fetching `piece_progress`. A reply
    /// that fills one of its blocks is copied into that block and `true` is
    /// returned; any other message is kept in the backlog.
    pub fn receive_block(&mut self, piece_progress: &mut PieceProgress, message: Message) -> (r:
        bool)
        requires
            old(piece_progress).wf(),
        ensures
            r == fills_block(*old(piece_progress), message@),
            final(piece_progress).wf(),
            final(piece_progress).index == old(piece_progress).index,
            r ==> match message@ {
                MessageView::Piece(_, begin, data) => final(piece_progress).blocks_view() == stored(
                    old(piece_progress).blocks_view(),
                    begin,
                    data,
                ),
                _ => false,
            },
            r ==> final(self).message_backlog@ == old(self).message_backlog@,
            !r ==> *final(piece_progress) == *old(piece_progress),
            !r ==> final(self).message_backlog@ == old(self).message_backlog@.push(message),
            final(self).bit_field == old(self).bit_field,
    {
        let fills = match &message {
            Message::Piece(index, begin, _) => *index == piece_progress.index && *begin / BLOCK_SIZE
                < piece_progress.blocks.len() as u64,
            _ => false,
        };
        if !fills {
            self.message_backlog.push(message);
            return false;
        }
        match &message {
            Message::Piece(_, begin, contents) => {
                let k = (*begin / BLOCK_SIZE) as usize;
                let old_block = &piece_progress.blocks[k];
                let mut block: Vec<u8> = Vec::new();
                let mut j: usize = 0;
                while j < old_block.len()
                    invariant
                        j <= old_block@.len(),
                        block@ == overlay(old_block@, contents@).take(j as int),
                    decreases old_block@.len() - j,
                {
                    if j < contents.len() {
                        block.push(contents[j]);
                    } else {
                        block.push(old_block[j]);
                    }
                    j = j + 1;
                    assert(block@ =~= overlay(old_block@, contents@).take(j as int));
                }
                assert(block@ =~= overlay(old_block@, contents@));
                piece_progress.blocks.set(k, block);
                assert(piece_progress.blocks_view() =~= stored(
                    old(piece_progress).blocks_view(),
                    *begin,
                    contents@,
                ));
            },
            _ => {},
        }
        true
    }
}

/// The two block replies of a two-block piece may arrive in either order:
/// storing them gives the same blocks, and when each reply carries its whole
/// block, the joined blocks are the piece's content.
pub proof fn lemma_two_block_reassembly(b0: Seq<u8>, b1: Seq<u8>, content: Seq<u8>)
    requires
        b0.len() == BLOCK_SIZE,
        b1.len() == BLOCK_SIZE,
        content.len() == 2 * BLOCK_SIZE,
    ensures
        ({
            let blocks = seq![b0, b1];
            let low = content.take(BLOCK_SIZE as int);
            let high = content.subrange(BLOCK_SIZE as int, 2 * BLOCK_SIZE as int);
            &&& stored(stored(blocks, 0, low), BLOCK_SIZE, high) == stored(
                stored(blocks, BLOCK_SIZE, high),
                0,
                low,
            )
            &&& concat_blocks(stored(stored(blocks, BLOCK_SIZE, high), 0, low)) == content
        }),
{
    let blocks = seq![b0, b1];
    let low = content.take(BLOCK_SIZE as int);
    let high = content.subrange(BLOCK_SIZE as int, 2 * BLOCK_SIZE as int);
    let one = stored(stored(blocks, 0, low), BLOCK_SIZE, high);
    let two = stored(stored(blocks, BLOCK_SIZE, high), 0, low);
    assert(overlay(b0, low) =~= low);
    assert(overlay(b1, high) =~= high);
    assert(one =~= seq![low, high]);
    assert(two =~= seq![low, high]);
    assert(two.drop_last() =~= seq![low]);
    assert(seq![low].drop_last() =~= Seq::<Seq<u8>>::empty());
    assert(seq![low].last() == low);
    assert(concat_blocks(Seq::<Seq<u8>>::empty()) == Seq::<u8>::empty());
    assert(concat_blocks(seq![low]) =~= Seq::<u8>::empty() + low);
    assert(concat_blocks(seq![low]) =~= low);
    assert(low + high =~= content);
}

/// A piece whose length is a whole number of blocks is requested in exactly
/// that many full-size blocks; any other length takes one block more, and
/// that last request asks only for the remainder.
pub proof fn lemma_request_count(piece: u64, len: u64)
    ensures
        len % BLOCK_SIZE == 0 ==> crate::download_manager::block_count(len as nat) == len
            / BLOCK_SIZE,
        len % BLOCK_SIZE == 0 ==> forall|k: int|
            0 <= k < len / BLOCK_SIZE ==> #[trigger] block_request(
                piece,
                (k * BLOCK_SIZE) as u64,
                len,
            ) == MessageView::Request(piece, (k * BLOCK_SIZE) as u64, BLOCK_SIZE),
        len % BLOCK_SIZE != 0 ==> crate::download_manager::block_count(len as nat) == len
            / BLOCK_SIZE + 1,
        len % BLOCK_SIZE != 0 ==> block_request(
            piece,
            ((len / BLOCK_SIZE) * BLOCK_SIZE) as u64,
            len,
        ) == MessageView::Request(piece, ((len / BLOCK_SIZE) * BLOCK_SIZE) as u64, len % BLOCK_SIZE),
{
}

} // verus!
