use vstd::prelude::*;

verus! {

/// Largest value a 32-bit wire integer can carry, plus one.
pub const WIRE_INT_LIMIT: u64 = 0x1_0000_0000;

/// A typed message of the peer wire protocol.
#[derive(Debug)]
pub enum Message {
    KeepAlive,
    Choke,
    Unchoke,
    Interested,
    NotInterested,
    Have(u64),
    Bitfield(Vec<u8>),
    Request(u64, u64, u64),
    Piece(u64, u64, Vec<u8>),
    Cancel(u64, u64, u64),
}

/// The mathematical value of a [`Message`]: byte payloads as sequences.
pub enum MessageView {
    KeepAlive,
    Choke,
    Unchoke,
    Interested,
    NotInterested,
    Have(u64),
    Bitfield(Seq<u8>),
    Request(u64, u64, u64),
    Piece(u64, u64, Seq<u8>),
    Cancel(u64, u64, u64),
}

impl View for Message {
    type V = MessageView;

    open spec fn view(&self) -> MessageView {
        match self {
            Message::KeepAlive => MessageView::KeepAlive,
            Message::Choke => MessageView::Choke,
            Message::Unchoke => MessageView::Unchoke,
            Message::Interested => MessageView::Interested,
            Message::NotInterested => MessageView::NotInterested,
            Message::Have(i) => MessageView::Have(*i),
            Message::Bitfield(b) => MessageView::Bitfield(b@),
            Message::Request(i, b, l) => MessageView::Request(*i, *b, *l),
            Message::Piece(i, b, blk) => MessageView::Piece(*i, *b, blk@),
            Message::Cancel(i, b, l) => MessageView::Cancel(*i, *b, *l),
        }
    }
}

/// Why a byte frame does not decode to a message.
#[derive(Debug, Clone, Copy, PartialEq, Eq, Structural)]
pub enum WireError {
    /// Fewer bytes than the length prefix announces, or no full prefix.
    Truncated,
    /// The announced payload is too short for the message kind's fields.
    PayloadTooShort,
}

/// The four big-endian bytes of a 32-bit wire integer.
pub open spec fn be_bytes(x: u64) -> Seq<u8> {
    seq![
        ((x >> 24u64) & 0xffu64) as u8,
        ((x >> 16u64) & 0xffu64) as u8,
        ((x >> 8u64) & 0xffu64) as u8,
        (x & 0xffu64) as u8,
    ]
}

/// The 32-bit big-endian integer held in `s[at..at + 4]`.
pub open spec fn be_value(s: Seq<u8>, at: int) -> u64 {
    ((s[at] as u64) << 24u64) | ((s[at + 1] as u64) << 16u64) | ((s[at + 2] as u64) << 8u64) | (
    s[at + 3] as u64)
}

/// A frame with a length prefix, an id byte and a payload.
pub open spec fn frame(id: u8, payload: Seq<u8>) -> Seq<u8> {
    be_bytes((payload.len() + 1) as u64) + seq![id] + payload
}

/// The three integers of a request or cancel payload.
pub open spec fn triple(a: u64, b: u64, c: u64) -> Seq<u8> {
    be_bytes(a) + be_bytes(b) + be_bytes(c)
}

/// The wire encoding of a message.
pub open spec fn encode_view(m: MessageView) -> Seq<u8> {
    match m {
        MessageView::KeepAlive => be_bytes(0),
        MessageView::Choke => frame(0, seq![]),
        MessageView::Unchoke => frame(1, seq![]),
        MessageView::Interested => frame(2, seq![]),
        MessageView::NotInterested => frame(3, seq![]),
        MessageView::Have(i) => frame(4, be_bytes(i)),
        MessageView::Bitfield(b) => frame(5, b),
        MessageView::Request(i, b, l) => frame(6, triple(i, b, l)),
        MessageView::Piece(i, b, blk) => frame(7, be_bytes(i) + be_bytes(b) + blk),
        MessageView::Cancel(i, b, l) => frame(8, triple(i, b, l)),
    }
}

/// Whether every integer of a message fits the 32-bit wire fields, and its
/// frame length fits the 32-bit length prefix.
pub open spec fn fits_wire(m: MessageView) -> bool {
    match m {
        MessageView::Have(i) => i < WIRE_INT_LIMIT,
        MessageView::Bitfield(b) => b.len() + 1 < WIRE_INT_LIMIT,
        MessageView::Request(i, b, l) => i < WIRE_INT_LIMIT && b < WIRE_INT_LIMIT && l
            < WIRE_INT_LIMIT,
        MessageView::Piece(i, b, blk) => i < WIRE_INT_LIMIT && b < WIRE_INT_LIMIT && blk.len() + 9
            < WIRE_INT_LIMIT,
        MessageView::Cancel(i, b, l) => i < WIRE_INT_LIMIT && b < WIRE_INT_LIMIT && l
            < WIRE_INT_LIMIT,
        _ => true,
    }
}

/// Decoding of the message whose payload (after the id byte) is `p`.
pub open spec fn decode_payload(id: u8, p: Seq<u8>) -> Result<MessageView, WireError> {
    if id == 0 {
        Ok(MessageView::Choke)
    } else if id == 1 {
        Ok(MessageView::Unchoke)
    } else if id == 2 {
        Ok(MessageView::Interested)
    } else if id == 3 {
        Ok(MessageView::NotInterested)
    } else if id == 4 {
        if p.len() < 4 {
            Err(WireError::PayloadTooShort)
        } else {
            Ok(MessageView::Have(be_value(p, 0)))
        }
    } else if id == 5 {
        Ok(MessageView::Bitfield(p))
    } else if id == 6 || id == 8 {
        if p.len() < 12 {
            Err(WireError::PayloadTooShort)
        } else if id == 6 {
            Ok(MessageView::Request(be_value(p, 0), be_value(p, 4), be_value(p, 8)))
        } else {
            Ok(MessageView::Cancel(be_value(p, 0), be_value(p, 4), be_value(p, 8)))
        }
    } else if id == 7 {
        if p.len() < 8 {
            Err(WireError::PayloadTooShort)
        } else {
            Ok(MessageView::Piece(be_value(p, 0), be_value(p, 4), p.subrange(8, p.len() as int)))
        }
    } else {
        Ok(MessageView::KeepAlive)
    }
}

/// Decoding of the first frame of `s`: a 4-byte length prefix `n`, then `n`
/// bytes made of an id byte and its payload. A zero length, or an id that is
/// not known, is a keep-alive. Bytes after the frame are not read.
pub open spec fn decode_view(s: Seq<u8>) -> Result<MessageView, WireError> {
    if s.len() < 4 {
        Err(WireError::Truncated)
    } else if s.len() < 4 + be_value(s, 0) {
        Err(WireError::Truncated)
    } else if be_value(s, 0) == 0 {
        Ok(MessageView::KeepAlive)
    } else {
        decode_payload(s[4], s.subrange(5, 4 + be_value(s, 0)))
    }
}

/// The value of a decoding result.
pub open spec fn result_view(r: Result<Message, WireError>) -> Result<MessageView, WireError> {
    match r {
        Ok(m) => Ok(m@),
        Err(e) => Err(e),
    }
}

proof fn lemma_be_compose(x: u64)
    by (bit_vector)
    requires
        x < 0x1_0000_0000u64,
    ensures
        ((((x >> 24u64) & 0xffu64) << 24u64) | (((x >> 16u64) & 0xffu64) << 16u64) | (((x
            >> 8u64) & 0xffu64) << 8u64) | (x & 0xffu64)) == x,
        (x >> 24u64) & 0xffu64 < 256,
        (x >> 16u64) & 0xffu64 < 256,
        (x >> 8u64) & 0xffu64 < 256,
        x & 0xffu64 < 256,
{
}

proof fn lemma_be_bound(a: u64, b: u64, c: u64, d: u64)
    by (bit_vector)
    requires
        a < 256,
        b < 256,
        c < 256,
        d < 256,
    ensures
        (a << 24u64) | (b << 16u64) | (c << 8u64) | d < 0x1_0000_0000u64,
{
}

/// Reading back the four bytes of a wire integer gives the integer.
pub proof fn lemma_be_round_trip(x: u64, s: Seq<u8>, at: int)
    requires
        x < WIRE_INT_LIMIT,
        0 <= at,
        at + 4 <= s.len(),
        s.subrange(at, at + 4) == be_bytes(x),
    ensures
        be_value(s, at) == x,
{
    lemma_be_compose(x);
    assert(s[at] == s.subrange(at, at + 4)[0]);
    assert(s[at + 1] == s.subrange(at, at + 4)[1]);
    assert(s[at + 2] == s.subrange(at, at + 4)[2]);
    assert(s[at + 3] == s.subrange(at, at + 4)[3]);
}

/// Every wire integer is below the 32-bit limit.
pub proof fn lemma_be_value_bound(s: Seq<u8>, at: int)
    requires
        0 <= at,
        at + 4 <= s.len(),
    ensures
        be_value(s, at) < WIRE_INT_LIMIT,
{
    lemma_be_bound(s[at] as u64, s[at + 1] as u64, s[at + 2] as u64, s[at + 3] as u64);
}

/// Decoding the encoding of a message whose fields fit the wire gives the message back.
pub proof fn lemma_message_round_trip(m: MessageView)
    requires
        fits_wire(m),
    ensures
        decode_view(encode_view(m)) == Ok::<MessageView, WireError>(m),
{
    let s = encode_view(m);
    match m {
        MessageView::KeepAlive => {
            assert(s.subrange(0, 4) =~= be_bytes(0));
            lemma_be_round_trip(0, s, 0);
        },
        _ => {
            let p: Seq<u8> = match m {
                MessageView::Have(i) => be_bytes(i),
                MessageView::Bitfield(b) => b,
                MessageView::Request(i, b, l) => triple(i, b, l),
                MessageView::Piece(i, b, blk) => be_bytes(i) + be_bytes(b) + blk,
                MessageView::Cancel(i, b, l) => triple(i, b, l),
                _ => seq![],
            };
            let n = (p.len() + 1) as u64;
            assert(n < WIRE_INT_LIMIT);
            assert(s.subrange(0, 4) =~= be_bytes(n));
            lemma_be_round_trip(n, s, 0);
            assert(s.subrange(5, 4 + n as int) =~= p);
            match m {
                MessageView::Have(i) => {
                    assert(p.subrange(0, 4) =~= be_bytes(i));
                    lemma_be_round_trip(i, p, 0);
                },
                MessageView::Request(i, b, l) => {
                    assert(p.subrange(0, 4) =~= be_bytes(i));
                    assert(p.subrange(4, 8) =~= be_bytes(b));
                    assert(p.subrange(8, 12) =~= be_bytes(l));
                    lemma_be_round_trip(i, p, 0);
                    lemma_be_round_trip(b, p, 4);
                    lemma_be_round_trip(l, p, 8);
                },
                MessageView::Cancel(i, b, l) => {
                    assert(p.subrange(0, 4) =~= be_bytes(i));
                    assert(p.subrange(4, 8) =~= be_bytes(b));
                    assert(p.subrange(8, 12) =~= be_bytes(l));
                    lemma_be_round_trip(i, p, 0);
                    lemma_be_round_trip(b, p, 4);
                    lemma_be_round_trip(l, p, 8);
                },
                MessageView::Piece(i, b, blk) => {
                    assert(p.subrange(0, 4) =~= be_bytes(i));
                    assert(p.subrange(4, 8) =~= be_bytes(b));
                    assert(p.subrange(8, p.len() as int) =~= blk);
                    lemma_be_round_trip(i, p, 0);
                    lemma_be_round_trip(b, p, 4);
                },
                _ => {},
            }
        },
    }
}

/// Appends the four big-endian bytes of `x`.
fn push_be(out: &mut Vec<u8>, x: u64)
    requires
        x < WIRE_INT_LIMIT,
    ensures
        final(out)@ == old(out)@ + be_bytes(x),
{
    out.push(((x >> 24u64) & 0xffu64) as u8);
    out.push(((x >> 16u64) & 0xffu64) as u8);
    out.push(((x >> 8u64) & 0xffu64) as u8);
    out.push((x & 0xffu64) as u8);
    assert(out@ =~= old(out)@ + be_bytes(x));
}

/// Appends every byte of `src`.
pub(crate) fn push_all(out: &mut Vec<u8>, src: &[u8])
    ensures
        final(out)@ == old(out)@ + src@,
{
    let mut i: usize = 0;
    while i < src.len()
        invariant
            i <= src@.len(),
            out@ == old(out)@ + src@.subrange(0, i as int),
        decreases src@.len() - i,
    {
        out.push(src[i]);
        i = i + 1;
        assert(out@ =~= old(out)@ + src@.subrange(0, i as int));
    }
    assert(src@.subrange(0, src@.len() as int) =~= src@);
}

/// The bytes `src[start..end]` as a new vector.
pub(crate) fn copy_range(src: &[u8], start: usize, end: usize) -> (r: Vec<u8>)
    requires
        start <= end <= src@.len(),
    ensures
        r@ == src@.subrange(start as int, end as int),
{
    let mut r: Vec<u8> = Vec::new();
    let mut i: usize = start;
    while i < end
        invariant
            start <= i <= end,
            end <= src@.len(),
            r@ == src@.subrange(start as int, i as int),
        decreases end - i,
    {
        r.push(src[i]);
        i = i + 1;
        assert(r@ =~= src@.subrange(start as int, i as int));
    }
    r
}

/// The 32-bit big-endian integer at `bytes[at..at + 4]`.
fn be_at(bytes: &[u8], at: usize) -> (r: u64)
    requires
        at + 4 <= bytes@.len(),
    ensures
        r == be_value(bytes@, at as int),
        r < WIRE_INT_LIMIT,
{
    proof {
        lemma_be_value_bound(bytes@, at as int);
    }
    ((bytes[at] as u64) << 24u64) | ((bytes[at + 1] as u64) << 16u64) | ((bytes[at + 2] as u64)
        << 8u64) | (bytes[at + 3] as u64)
}

/// The 32-bit big-endian integer in the first four bytes, such as a frame's
/// length prefix.
pub fn int_of_bytes(bytes: &[u8]) -> (r: u64)
    requires
        bytes@.len() >= 4,
    ensures
        r == be_value(bytes@, 0),
        r < WIRE_INT_LIMIT,
{
    be_at(bytes, 0)
}

impl Message {
    /// Whether the message can be encoded: see [`fits_wire`].
    pub fn fits_wire(&self) -> (r: bool)
        ensures
            r == fits_wire(self@),
    {
        match self {
            Message::Have(index) => *index < WIRE_INT_LIMIT,
            Message::Bitfield(bits) => (bits.len() as u64) < WIRE_INT_LIMIT - 1,
            Message::Request(index, begin, length) | Message::Cancel(index, begin, length) => *index
                < WIRE_INT_LIMIT && *begin < WIRE_INT_LIMIT && *length < WIRE_INT_LIMIT,
            Message::Piece(index, begin, block) => *index < WIRE_INT_LIMIT && *begin
                < WIRE_INT_LIMIT && (block.len() as u64) < WIRE_INT_LIMIT - 9,
            _ => true,
        }
    }

    /// The wire encoding: length prefix, id byte, payload.
    pub fn as_bytes(&self) -> (r: Vec<u8>)
        requires
            fits_wire(self@),
        ensures
            r@ == encode_view(self@),
    {
        let mut out: Vec<u8> = Vec::new();
        match self {
            Message::KeepAlive => {
                push_be(&mut out, 0);
            },
            Message::Choke => {
                push_be(&mut out, 1);
                out.push(0);
            },
            Message::Unchoke => {
                push_be(&mut out, 1);
                out.push(1);
            },
            Message::Interested => {
                push_be(&mut out, 1);
                out.push(2);
            },
            Message::NotInterested => {
                push_be(&mut out, 1);
                out.push(3);
            },
            Message::Have(index) => {
                push_be(&mut out, 5);
                out.push(4);
                push_be(&mut out, *index);
            },
            Message::Bitfield(bits) => {
                push_be(&mut out, (bits.len() + 1) as u64);
                out.push(5);
                push_all(&mut out, bits.as_slice());
            },
            Message::Request(index, begin, length) => {
                push_be(&mut out, 13);
                out.push(6);
                push_be(&mut out, *index);
                push_be(&mut out, *begin);
                push_be(&mut out, *length);
            },
            Message::Piece(index, begin, block) => {
                push_be(&mut out, (block.len() + 9) as u64);
                out.push(7);
                push_be(&mut out, *index);
                push_be(&mut out, *begin);
                push_all(&mut out, block.as_slice());
            },
            Message::Cancel(index, begin, length) => {
                push_be(&mut out, 13);
                out.push(8);
                push_be(&mut out, *index);
                push_be(&mut out, *begin);
                push_be(&mut out, *length);
            },
        }
        assert(out@ =~= encode_view(self@));
        out
    }

    /// Decodes the first frame of `bytes`; see [`decode_view`].
    pub fn from_bytes(bytes: &[u8]) -> (r: Result<Message, WireError>)
        ensures
            result_view(r) == decode_view(bytes@),
            r matches Ok(Message::Have(i)) ==> i < WIRE_INT_LIMIT,
    {
        if bytes.len() < 4 {
            return Err(WireError::Truncated);
        }
        let n = int_of_bytes(bytes);
        if (bytes.len() as u64) < 4 + n {
            return Err(WireError::Truncated);
        }
        if n == 0 {
            return Ok(Message::KeepAlive);
        }
        let end = (4 + n) as usize;
        let id = bytes[4];
        let plen = end - 5;
        let ghost p = bytes@.subrange(5, end as int);
        let r = if id == 0 {
            Ok(Message::Choke)
        } else if id == 1 {
            Ok(Message::Unchoke)
        } else if id == 2 {
            Ok(Message::Interested)
        } else if id == 3 {
            Ok(Message::NotInterested)
        } else if id == 4 {
            if plen < 4 {
                Err(WireError::PayloadTooShort)
            } else {
                Ok(Message::Have(be_at(bytes, 5)))
            }
        } else if id == 5 {
            Ok(Message::Bitfield(copy_range(bytes, 5, end)))
        } else if id == 6 || id == 8 {
            if plen < 12 {
                Err(WireError::PayloadTooShort)
            } else {
                let index = be_at(bytes, 5);
                let begin = be_at(bytes, 9);
                let length = be_at(bytes, 13);
                if id == 6 {
                    Ok(Message::Request(index, begin, length))
                } else {
                    Ok(Message::Cancel(index, begin, length))
                }
            }
        } else if id == 7 {
            if plen < 8 {
                Err(WireError::PayloadTooShort)
            } else {
                let index = be_at(bytes, 5);
                let begin = be_at(bytes, 9);
                let block = copy_range(bytes, 13, end);
                assert(block@ =~= p.subrange(8, p.len() as int));
                Ok(Message::Piece(index, begin, block))
            }
        } else {
            Ok(Message::KeepAlive)
        };
        r
    }
}

} // verus!
