//! Messages of the peer wire protocol and their framing: a four-byte
//! big-endian length, then an id byte and the payload.
use vstd::prelude::*;

use crate::peer::wire::{be_u32_bytes, be_u32_value, push_u32_be, read_u32_be, lemma_be_u32_roundtrip};

verus! {

/// A message between two peers.
#[derive(Debug, Clone, PartialEq, Eq)]
pub enum Message {
    Choke,
    Unchoke,
    Interested,
    NotInterested,
    Have(u32),
    Bitfield(Vec<u8>),
    Request { index: u32, begin: u32, length: u32 },
    Piece { index: u32, begin: u32, block: Vec<u8> },
    KeepAlive,
}

/// A message as a mathematical value: byte vectors are sequences.
pub enum MessageView {
    Choke,
    Unchoke,
    Interested,
    NotInterested,
    Have(u32),
    Bitfield(Seq<u8>),
    Request { index: u32, begin: u32, length: u32 },
    Piece { index: u32, begin: u32, block: Seq<u8> },
    KeepAlive,
}

impl View for Message {
    type V = MessageView;

    open spec fn view(&self) -> MessageView {
        match self {
            Message::Choke => MessageView::Choke,
            Message::Unchoke => MessageView::Unchoke,
            Message::Interested => MessageView::Interested,
            Message::NotInterested => MessageView::NotInterested,
            Message::Have(i) => MessageView::Have(*i),
            Message::Bitfield(b) => MessageView::Bitfield(b@),
            Message::Request { index, begin, length } => MessageView::Request {
                index: *index,
                begin: *begin,
                length: *length,
            },
            Message::Piece { index, begin, block } => MessageView::Piece {
                index: *index,
                begin: *begin,
                block: block@,
            },
            Message::KeepAlive => MessageView::KeepAlive,
        }
    }
}

/// Why a frame could not be read as a message.
#[derive(Debug, Clone, Copy, PartialEq, Eq, Structural)]
pub enum MessageError {
    /// The bytes end before the frame does.
    UnexpectedEof,
    /// A `have` message whose payload is not four bytes long.
    InvalidHaveLength,
    /// A `request` message whose payload is not twelve bytes long.
    InvalidRequestLength,
    /// A `piece` message whose payload is shorter than eight bytes.
    InvalidPieceLength,
    /// An id that the protocol does not know.
    UnknownId(u8),
}

/// A length as the four-byte prefix carries it: taken modulo 2^32.
pub open spec fn wrap_u32(n: int) -> u32 {
    (n % 0x1_0000_0000) as u32
}

/// The frame that a message is sent as.
pub open spec fn encode_message(m: MessageView) -> Seq<u8> {
    match m {
        MessageView::KeepAlive => seq![0u8, 0, 0, 0],
        MessageView::Choke => seq![0u8, 0, 0, 1, 0],
        MessageView::Unchoke => seq![0u8, 0, 0, 1, 1],
        MessageView::Interested => seq![0u8, 0, 0, 1, 2],
        MessageView::NotInterested => seq![0u8, 0, 0, 1, 3],
        MessageView::Have(i) => seq![0u8, 0, 0, 5, 4] + be_u32_bytes(i),
        MessageView::Bitfield(b) => be_u32_bytes(wrap_u32(1 + b.len() as int)) + seq![5u8] + b,
        MessageView::Request { index, begin, length } => seq![0u8, 0, 0, 13, 6] + be_u32_bytes(
            index,
        ) + be_u32_bytes(begin) + be_u32_bytes(length),
        MessageView::Piece { index, begin, block } => be_u32_bytes(wrap_u32(9 + block.len() as int))
            + seq![7u8] + be_u32_bytes(index) + be_u32_bytes(begin) + block,
    }
}

/// Whether the length prefix of the message's frame holds its true length,
/// that is, whether the frame is shorter than 2^32 bytes after the prefix.
pub open spec fn fits_in_frame(m: MessageView) -> bool {
    match m {
        MessageView::Bitfield(b) => 1 + b.len() < 0x1_0000_0000,
        MessageView::Piece { block, .. } => 9 + block.len() < 0x1_0000_0000,
        _ => true,
    }
}

/// The message that an id byte and a payload stand for.
pub open spec fn decode_body(id: u8, payload: Seq<u8>) -> Result<MessageView, MessageError> {
    if id == 0 {
        Ok(MessageView::Choke)
    } else if id == 1 {
        Ok(MessageView::Unchoke)
    } else if id == 2 {
        Ok(MessageView::Interested)
    } else if id == 3 {
        Ok(MessageView::NotInterested)
    } else if id == 4 {
        if payload.len() != 4 {
            Err(MessageError::InvalidHaveLength)
        } else {
            Ok(MessageView::Have(be_u32_value(payload)))
        }
    } else if id == 5 {
        Ok(MessageView::Bitfield(payload))
    } else if id == 6 {
        if payload.len() != 12 {
            Err(MessageError::InvalidRequestLength)
        } else {
            Ok(
                MessageView::Request {
                    index: be_u32_value(payload.subrange(0, 4)),
                    begin: be_u32_value(payload.subrange(4, 8)),
                    length: be_u32_value(payload.subrange(8, 12)),
                },
            )
        }
    } else if id == 7 {
        if payload.len() < 8 {
            Err(MessageError::InvalidPieceLength)
        } else {
            Ok(
                MessageView::Piece {
                    index: be_u32_value(payload.subrange(0, 4)),
                    begin: be_u32_value(payload.subrange(4, 8)),
                    block: payload.subrange(8, payload.len() as int),
                },
            )
        }
    } else {
        Err(MessageError::UnknownId(id))
    }
}

/// The message at the start of `bytes`, with the number of bytes its frame
/// takes: the length prefix, then (unless it is zero) the id and the payload.
pub open spec fn decode_frame(bytes: Seq<u8>) -> Result<(MessageView, nat), MessageError> {
    if bytes.len() < 4 {
        Err(MessageError::UnexpectedEof)
    } else {
        let n = be_u32_value(bytes.subrange(0, 4));
        if n == 0 {
            Ok((MessageView::KeepAlive, 4))
        } else if bytes.len() < 4 + n {
            Err(MessageError::UnexpectedEof)
        } else {
            match decode_body(bytes[4], bytes.subrange(5, 4 + n)) {
                Ok(m) => Ok((m, (4 + n) as nat)),
                Err(e) => Err(e),
            }
        }
    }
}

/// What a peer reads back of a frame is what was written: the frame of any
/// message whose length fits the prefix, followed by any bytes at all, reads
/// as that message and takes exactly the frame's bytes.
pub proof fn lemma_read_after_write(m: MessageView, rest: Seq<u8>)
    requires
        fits_in_frame(m),
    ensures
        decode_frame(encode_message(m) + rest) == Ok::<(MessageView, nat), MessageError>(
            (m, encode_message(m).len()),
        ),
{
    let e = encode_message(m);
    let bytes = e + rest;
    assert(bytes.subrange(0, e.len() as int) =~= e);
    match m {
        MessageView::KeepAlive => {
            assert(bytes.subrange(0, 4) =~= seq![0u8, 0, 0, 0]);
        },
        MessageView::Choke | MessageView::Unchoke | MessageView::Interested
        | MessageView::NotInterested => {
            assert(bytes.subrange(0, 4) =~= seq![0u8, 0, 0, 1]);
        },
        MessageView::Have(i) => {
            lemma_be_u32_roundtrip(i);
            assert(bytes.subrange(0, 4) =~= seq![0u8, 0, 0, 5]);
            assert(bytes.subrange(5, 9) =~= be_u32_bytes(i));
        },
        MessageView::Bitfield(b) => {
            let n = wrap_u32(1 + b.len() as int);
            assert(n == 1 + b.len());
            lemma_be_u32_roundtrip(n);
            assert(bytes.subrange(0, 4) =~= be_u32_bytes(n));
            assert(bytes.subrange(5, 4 + n) =~= b);
        },
        MessageView::Request { index, begin, length } => {
            lemma_be_u32_roundtrip(index);
            lemma_be_u32_roundtrip(begin);
            lemma_be_u32_roundtrip(length);
            assert(bytes.subrange(0, 4) =~= seq![0u8, 0, 0, 13]);
            let payload = bytes.subrange(5, 17);
            assert(payload.subrange(0, 4) =~= be_u32_bytes(index));
            assert(payload.subrange(4, 8) =~= be_u32_bytes(begin));
            assert(payload.subrange(8, 12) =~= be_u32_bytes(length));
        },
        MessageView::Piece { index, begin, block } => {
            let n = wrap_u32(9 + block.len() as int);
            assert(n == 9 + block.len());
            lemma_be_u32_roundtrip(n);
            lemma_be_u32_roundtrip(index);
            lemma_be_u32_roundtrip(begin);
            assert(bytes.subrange(0, 4) =~= be_u32_bytes(n));
            let payload = bytes.subrange(5, 4 + n);
            assert(payload.subrange(0, 4) =~= be_u32_bytes(index));
            assert(payload.subrange(4, 8) =~= be_u32_bytes(begin));
            assert(payload.subrange(8, payload.len() as int) =~= block);
        },
    }
}

/// A request travels as seventeen bytes in the protocol's layout: the
/// length 13, the id 6, then the piece index, the offset of the block in
/// the piece and the block's length, each as four bytes most significant
/// first, in that order.
pub proof fn lemma_request_layout(index: u32, begin: u32, length: u32)
    ensures
        ({
            let f = encode_message(MessageView::Request { index, begin, length });
            &&& f.len() == 17
            &&& f.subrange(0, 4) == seq![0u8, 0, 0, 13]
            &&& f[4] == 6
            &&& f.subrange(5, 9) == be_u32_bytes(index)
            &&& f.subrange(9, 13) == be_u32_bytes(begin)
            &&& f.subrange(13, 17) == be_u32_bytes(length)
            &&& f[5] as int * 0x100_0000 + f[6] as int * 0x1_0000 + f[7] as int * 0x100 + f[8] as int
                == index
            &&& f[9] as int * 0x100_0000 + f[10] as int * 0x1_0000 + f[11] as int * 0x100 + f[12] as int
                == begin
            &&& f[13] as int * 0x100_0000 + f[14] as int * 0x1_0000 + f[15] as int * 0x100 + f[16] as int
                == length
        }),
{
    let f = encode_message(MessageView::Request { index, begin, length });
    lemma_be_u32_roundtrip(index);
    lemma_be_u32_roundtrip(begin);
    lemma_be_u32_roundtrip(length);
    assert(f.subrange(0, 4) =~= seq![0u8, 0, 0, 13]);
    assert(f.subrange(5, 9) =~= be_u32_bytes(index));
    assert(f.subrange(9, 13) =~= be_u32_bytes(begin));
    assert(f.subrange(13, 17) =~= be_u32_bytes(length));
    lemma_be_u32_value_exact(f.subrange(5, 9));
    lemma_be_u32_value_exact(f.subrange(9, 13));
    lemma_be_u32_value_exact(f.subrange(13, 17));
}

/// Four bytes, most significant first, stand for a number below 2^32, so
/// reading them loses nothing.
proof fn lemma_be_u32_value_exact(b: Seq<u8>)
    requires
        b.len() == 4,
    ensures
        be_u32_value(b) == b[0] as int * 0x100_0000 + b[1] as int * 0x1_0000 + b[2] as int * 0x100
            + b[3] as int,
{
    assert(b[0] as int * 0x100_0000 + b[1] as int * 0x1_0000 + b[2] as int * 0x100 + (b[3] as int)
        < 0x1_0000_0000) by (nonlinear_arith)
        requires
            b[0] < 256,
            b[1] < 256,
            b[2] < 256,
            b[3] < 256,
    ;
}

/// A request's twelve-byte payload is read in the protocol's layout: the
/// piece index from its first four bytes, the block's offset from the next
/// four and the block's length from the last four, each most significant
/// first.
pub proof fn lemma_request_payload_read(payload: Seq<u8>)
    requires
        payload.len() == 12,
    ensures
        decode_body(6, payload) matches Ok(MessageView::Request { index, begin, length }) && index
            == payload[0] as int * 0x100_0000 + payload[1] as int * 0x1_0000 + payload[2] as int
            * 0x100 + payload[3] as int && begin == payload[4] as int * 0x100_0000 + payload[5] as int
            * 0x1_0000 + payload[6] as int * 0x100 + payload[7] as int && length == payload[8] as int
            * 0x100_0000 + payload[9] as int * 0x1_0000 + payload[10] as int * 0x100
            + payload[11] as int,
{
    lemma_be_u32_value_exact(payload.subrange(0, 4));
    lemma_be_u32_value_exact(payload.subrange(4, 8));
    lemma_be_u32_value_exact(payload.subrange(8, 12));
}

/// A read takes one whole frame and nothing past it: it consumes between 4
/// and all of the bytes it is given, and the bytes after the frame do not
/// change what is read.
pub proof fn lemma_read_takes_one_frame(bytes: Seq<u8>, rest: Seq<u8>)
    ensures
        decode_frame(bytes) matches Ok((m, n)) ==> 4 <= n <= bytes.len() && decode_frame(
            bytes.subrange(0, n as int) + rest,
        ) == Ok::<(MessageView, nat), MessageError>((m, n)),
{
    if let Ok((m, n)) = decode_frame(bytes) {
        let b2 = bytes.subrange(0, n as int) + rest;
        assert(b2.subrange(0, 4) =~= bytes.subrange(0, 4));
        if n > 4 {
            assert(b2.subrange(5, n as int) =~= bytes.subrange(5, n as int));
        }
    }
}

impl Message {
    /// The frame that this message is sent as.
    pub fn to_bytes(&self) -> (r: Vec<u8>)
        ensures
            r@ == encode_message(self@),
    {
        match self {
            Message::KeepAlive => vec![0, 0, 0, 0],
            Message::Choke => vec![0, 0, 0, 1, 0],
            Message::Unchoke => vec![0, 0, 0, 1, 1],
            Message::Interested => vec![0, 0, 0, 1, 2],
            Message::NotInterested => vec![0, 0, 0, 1, 3],
            Message::Have(index) => {
                let mut bytes = vec![0, 0, 0, 5, 4];
                push_u32_be(&mut bytes, *index);
                bytes
            },
            Message::Bitfield(bitfield) => {
                let len = frame_length(bitfield.len(), 1);
                let mut bytes = Vec::new();
                push_u32_be(&mut bytes, len);
                bytes.push(5);
                append_bytes(&mut bytes, bitfield.as_slice());
                assert(bytes@ =~= encode_message(self@));
                bytes
            },
            Message::Request { index, begin, length } => {
                let mut bytes = vec![0, 0, 0, 13, 6];
                push_u32_be(&mut bytes, *index);
                push_u32_be(&mut bytes, *begin);
                push_u32_be(&mut bytes, *length);
                assert(bytes@ =~= encode_message(self@));
                bytes
            },
            Message::Piece { index, begin, block } => {
                let len = frame_length(block.len(), 9);
                let mut bytes = Vec::new();
                push_u32_be(&mut bytes, len);
                bytes.push(7);
                push_u32_be(&mut bytes, *index);
                push_u32_be(&mut bytes, *begin);
                append_bytes(&mut bytes, block.as_slice());
                assert(bytes@ =~= encode_message(self@));
                bytes
            },
        }
    }

    /// The message that an id byte and its payload stand for.
    pub fn decode_body(id: u8, payload: Vec<u8>) -> (r: Result<Message, MessageError>)
        ensures
            match r {
                Ok(m) => decode_body(id, payload@) == Ok::<MessageView, MessageError>(m@),
                Err(e) => decode_body(id, payload@) == Err::<MessageView, MessageError>(e),
            },
    {
        match id {
            0 => Ok(Message::Choke),
            1 => Ok(Message::Unchoke),
            2 => Ok(Message::Interested),
            3 => Ok(Message::NotInterested),
            4 => {
                if payload.len() != 4 {
                    return Err(MessageError::InvalidHaveLength);
                }
                let index = read_u32_be(payload.as_slice(), 0);
                assert(payload@.subrange(0, 4) =~= payload@);
                Ok(Message::Have(index))
            },
            5 => Ok(Message::Bitfield(payload)),
            6 => {
                if payload.len() != 12 {
                    return Err(MessageError::InvalidRequestLength);
                }
                let index = read_u32_be(payload.as_slice(), 0);
                let begin = read_u32_be(payload.as_slice(), 4);
                let length = read_u32_be(payload.as_slice(), 8);
                Ok(Message::Request { index, begin, length })
            },
            7 => {
                if payload.len() < 8 {
                    return Err(MessageError::InvalidPieceLength);
                }
                let index = read_u32_be(payload.as_slice(), 0);
                let begin = read_u32_be(payload.as_slice(), 4);
                let block = copy_range(payload.as_slice(), 8, payload.len());
                Ok(Message::Piece { index, begin, block })
            },
            _ => Err(MessageError::UnknownId(id)),
        }
    }

    /// The length that the four-byte prefix at the start of `prefix` announces.
    pub fn frame_body_length(prefix: &[u8]) -> (r: u32)
        requires
            prefix@.len() >= 4,
        ensures
            r == be_u32_value(prefix@.subrange(0, 4)),
    {
        read_u32_be(prefix, 0)
    }

    /// Reads the message whose frame starts `bytes`, and the number of bytes
    /// that the frame takes.
    pub fn read_from_bytes(bytes: &[u8]) -> (r: Result<(Message, usize), MessageError>)
        ensures
            match r {
                Ok((m, n)) => decode_frame(bytes@) == Ok::<(MessageView, nat), MessageError>(
                    (m@, n as nat),
                ),
                Err(e) => decode_frame(bytes@) == Err::<(MessageView, nat), MessageError>(e),
            },
    {
        if bytes.len() < 4 {
            return Err(MessageError::UnexpectedEof);
        }
        let len = read_u32_be(bytes, 0);
        if len == 0 {
            return Ok((Message::KeepAlive, 4));
        }
        if (bytes.len() - 4) < len as usize {
            return Err(MessageError::UnexpectedEof);
        }
        let end = 4 + len as usize;
        let id = bytes[4];
        let payload = copy_range(bytes, 5, end);
        match Message::decode_body(id, payload) {
            Ok(m) => Ok((m, end)),
            Err(e) => Err(e),
        }
    }
}

/// The value of a frame's length prefix: `extra` plus `len`, modulo 2^32.
fn frame_length(len: usize, extra: u32) -> (r: u32)
    requires
        extra < 16,
    ensures
        r == wrap_u32(extra + len as int),
{
    let low = ((len as u64) % 0x1_0000_0000u64) as u32;
    proof {
        vstd::arithmetic::div_mod::lemma_add_mod_noop(len as int, extra as int, 0x1_0000_0000);
        vstd::arithmetic::div_mod::lemma_mod_twice(extra as int, 0x1_0000_0000);
        vstd::arithmetic::div_mod::lemma_small_mod(extra as nat, 0x1_0000_0000);
    }
    low.wrapping_add(extra)
}

/// Appends the bytes of `src`.
fn append_bytes(out: &mut Vec<u8>, src: &[u8])
    ensures
        final(out)@ == old(out)@ + src@,
{
    let mut i: usize = 0;
    while i < src.len()
        invariant
            i <= src@.len(),
            out@ == old(out)@ + src@.subrange(0, i as int),
        decreases src@.len() - i,
    {
        out.push(src[i]);
        i = i + 1;
        assert(out@ =~= old(out)@ + src@.subrange(0, i as int));
    }
    assert(src@.subrange(0, i as int) =~= src@);
}

/// A copy of the bytes from `start` up to `end`.
pub fn copy_range(src: &[u8], start: usize, end: usize) -> (r: Vec<u8>)
    requires
        start <= end <= src@.len(),
    ensures
        r@ == src@.subrange(start as int, end as int),
{
    let mut r: Vec<u8> = Vec::new();
    let mut i: usize = start;
    while i < end
        invariant
            start <= i <= end <= src@.len(),
            r@ == src@.subrange(start as int, i as int),
        decreases end - i,
    {
        r.push(src[i]);
        i = i + 1;
        assert(r@ =~= src@.subrange(start as int, i as int));
    }
    r
}

} // verus!
