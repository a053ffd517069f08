//! The message and its wire format.
//!
//! A frame is a header of eight bytes, then a body:
//!
//! ```text
//! | magic (2) | msg id (2) | body length (4) | session id (8) | data (n) |
//! ```
//!
//! All numbers are big-endian; the magic number is `0x7368` ("sh"), and the
//! body length counts the session id and the data.
use crate::buffers::{
    bytes_mut_advance, bytes_mut_as_slice, bytes_mut_contents, bytes_mut_extend,
    bytes_mut_split_to, bytes_mut_with_capacity,
};
use crate::text::{hex_byte, hex_char_value, hex_digit_str, hex_dump_text, law_hex_dump_reads_back};
use bytes::BytesMut;
use vstd::prelude::*;

verus! {

/// Size of the frame header: magic, message id and body length.
pub const HEADER_SIZE: usize = 8;

/// The number every frame starts with: the bytes "sh".
pub const MAGIC_NUM: u16 = 0x7368;

/// The largest body a frame may announce: 64 KiB.
pub const MAX_MSG_SIZE: usize = 65536;

/// The message id type.
pub type MsgId = u16;

/// The session id type.
pub type SessionId = u64;

/// A message: its id (its type, which decides where it is routed), the
/// session it came from or goes to, and its payload.
#[derive(Debug)]
pub struct Message {
    pub msg_id: MsgId,
    pub session_id: SessionId,
    pub data: Vec<u8>,
}

// ---------------------------------------------------------------------------
// Big-endian numbers

/// `x` as two big-endian bytes.
pub open spec fn be_u16(x: u16) -> Seq<u8> {
    seq![(x >> 8u16) as u8, x as u8]
}

/// `x` as four big-endian bytes.
pub open spec fn be_u32(x: u32) -> Seq<u8> {
    seq![(x >> 24u32) as u8, (x >> 16u32) as u8, (x >> 8u32) as u8, x as u8]
}

/// `x` as eight big-endian bytes.
pub open spec fn be_u64(x: u64) -> Seq<u8> {
    seq![
        (x >> 56u64) as u8,
        (x >> 48u64) as u8,
        (x >> 40u64) as u8,
        (x >> 32u64) as u8,
        (x >> 24u64) as u8,
        (x >> 16u64) as u8,
        (x >> 8u64) as u8,
        x as u8,
    ]
}

/// The number the two big-endian bytes at `i` of `s` spell.
pub open spec fn read_u16(s: Seq<u8>, i: int) -> u16 {
    ((s[i] as u16) << 8u16) | (s[i + 1] as u16)
}

/// The number the four big-endian bytes at `i` of `s` spell.
pub open spec fn read_u32(s: Seq<u8>, i: int) -> u32 {
    ((s[i] as u32) << 24u32) | ((s[i + 1] as u32) << 16u32) | ((s[i + 2] as u32) << 8u32) | (s[i
        + 3] as u32)
}

/// The number the eight big-endian bytes at `i` of `s` spell.
pub open spec fn read_u64(s: Seq<u8>, i: int) -> u64 {
    ((s[i] as u64) << 56u64) | ((s[i + 1] as u64) << 48u64) | ((s[i + 2] as u64) << 40u64) | ((s[i
        + 3] as u64) << 32u64) | ((s[i + 4] as u64) << 24u64) | ((s[i + 5] as u64) << 16u64) | ((s[i
        + 6] as u64) << 8u64) | (s[i + 7] as u64)
}

// ---------------------------------------------------------------------------
// Frames

/// The frame of a message. The body length field holds the body's length
/// modulo 2^32, as the cast to `u32` leaves it.
pub open spec fn frame_bytes(msg_id: u16, session_id: u64, data: Seq<u8>) -> Seq<u8> {
    be_u16(MAGIC_NUM) + be_u16(msg_id) + be_u32((data.len() + 8) as u32) + be_u64(session_id) + data
}

/// The body length a buffer of at least a header announces.
pub open spec fn announced_body_len(buf: Seq<u8>) -> int {
    read_u32(buf, 4) as int
}

/// What decoding the front of `buf` yields: the message's id, session id
/// and data, or nothing. Nothing comes when the buffer holds less than a
/// header, when the magic number is wrong, when the announced body is larger
/// than `MAX_MSG_SIZE`, when the buffer holds less than the whole frame, or
/// when the body is shorter than nine bytes (a session id and at least one
/// byte of data).
pub open spec fn decoded(buf: Seq<u8>) -> Option<(u16, u64, Seq<u8>)> {
    if buf.len() < HEADER_SIZE {
        None
    } else if read_u16(buf, 0) != MAGIC_NUM {
        None
    } else if announced_body_len(buf) > MAX_MSG_SIZE {
        None
    } else if buf.len() < HEADER_SIZE + announced_body_len(buf) {
        None
    } else if announced_body_len(buf) < 9 {
        None
    } else {
        let body = buf.subrange(HEADER_SIZE as int, HEADER_SIZE + announced_body_len(buf));
        Some((read_u16(buf, 2), read_u64(body, 0), body.skip(8)))
    }
}

/// What is left of `buf` after an attempt to decode a message from its
/// front. A buffer too short for its frame, or with a wrong magic number, is
/// left alone; one announcing too large a body loses its header; otherwise
/// the whole frame is consumed, whether or not it held a message.
pub open spec fn left_after_decode(buf: Seq<u8>) -> Seq<u8> {
    if buf.len() < HEADER_SIZE {
        buf
    } else if read_u16(buf, 0) != MAGIC_NUM {
        buf
    } else if announced_body_len(buf) > MAX_MSG_SIZE {
        buf.skip(HEADER_SIZE as int)
    } else if buf.len() < HEADER_SIZE + announced_body_len(buf) {
        buf
    } else {
        buf.skip(HEADER_SIZE + announced_body_len(buf))
    }
}

/// Appends `x` in two big-endian bytes.
fn push_u16(v: &mut Vec<u8>, x: u16)
    ensures
        final(v)@ == old(v)@ + be_u16(x),
{
    v.push((x >> 8u16) as u8);
    v.push(x as u8);
}

/// Appends `x` in four big-endian bytes.
fn push_u32(v: &mut Vec<u8>, x: u32)
    ensures
        final(v)@ == old(v)@ + be_u32(x),
{
    v.push((x >> 24u32) as u8);
    v.push((x >> 16u32) as u8);
    v.push((x >> 8u32) as u8);
    v.push(x as u8);
}

/// Appends `x` in eight big-endian bytes.
fn push_u64(v: &mut Vec<u8>, x: u64)
    ensures
        final(v)@ == old(v)@ + be_u64(x),
{
    v.push((x >> 56u64) as u8);
    v.push((x >> 48u64) as u8);
    v.push((x >> 40u64) as u8);
    v.push((x >> 32u64) as u8);
    v.push((x >> 24u64) as u8);
    v.push((x >> 16u64) as u8);
    v.push((x >> 8u64) as u8);
    v.push(x as u8);
}

impl Clone for Message {
    fn clone(&self) -> (m: Message)
        ensures
            m.msg_id == self.msg_id,
            m.session_id == self.session_id,
            m.data@ == self.data@,
    {
        let data = self.data.clone();
        assert(data@ =~= self.data@);
        Message { msg_id: self.msg_id, session_id: self.session_id, data }
    }
}

impl Message {
    pub fn new(msg_id: MsgId, session_id: SessionId, data: Vec<u8>) -> (m: Message)
        ensures
            m.msg_id == msg_id,
            m.session_id == session_id,
            m.data == data,
    {
        Message { msg_id, session_id, data }
    }

    /// The message's frame.
    pub fn encode(&self) -> (buf: BytesMut)
        requires
            self.data@.len() + 16 <= isize::MAX,
        ensures
            bytes_mut_contents(buf) == frame_bytes(self.msg_id, self.session_id, self.data@),
    {
        let total_len = self.data.len() + 8;
        let mut header: Vec<u8> = Vec::with_capacity(16);
        push_u16(&mut header, MAGIC_NUM);
        push_u16(&mut header, self.msg_id);
        #[verifier::truncate]
        let len_field = total_len as u32;
        push_u32(&mut header, len_field);
        push_u64(&mut header, self.session_id);
        let mut buf = bytes_mut_with_capacity(HEADER_SIZE + total_len);
        bytes_mut_extend(&mut buf, header.as_slice());
        bytes_mut_extend(&mut buf, self.data.as_slice());
        buf
    }

    /// Decodes a message from the front of `buf`, consuming what
    /// `left_after_decode` says; see `decoded` for when a message comes out.
    pub fn decode(buf: &mut BytesMut) -> (m: Option<Message>)
        ensures
            bytes_mut_contents(*final(buf)) == left_after_decode(bytes_mut_contents(*old(buf))),
            match m {
                Some(m) => decoded(bytes_mut_contents(*old(buf))) == Some(
                    (m.msg_id, m.session_id, m.data@),
                ),
                None => decoded(bytes_mut_contents(*old(buf))) is None,
            },
    {
        let ghost start = bytes_mut_contents(*buf);
        let s = bytes_mut_as_slice(buf);
        let len = s.len();
        if len < HEADER_SIZE {
            return None;
        }
        let magic_num = ((s[0] as u16) << 8u16) | (s[1] as u16);
        let msg_id = ((s[2] as u16) << 8u16) | (s[3] as u16);
        let body_len32 = ((s[4] as u32) << 24u32) | ((s[5] as u32) << 16u32) | ((s[6] as u32)
            << 8u32) | (s[7] as u32);
        let body_len = body_len32 as usize;
        if magic_num != MAGIC_NUM {
            return None;
        }
        if body_len > MAX_MSG_SIZE {
            bytes_mut_advance(buf, HEADER_SIZE);
            return None;
        }
        if len < HEADER_SIZE + body_len {
            return None;
        }
        bytes_mut_advance(buf, HEADER_SIZE);
        let body = bytes_mut_split_to(buf, body_len);
        let b = bytes_mut_as_slice(&body);
        assert(b@ == start.subrange(HEADER_SIZE as int, HEADER_SIZE + body_len));
        assert(start.skip(HEADER_SIZE as int).skip(body_len as int) == start.skip(
            HEADER_SIZE + body_len,
        ));
        if b.len() < 9 {
            return None;
        }
        let session_id = ((b[0] as u64) << 56u64) | ((b[1] as u64) << 48u64) | ((b[2] as u64)
            << 40u64) | ((b[3] as u64) << 32u64) | ((b[4] as u64) << 24u64) | ((b[5] as u64)
            << 16u64) | ((b[6] as u64) << 8u64) | (b[7] as u64);
        let mut data: Vec<u8> = Vec::with_capacity(b.len() - 8);
        let mut i: usize = 8;
        while i < b.len()
            invariant
                8 <= i <= b@.len(),
                data@ == b@.subrange(8, i as int),
            decreases b@.len() - i,
        {
            data.push(b[i]);
            i = i + 1;
        }
        assert(data@ == b@.skip(8));
        Some(Message { msg_id, session_id, data })
    }
}

// ---------------------------------------------------------------------------
// Laws of the wire format

proof fn lemma_u16_bytes(x: u16)
    ensures
        ((((x >> 8u16) as u8) as u16) << 8u16) | ((x as u8) as u16) == x,
{
    assert(((((x >> 8u16) as u8) as u16) << 8u16) | ((x as u8) as u16) == x) by (bit_vector);
}

proof fn lemma_u32_bytes(x: u32)
    ensures
        ((((x >> 24u32) as u8) as u32) << 24u32) | ((((x >> 16u32) as u8) as u32) << 16u32) | ((((x
            >> 8u32) as u8) as u32) << 8u32) | ((x as u8) as u32) == x,
{
    assert(((((x >> 24u32) as u8) as u32) << 24u32) | ((((x >> 16u32) as u8) as u32) << 16u32) | ((((x
        >> 8u32) as u8) as u32) << 8u32) | ((x as u8) as u32) == x) by (bit_vector);
}

proof fn lemma_u64_bytes(x: u64)
    ensures
        ((((x >> 56u64) as u8) as u64) << 56u64) | ((((x >> 48u64) as u8) as u64) << 48u64) | ((((x
            >> 40u64) as u8) as u64) << 40u64) | ((((x >> 32u64) as u8) as u64) << 32u64) | ((((x
            >> 24u64) as u8) as u64) << 24u64) | ((((x >> 16u64) as u8) as u64) << 16u64) | ((((x
            >> 8u64) as u8) as u64) << 8u64) | ((x as u8) as u64) == x,
{
    assert(((((x >> 56u64) as u8) as u64) << 56u64) | ((((x >> 48u64) as u8) as u64) << 48u64) | ((((
    x >> 40u64) as u8) as u64) << 40u64) | ((((x >> 32u64) as u8) as u64) << 32u64) | ((((x
        >> 24u64) as u8) as u64) << 24u64) | ((((x >> 16u64) as u8) as u64) << 16u64) | ((((x
        >> 8u64) as u8) as u64) << 8u64) | ((x as u8) as u64) == x) by (bit_vector);
}

/// The two bytes at `i` of `s`, when they are those of `x`, read back as `x`.
proof fn lemma_read_u16_of(s: Seq<u8>, i: int, x: u16)
    requires
        0 <= i,
        i + 2 <= s.len(),
        s[i] == be_u16(x)[0],
        s[i + 1] == be_u16(x)[1],
    ensures
        read_u16(s, i) == x,
{
    lemma_u16_bytes(x);
}

/// The four bytes at `i` of `s`, when they are those of `x`, read back as `x`.
proof fn lemma_read_u32_of(s: Seq<u8>, i: int, x: u32)
    requires
        0 <= i,
        i + 4 <= s.len(),
        forall|k: int| 0 <= k < 4 ==> s[i + k] == #[trigger] be_u32(x)[k],
    ensures
        read_u32(s, i) == x,
{
    assert(s[i] == be_u32(x)[0] && s[i + 1] == be_u32(x)[1]);
    assert(s[i + 2] == be_u32(x)[2] && s[i + 3] == be_u32(x)[3]);
    lemma_u32_bytes(x);
}

/// The eight bytes at `i` of `s`, when they are those of `x`, read back as `x`.
proof fn lemma_read_u64_of(s: Seq<u8>, i: int, x: u64)
    requires
        0 <= i,
        i + 8 <= s.len(),
        forall|k: int| 0 <= k < 8 ==> s[i + k] == #[trigger] be_u64(x)[k],
    ensures
        read_u64(s, i) == x,
{
    assert(s[i] == be_u64(x)[0] && s[i + 1] == be_u64(x)[1]);
    assert(s[i + 2] == be_u64(x)[2] && s[i + 3] == be_u64(x)[3]);
    assert(s[i + 4] == be_u64(x)[4] && s[i + 5] == be_u64(x)[5]);
    assert(s[i + 6] == be_u64(x)[6] && s[i + 7] == be_u64(x)[7]);
    lemma_u64_bytes(x);
}

/// The fields a frame's header and body hold, read back from the frame
/// followed by anything.
#[verifier::spinoff_prover]
pub(crate) proof fn lemma_frame_fields(msg_id: u16, session_id: u64, data: Seq<u8>, rest: Seq<u8>)
    requires
        data.len() + 8 <= MAX_MSG_SIZE,
    ensures
        ({
            let f = frame_bytes(msg_id, session_id, data) + rest;
            let n = data.len() + 8;
            &&& f.len() == HEADER_SIZE + n + rest.len()
            &&& read_u16(f, 0) == MAGIC_NUM
            &&& read_u16(f, 2) == msg_id
            &&& announced_body_len(f) == n
            &&& read_u64(f.subrange(HEADER_SIZE as int, HEADER_SIZE + n), 0) == session_id
            &&& f.subrange(HEADER_SIZE as int, HEADER_SIZE + n).skip(8) == data
            &&& f.skip(HEADER_SIZE + n) == rest
        }),
{
    let n = data.len() + 8;
    let len_field = n as u32;
    let head = be_u16(MAGIC_NUM) + be_u16(msg_id) + be_u32(len_field);
    let body = be_u64(session_id) + data;
    let f = frame_bytes(msg_id, session_id, data) + rest;
    assert(frame_bytes(msg_id, session_id, data) =~= head + body);
    assert(f =~= head + body + rest);
    assert(head.len() == HEADER_SIZE);
    assert(len_field == n);
    assert forall|k: int| 0 <= k < HEADER_SIZE implies f[k] == #[trigger] head[k] by {}
    assert(read_u16(f, 0) == MAGIC_NUM) by {
        assert(head[0] == be_u16(MAGIC_NUM)[0] && head[1] == be_u16(MAGIC_NUM)[1]);
        lemma_read_u16_of(f, 0, MAGIC_NUM);
    }
    assert(read_u16(f, 2) == msg_id) by {
        assert(head[2] == be_u16(msg_id)[0] && head[3] == be_u16(msg_id)[1]);
        lemma_read_u16_of(f, 2, msg_id);
    }
    assert(announced_body_len(f) == n) by {
        assert forall|k: int| 0 <= k < 4 implies f[4 + k] == #[trigger] be_u32(len_field)[k] by {
            assert(head[4 + k] == be_u32(len_field)[k]);
        }
        lemma_read_u32_of(f, 4, len_field);
    }
    let b = f.subrange(HEADER_SIZE as int, HEADER_SIZE + n);
    assert(b =~= body);
    assert(read_u64(b, 0) == session_id) by {
        assert forall|k: int| 0 <= k < 8 implies b[0 + k] == #[trigger] be_u64(session_id)[k] by {
            assert(body[k] == be_u64(session_id)[k]);
        }
        lemma_read_u64_of(b, 0, session_id);
    }
    assert(b.skip(8) =~= data);
    assert(f.skip(HEADER_SIZE + n) =~= rest);
}

/// Decoding gives back what encoding wrote: the frame of a message whose
/// data has at least one byte and whose body fits `MAX_MSG_SIZE`, followed
/// by any bytes `rest`, decodes to that message and leaves `rest`.
pub proof fn law_decode_inverts_encode(msg_id: u16, session_id: u64, data: Seq<u8>, rest: Seq<u8>)
    requires
        1 <= data.len(),
        data.len() + 8 <= MAX_MSG_SIZE,
    ensures
        decoded(frame_bytes(msg_id, session_id, data) + rest) == Some((msg_id, session_id, data)),
        left_after_decode(frame_bytes(msg_id, session_id, data) + rest) == rest,
{
    lemma_frame_fields(msg_id, session_id, data, rest);
}

/// A frame that carries no data is consumed without yielding a message:
/// decoding it, followed by `rest`, gives nothing and leaves `rest`.
pub proof fn law_empty_data_is_dropped(msg_id: u16, session_id: u64, rest: Seq<u8>)
    ensures
        decoded(frame_bytes(msg_id, session_id, Seq::empty()) + rest) is None,
        left_after_decode(frame_bytes(msg_id, session_id, Seq::empty()) + rest) == rest,
{
    lemma_frame_fields(msg_id, session_id, Seq::empty(), rest);
}

/// A frame that has only partly arrived is left alone: decoding any proper
/// prefix of a frame (with a body within `MAX_MSG_SIZE`) gives nothing and
/// consumes nothing.
pub proof fn law_partial_frame_waits(msg_id: u16, session_id: u64, data: Seq<u8>, n: int)
    requires
        data.len() + 8 <= MAX_MSG_SIZE,
        0 <= n < frame_bytes(msg_id, session_id, data).len(),
    ensures
        decoded(frame_bytes(msg_id, session_id, data).take(n)) is None,
        left_after_decode(frame_bytes(msg_id, session_id, data).take(n)) == frame_bytes(
            msg_id,
            session_id,
            data,
        ).take(n),
{
    let f = frame_bytes(msg_id, session_id, data);
    let p = f.take(n);
    lemma_frame_fields(msg_id, session_id, data, Seq::empty());
    assert(f + Seq::<u8>::empty() == f);
    if n >= HEADER_SIZE {
        assert(p[0] == f[0] && p[1] == f[1] && p[2] == f[2] && p[3] == f[3]);
        assert(p[4] == f[4] && p[5] == f[5] && p[6] == f[6] && p[7] == f[7]);
        assert(read_u16(p, 0) == read_u16(f, 0));
        assert(announced_body_len(p) == announced_body_len(f));
    }
}

/// Renders `buf` as lowercase two-digit hexadecimal bytes separated by
/// single spaces, e.g. `[0x73, 0x68, 0x0a]` as `"73 68 0a"`.
pub fn hex_dump(buf: &[u8]) -> (text: String)
    ensures
        text@ == hex_dump_text(buf@),
        text@.len() == if buf@.len() == 0 {
            0
        } else {
            3 * buf@.len() - 1
        },
        forall|i: int|
            0 <= i < buf@.len() ==> 16 * hex_char_value(#[trigger] text@[3 * i]) + hex_char_value(
                text@[3 * i + 1],
            ) == buf@[i],
        forall|i: int| 0 <= i < buf@.len() - 1 ==> #[trigger] text@[3 * i + 2] == ' ',
{
    let mut text = String::new();
    let mut i: usize = 0;
    while i < buf.len()
        invariant
            0 <= i <= buf@.len(),
            text@ == hex_dump_text(buf@.take(i as int)),
        decreases buf@.len() - i,
    {
        let b = buf[i];
        let ghost before = text@;
        if i > 0 {
            proof {
                reveal_strlit(" ");
            }
            text.append(" ");
        }
        let ghost sep = text@;
        text.append(hex_digit_str(b / 16));
        text.append(hex_digit_str(b % 16));
        proof {
            assert(text@ == sep + hex_byte(b));
            if i > 0 {
                assert(sep == before + seq![' ']);
            } else {
                assert(sep == before);
            }
            let next = buf@.take(i + 1);
            assert(next.drop_last() == buf@.take(i as int));
            assert(next.last() == b);
            if i == 0 {
                assert(hex_dump_text(next) == hex_byte(b));
            }
        }
        i = i + 1;
    }
    assert(buf@.take(buf@.len() as int) == buf@);
    proof {
        law_hex_dump_reads_back(buf@);
    }
    text
}

} // verus!
