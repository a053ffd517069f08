//! Framing of the TCP byte stream: how many bytes make the next message, and
//! what goes out for a message to send.
use crate::buffers::{
    bytes_contents, bytes_mut_as_slice, bytes_mut_contents, bytes_mut_extend, bytes_mut_freeze, bytes_mut_len,
    bytes_mut_reserve,
};
use crate::error::ShellError;
use crate::message::{
    announced_body_len, decoded, frame_bytes, law_decode_inverts_encode, law_partial_frame_waits,
    lemma_frame_fields,
    left_after_decode, read_u32, Message, HEADER_SIZE, MAX_MSG_SIZE,
};
use crate::text::{decimal, push_decimal};
use bytes::{Bytes, BytesMut};
use vstd::prelude::*;

verus! {

/// The codec of the TCP gateway.
pub struct MessageCodec;

/// The detail of the error for a frame announcing `body_len` bytes of body.
pub open spec fn too_large_text(body_len: nat) -> Seq<char> {
    "Message too large: "@ + decimal(body_len) + " bytes"@
}

/// What the codec makes of the buffered bytes `buf`: nothing yet while less
/// than a header, or less than the announced frame, has arrived; an error
/// when the header announces a body above `MAX_MSG_SIZE`; otherwise what
/// decoding the frame gives.
pub open spec fn codec_decoded(buf: Seq<u8>) -> Result<Option<(u16, u64, Seq<u8>)>, Seq<char>> {
    if buf.len() < HEADER_SIZE {
        Ok(None)
    } else if announced_body_len(buf) > MAX_MSG_SIZE {
        Err(too_large_text(announced_body_len(buf) as nat))
    } else if buf.len() < HEADER_SIZE + announced_body_len(buf) {
        Ok(None)
    } else {
        Ok(decoded(buf))
    }
}

/// What the codec leaves in the buffer: all of it, unless a whole frame
/// within `MAX_MSG_SIZE` was there to decode.
pub open spec fn codec_left(buf: Seq<u8>) -> Seq<u8> {
    if buf.len() < HEADER_SIZE || announced_body_len(buf) > MAX_MSG_SIZE || buf.len()
        < HEADER_SIZE + announced_body_len(buf) {
        buf
    } else {
        left_after_decode(buf)
    }
}

impl MessageCodec {
    /// Takes the next message off the front of `src`, if a whole frame is
    /// there; see `codec_decoded` and `codec_left`. When a frame has only
    /// partly arrived, room for the rest is reserved.
    pub fn decode(&mut self, src: &mut BytesMut) -> (r: Result<Option<Message>, ShellError>)
        ensures
            bytes_mut_contents(*final(src)) == codec_left(bytes_mut_contents(*old(src))),
            match (r, codec_decoded(bytes_mut_contents(*old(src)))) {
                (Ok(Some(m)), Ok(Some(v))) => v == (m.msg_id, m.session_id, m.data@),
                (Ok(None), Ok(None)) => true,
                (Err(ShellError::Codec(text)), Err(t)) => text@ == t,
                _ => false,
            },
    {
        let s = bytes_mut_as_slice(src);
        let len = s.len();
        if len < HEADER_SIZE {
            return Ok(None);
        }
        let body_len = (((s[4] as u32) << 24u32) | ((s[5] as u32) << 16u32) | ((s[6] as u32)
            << 8u32) | (s[7] as u32)) as usize;
        assert(body_len == read_u32(s@, 4));
        if body_len > MAX_MSG_SIZE {
            let mut text = "Message too large: ".to_owned();
            push_decimal(&mut text, body_len as u64);
            text.append(" bytes");
            return Err(ShellError::Codec(text));
        }
        let total_len = HEADER_SIZE + body_len;
        if len < total_len {
            bytes_mut_reserve(src, total_len - len);
            return Ok(None);
        }
        Ok(Message::decode(src))
    }

    /// Writes the message's data, as it is, to `dst`: the data handed to
    /// the connection's writer is already a whole frame.
    pub fn encode(&mut self, item: Message, dst: &mut BytesMut) -> (r: Result<(), ShellError>)
        requires
            bytes_mut_contents(*old(dst)).len() + item.data@.len() <= isize::MAX,
        ensures
            r is Ok,
            bytes_mut_contents(*final(dst)) == bytes_mut_contents(*old(dst)) + item.data@,
    {
        bytes_mut_extend(dst, item.data.as_slice());
        Ok(())
    }

    /// `encode` for any buffer: `false`, with `dst` left as it was, when
    /// the data would take the buffer past `isize::MAX` bytes, which no
    /// buffer can hold; otherwise the data is written and `true` returned.
    pub fn encode_checked(&mut self, item: Message, dst: &mut BytesMut) -> (written: bool)
        ensures
            written == (bytes_mut_contents(*old(dst)).len() + item.data@.len() <= isize::MAX),
            written ==> bytes_mut_contents(*final(dst)) == bytes_mut_contents(*old(dst))
                + item.data@,
            !written ==> bytes_mut_contents(*final(dst)) == bytes_mut_contents(*old(dst)),
    {
        let held = bytes_mut_len(dst);
        if held > isize::MAX as usize || item.data.len() > isize::MAX as usize - held {
            return false;
        }
        let _ = self.encode(item, dst);
        true
    }
}

/// The frame of `msg`, frozen for sending.
pub fn encode_message(msg: &Message) -> (b: Bytes)
    requires
        msg.data@.len() + 16 <= isize::MAX,
    ensures
        bytes_contents(b) == frame_bytes(msg.msg_id, msg.session_id, msg.data@),
{
    let buf = msg.encode();
    bytes_mut_freeze(buf)
}

/// The codec hands back each message sent through the gateway: a stream
/// holding the frame of a message (with at least one byte of data and a
/// body within `MAX_MSG_SIZE`) followed by any bytes `rest` yields that
/// message and keeps `rest`.
pub proof fn law_codec_yields_sent_message(
    msg_id: u16,
    session_id: u64,
    data: Seq<u8>,
    rest: Seq<u8>,
)
    requires
        1 <= data.len(),
        data.len() + 8 <= MAX_MSG_SIZE,
    ensures
        codec_decoded(frame_bytes(msg_id, session_id, data) + rest) == Ok::<
            Option<(u16, u64, Seq<u8>)>,
            Seq<char>,
        >(Some((msg_id, session_id, data))),
        codec_left(frame_bytes(msg_id, session_id, data) + rest) == rest,
{
    law_decode_inverts_encode(msg_id, session_id, data, rest);
    let f = frame_bytes(msg_id, session_id, data) + rest;
    assert(f.len() >= HEADER_SIZE + data.len() + 8);
    assert(decoded(f) is Some);
}

/// The codec waits for a frame to arrive whole: any proper prefix of a
/// frame with a body within `MAX_MSG_SIZE` yields nothing and is kept.
pub proof fn law_codec_waits_for_whole_frame(msg_id: u16, session_id: u64, data: Seq<u8>, n: int)
    requires
        data.len() + 8 <= MAX_MSG_SIZE,
        0 <= n < frame_bytes(msg_id, session_id, data).len(),
    ensures
        codec_decoded(frame_bytes(msg_id, session_id, data).take(n)) == Ok::<
            Option<(u16, u64, Seq<u8>)>,
            Seq<char>,
        >(None),
        codec_left(frame_bytes(msg_id, session_id, data).take(n)) == frame_bytes(
            msg_id,
            session_id,
            data,
        ).take(n),
{
    law_partial_frame_waits(msg_id, session_id, data, n);
    lemma_frame_fields(msg_id, session_id, data, Seq::empty());
    assert(frame_bytes(msg_id, session_id, data) + Seq::<u8>::empty() == frame_bytes(msg_id, session_id, data));
    let f = frame_bytes(msg_id, session_id, data);
    let p = f.take(n);
    if n >= HEADER_SIZE {
        assert(p[4] == f[4] && p[5] == f[5] && p[6] == f[6] && p[7] == f[7]);
        assert(announced_body_len(p) == announced_body_len(f));
    }
}

} // verus!
