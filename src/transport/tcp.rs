//! Framing of DNS messages over TCP: a 2-byte big-endian length, then the message.
use vstd::prelude::*;
use crate::dns::{be16, u16_bytes, read_u16, push_all};

verus! {

/// The buffered bytes hold the length prefix and at least the message it announces.
pub open spec fn frame_complete(buf: Seq<u8>) -> bool {
    buf.len() >= 2 && buf.len() >= 2 + be16(buf[0], buf[1])
}

/// Whether a read buffer holds a complete length-prefixed message.
pub fn message_complete(buf: &[u8]) -> (r: bool)
    ensures
        r == frame_complete(buf@),
{
    if buf.len() < 2 {
        return false;
    }
    let msg_len = read_u16(buf, 0) as usize;
    buf.len() - 2 >= msg_len
}

/// The bytes after the length prefix, when there are any.
pub fn tcp_payload(buf: &[u8]) -> (r: Option<&[u8]>)
    ensures
        r is Some <==> buf@.len() > 2,
        r matches Some(p) ==> p@ == buf@.subrange(2, buf@.len() as int),
{
    if buf.len() <= 2 {
        None
    } else {
        Some(vstd::slice::slice_subrange(buf, 2, buf.len()))
    }
}

/// A message with its length prefix (the length taken modulo 2^16, as a `u16` cast does).
pub fn frame_message(msg: &[u8]) -> (r: Vec<u8>)
    ensures
        r@ == u16_bytes(msg@.len() as u16) + msg@,
{
    let len = msg.len() as u16;
    let mut r: Vec<u8> = Vec::new();
    r.push((len / 256) as u8);
    r.push((len % 256) as u8);
    assert(r@ =~= u16_bytes(len));
    push_all(&mut r, msg);
    r
}

} // verus!
