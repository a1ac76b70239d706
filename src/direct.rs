//! Framing of the direct message exchange: a four-byte big-endian length,
//! then the encoded message. The responder answers a request that decodes
//! with an acknowledgment, and drops one that does not.
use vstd::prelude::*;
use crate::protocol::{decode_direct, direct_bytes, DirectMessage, DirectView};

verus! {

/// Protocol tag of the direct-messaging connections.
pub const MSG_ALPN: &'static str = "clawnet/msg/1";

/// Largest message length that a reader accepts: one mebibyte.
pub const MAX_FRAME_LEN: u32 = 1048576;

/// Content of the acknowledgment that a responder sends back.
pub const ACK_CONTENT: &'static str = "received";

/// The four bytes of `n`, most significant first.
pub open spec fn be32_bytes(n: nat) -> Seq<u8> {
    seq![(n / 16777216) as u8, ((n / 65536) % 256) as u8, ((n / 256) % 256) as u8, (n % 256) as u8]
}

/// The number whose four bytes, most significant first, are `b`.
pub open spec fn be32_value(b: Seq<u8>) -> nat {
    (b[0] as nat) * 16777216 + (b[1] as nat) * 65536 + (b[2] as nat) * 256 + (b[3] as nat)
}

/// A declared length was over the limit.
#[derive(Debug, Clone, Copy, PartialEq, Eq)]
pub struct FrameTooLarge;

/// Reads a declared length from its four bytes.
pub fn frame_len(header: [u8; 4]) -> (r: u32)
    ensures
        r as nat == be32_value(header@),
{
    let v: u32 = (header[0] as u32) * 16777216 + (header[1] as u32) * 65536 + (header[2] as u32)
        * 256 + (header[3] as u32);
    v
}

/// Accepts a declared length up to the limit, and gives it as a buffer size.
pub fn check_frame_len(len: u32) -> (r: Result<usize, FrameTooLarge>)
    ensures
        len <= MAX_FRAME_LEN <==> r is Ok,
        r matches Ok(n) ==> n == len,
{
    if len > MAX_FRAME_LEN {
        Err(FrameTooLarge)
    } else {
        Ok(len as usize)
    }
}

/// Puts the length in front of `payload`; nothing where the length does not
/// fit in four bytes.
pub fn frame(payload: &Vec<u8>) -> (r: Option<Vec<u8>>)
    ensures
        r is Some <==> payload@.len() <= u32::MAX,
        r matches Some(f) ==> f@ == be32_bytes(payload@.len()) + payload@,
{
    if payload.len() > u32::MAX as usize {
        return None;
    }
    let n: u32 = payload.len() as u32;
    let mut out: Vec<u8> = Vec::new();
    out.push((n / 16777216) as u8);
    out.push(((n / 65536) % 256) as u8);
    out.push(((n / 256) % 256) as u8);
    out.push((n % 256) as u8);
    let ghost head = out@;
    let mut k: usize = 0;
    while k < payload.len()
        invariant
            k <= payload@.len(),
            out@ == head + payload@.subrange(0, k as int),
        decreases payload@.len() - k,
    {
        out.push(payload[k]);
        k = k + 1;
        assert(out@ =~= head + payload@.subrange(0, k as int));
    }
    assert(payload@.subrange(0, k as int) =~= payload@);
    assert(head =~= be32_bytes(payload@.len()));
    Some(out)
}

/// The acknowledgment that node `my_id` sends at time `now`.
pub open spec fn ack_view(my_id: Seq<char>, now: u64) -> DirectView {
    DirectView { from: my_id, content: ACK_CONTENT@, timestamp: now }
}

/// The responder's answer to a request body: the framed acknowledgment where
/// the body decodes as a direct message, nothing where it does not (or where
/// the acknowledgment would not fit in a frame).
pub fn respond(request: &[u8], my_id: &String, now: u64) -> (r: Option<Vec<u8>>)
    ensures
        decode_direct(request@) is None ==> r is None,
        decode_direct(request@) is Some && direct_bytes(ack_view(my_id@, now)).len() <= u32::MAX
            ==> r is Some,
        r matches Some(f) ==> f@ == be32_bytes(direct_bytes(ack_view(my_id@, now)).len())
            + direct_bytes(ack_view(my_id@, now)),
{
    match DirectMessage::from_bytes(request) {
        Err(_) => None,
        Ok(_) => {
            let ack = DirectMessage {
                from: my_id.clone(),
                content: ACK_CONTENT.to_string(),
                timestamp: now,
            };
            let body = ack.to_bytes();
            frame(&body)
        },
    }
}

/// The framed request that node `from` sends with `content` at time `now`.
pub fn request_frame(from: &String, content: &String, now: u64) -> (r: Option<Vec<u8>>)
    ensures
        r is Some <==> direct_bytes(DirectView { from: from@, content: content@, timestamp: now }).len()
            <= u32::MAX,
        r matches Some(f) ==> f@ == be32_bytes(
            direct_bytes(DirectView { from: from@, content: content@, timestamp: now }).len(),
        ) + direct_bytes(DirectView { from: from@, content: content@, timestamp: now }),
{
    let msg = DirectMessage { from: from.clone(), content: content.clone(), timestamp: now };
    let body = msg.to_bytes();
    frame(&body)
}

/// The content of a response body, where it decodes as a direct message.
pub fn response_content(body: &[u8]) -> (r: Option<String>)
    ensures
        match decode_direct(body@) {
            Some(m) => r matches Some(c) && c@ == m.content,
            None => r is None,
        },
{
    match DirectMessage::from_bytes(body) {
        Ok(m) => Some(m.content),
        Err(_) => None,
    }
}

} // verus!
