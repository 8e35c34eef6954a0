//! Frames: a payload behind its length, as the companion processes exchange
//! them with the application.

use vstd::prelude::*;

use crate::text;

verus! {

/// The longest payload that is read or written. What is sent is prose, so only a
/// mistake goes past this.
pub const MAX_FRAME_BYTES: usize = 1048576;

/// Four bytes of a number, the most significant first.
pub open spec fn be32(n: nat) -> Seq<u8> {
    seq![
        (n / 16777216) as u8,
        (n / 65536 % 256) as u8,
        (n / 256 % 256) as u8,
        (n % 256) as u8,
    ]
}

/// The number that four bytes stand for.
pub open spec fn of_be32(b: Seq<u8>) -> nat {
    (b[0] * 16777216 + b[1] * 65536 + b[2] * 256 + b[3]) as nat
}

/// A payload behind its length.
pub open spec fn framed(payload: Seq<u8>) -> Seq<u8> {
    be32(payload.len()) + payload
}

/// Why no payload could be had.
#[derive(Debug)]
pub enum FrameError {
    /// The bytes ended too early.
    Short,
    /// The length is none that a frame can have.
    InvalidData { message: String },
}

/// What is said of a length that no frame can have.
pub open spec fn out_of_bounds(len: nat) -> Seq<char> {
    "frame length "@ + text::dec(len) + " out of bounds"@
}

/// A frame as it goes over the wire.
pub(crate) fn put(payload: &[u8]) -> (r: Vec<u8>)
    requires
        payload.len() <= u32::MAX,
    ensures
        r@ == framed(payload@),
{
    let n: usize = payload.len();
    let mut r: Vec<u8> = Vec::new();
    r.push((n / 16777216) as u8);
    r.push((n / 65536 % 256) as u8);
    r.push((n / 256 % 256) as u8);
    r.push((n % 256) as u8);
    assert(r@ =~= be32(payload@.len()));
    let mut i: usize = 0;
    while i < payload.len()
        invariant
            i <= payload.len(),
            r@ == be32(payload@.len()) + payload@.take(i as int),
        decreases payload.len() - i,
    {
        r.push(payload[i]);
        assert(payload@.take(i + 1) =~= payload@.take(i as int).push(payload@[i as int]));
        i = i + 1;
    }
    assert(payload@.take(i as int) =~= payload@);
    r
}

/// Frame a payload, unless it is longer than a frame may be.
pub fn write_frame(payload: &[u8]) -> (r: Result<Vec<u8>, FrameError>)
    ensures
        if payload@.len() > MAX_FRAME_BYTES {
            r matches Err(FrameError::InvalidData { message }) && message@ == "frame of "@
                + text::dec(payload@.len()) + " bytes exceeds the cap"@
        } else {
            r matches Ok(b) && b@ == framed(payload@)
        },
{
    if payload.len() > MAX_FRAME_BYTES {
        let n = text::decimal(payload.len() as u64);
        return Err(
            FrameError::InvalidData { message: text::cat3("frame of ", &n, " bytes exceeds the cap") },
        );
    }
    Ok(put(payload))
}

/// The length that the first four bytes of a frame announce.
pub fn frame_length(prefix: [u8; 4]) -> (r: Result<usize, FrameError>)
    ensures
        ({
            let len = of_be32(prefix@);
            if len == 0 || len > MAX_FRAME_BYTES {
                r matches Err(FrameError::InvalidData { message }) && message@ == out_of_bounds(len)
            } else {
                r matches Ok(n) && n == len
            }
        }),
{
    let len: u64 = prefix[0] as u64 * 16777216 + prefix[1] as u64 * 65536 + prefix[2] as u64 * 256
        + prefix[3] as u64;
    if len == 0 || len > MAX_FRAME_BYTES as u64 {
        let n = text::decimal(len);
        return Err(
            FrameError::InvalidData { message: text::cat3("frame length ", &n, " out of bounds") },
        );
    }
    Ok(len as usize)
}

/// Read the frame that the bytes start with.
pub fn read_frame(bytes: &[u8]) -> (r: Result<Vec<u8>, FrameError>)
    ensures
        if bytes@.len() < 4 {
            r matches Err(FrameError::Short)
        } else {
            let len = of_be32(bytes@.take(4));
            if len == 0 || len > MAX_FRAME_BYTES {
                r matches Err(FrameError::InvalidData { message }) && message@ == out_of_bounds(len)
            } else if bytes@.len() < 4 + len {
                r matches Err(FrameError::Short)
            } else {
                r matches Ok(p) && p@ == bytes@.subrange(4, 4 + len as int)
            }
        },
{
    if bytes.len() < 4 {
        return Err(FrameError::Short);
    }
    let prefix: [u8; 4] = [bytes[0], bytes[1], bytes[2], bytes[3]];
    assert(prefix@ =~= bytes@.take(4));
    let len: usize = match frame_length(prefix) {
        Ok(n) => n,
        Err(e) => {
            return Err(e);
        },
    };
    if bytes.len() - 4 < len {
        return Err(FrameError::Short);
    }
    let mut p: Vec<u8> = Vec::new();
    let mut i: usize = 0;
    while i < len
        invariant
            i <= len,
            4 + len <= bytes.len(),
            p@ == bytes@.subrange(4, 4 + i),
        decreases len - i,
    {
        p.push(bytes[4 + i]);
        assert(bytes@.subrange(4, 4 + i + 1) =~= bytes@.subrange(4, 4 + i).push(
            bytes@[4 + i as int],
        ));
        i = i + 1;
    }
    Ok(p)
}

/// What was written is what is read: the length in front of a payload is its own,
/// and what follows is the payload.
pub proof fn a_frame_round_trips(payload: Seq<u8>, rest: Seq<u8>)
    requires
        0 < payload.len() <= MAX_FRAME_BYTES,
    ensures
        ({
            let bytes = framed(payload) + rest;
            &&& bytes.len() >= 4 + payload.len()
            &&& of_be32(bytes.take(4)) == payload.len()
            &&& bytes.subrange(4, 4 + payload.len() as int) == payload
        }),
{
    let bytes = framed(payload) + rest;
    assert(bytes.take(4) =~= be32(payload.len()));
    assert(bytes.subrange(4, 4 + payload.len() as int) =~= payload);
}

/// A length is written with its largest byte first, in four bytes, and is read as it is
/// written; so is the frame's length by anyone who reads its four bytes in that order.
pub proof fn a_length_is_four_bytes(n: nat, a: u8, b: u8, c: u8, d: u8)
    requires
        n < 0x1_0000_0000,
    ensures
        of_be32(seq![a, b, c, d]) == ((a * 256 + b) * 256 + c) * 256 + d,
        be32(n).len() == 4,
        ((be32(n)[0] * 256 + be32(n)[1]) * 256 + be32(n)[2]) * 256 + be32(n)[3] == n,
        n < 256 ==> be32(n) == seq![0u8, 0u8, 0u8, n as u8],
        MAX_FRAME_BYTES == 1024 * 1024,
{
    assert(n / 16777216 < 256);
    assert(((n / 16777216 * 256 + n / 65536 % 256) * 256 + n / 256 % 256) * 256 + n % 256 == n)
        by {
        assert(n == n / 256 * 256 + n % 256);
        assert(n / 256 == n / 65536 * 256 + n / 256 % 256);
        assert(n / 65536 == n / 16777216 * 256 + n / 65536 % 256);
    }
}

/// A frame is its payload's length and then its payload, and no more.
pub proof fn a_frame_adds_four_bytes(payload: Seq<u8>)
    ensures
        framed(payload).len() == payload.len() + 4,
        framed(payload).skip(4) == payload,
{
    assert(framed(payload).skip(4) =~= payload);
}

} // verus!
