//! Length-delimited framing.
//!
//! The byte stream between two peers is a sequence of frames. The concrete
//! choice, fixed here: each frame is a 4-byte big-endian unsigned length
//! followed by that many payload bytes. A buffer whose length prefix or
//! payload is still incomplete splits into no frame yet.

use vstd::prelude::*;

verus! {

/// Width in bytes of the length prefix of a frame.
pub const LENGTH_PREFIX_BYTES: usize = 4;

/// Largest payload a frame can carry: the length prefix is 32 bits wide.
pub const MAX_FRAME_PAYLOAD: usize = 0xffff_ffff;

/// The byte at big-endian position `i` (0 is the most significant) of `v`.
pub open spec fn spec_u32_be_byte(v: u32, i: int) -> u8
    recommends
        0 <= i < 4,
{
    if i == 0 {
        ((v >> 24) & 0xff) as u8
    } else if i == 1 {
        ((v >> 16) & 0xff) as u8
    } else if i == 2 {
        ((v >> 8) & 0xff) as u8
    } else {
        (v & 0xff) as u8
    }
}

/// The 4-byte big-endian encoding of `v`.
pub open spec fn spec_u32_to_be(v: u32) -> Seq<u8> {
    Seq::new(4, |i: int| spec_u32_be_byte(v, i))
}

/// The value of a 4-byte sequence read as a big-endian unsigned integer.
pub open spec fn spec_u32_from_be(b: Seq<u8>) -> u32
    recommends
        b.len() == 4,
{
    (((b[0] as u32) << 24) | ((b[1] as u32) << 16) | ((b[2] as u32) << 8) | (b[3] as u32))
}

/// Reading back the big-endian encoding of `v` yields `v`.
pub proof fn lemma_u32_be_round_trip(v: u32)
    ensures
        spec_u32_from_be(spec_u32_to_be(v)) == v,
{
    let b = spec_u32_to_be(v);
    assert(b[0] == ((v >> 24) & 0xff) as u8);
    assert(b[1] == ((v >> 16) & 0xff) as u8);
    assert(b[2] == ((v >> 8) & 0xff) as u8);
    assert(b[3] == (v & 0xff) as u8);
    assert(((((v >> 24) & 0xff) as u8 as u32) << 24) | ((((v >> 16) & 0xff) as u8 as u32) << 16)
        | ((((v >> 8) & 0xff) as u8 as u32) << 8) | ((v & 0xff) as u8 as u32) == v)
        by (bit_vector);
}

/// One encoded frame: the big-endian length of the payload, then the payload.
pub open spec fn spec_encoded_frame(payload: Seq<u8>) -> Seq<u8>
    recommends
        payload.len() <= 0xffff_ffff,
{
    spec_u32_to_be(payload.len() as u32) + payload
}

/// Splitting a buffer at its first frame boundary: `None` while the length
/// prefix or the announced payload is still incomplete (a truncated frame),
/// otherwise the first frame's payload and the bytes that follow it.
pub open spec fn spec_split_frame(buf: Seq<u8>) -> Option<(Seq<u8>, Seq<u8>)> {
    if buf.len() < 4 {
        None
    } else {
        let n = spec_u32_from_be(buf.take(4)) as int;
        if buf.len() < 4 + n {
            None
        } else {
            Some((buf.subrange(4, 4 + n), buf.skip(4 + n)))
        }
    }
}

/// Encode one frame around `payload`.
pub fn encode_frame(payload: &Vec<u8>) -> (r: Vec<u8>)
    requires
        payload@.len() <= 0xffff_ffff,
    ensures
        r@ == spec_encoded_frame(payload@),
{
    let n: u32 = payload.len() as u32;
    let mut r: Vec<u8> = Vec::new();
    r.push(((n >> 24) & 0xff) as u8);
    r.push(((n >> 16) & 0xff) as u8);
    r.push(((n >> 8) & 0xff) as u8);
    r.push((n & 0xff) as u8);
    proof {
        assert(r@ =~= spec_u32_to_be(n));
    }
    let mut i: usize = 0;
    while i < payload.len()
        invariant
            i <= payload@.len(),
            r@ == spec_u32_to_be(n) + payload@.take(i as int),
        decreases payload@.len() - i,
    {
        r.push(payload[i]);
        proof {
            assert(r@ =~= spec_u32_to_be(n) + payload@.take(i + 1));
        }
        i = i + 1;
    }
    proof {
        assert(payload@.take(payload@.len() as int) =~= payload@);
    }
    r
}

/// Split the first complete frame off the front of `buf`.
///
/// Returns the frame's payload and the remaining bytes, or `None` while the
/// buffer still ends inside a length prefix or inside the announced payload.
pub fn split_frame(buf: &Vec<u8>) -> (r: Option<(Vec<u8>, Vec<u8>)>)
    ensures
        match r {
            Some(pr) => spec_split_frame(buf@) == Some((pr.0@, pr.1@)),
            None => spec_split_frame(buf@) is None,
        },
{
    if buf.len() < LENGTH_PREFIX_BYTES {
        return None;
    }
    let n32: u32 = ((buf[0] as u32) << 24) | ((buf[1] as u32) << 16) | ((buf[2] as u32) << 8)
        | (buf[3] as u32);
    proof {
        assert(buf@.take(4).len() == 4);
        assert(forall|i: int| 0 <= i < 4 ==> buf@.take(4)[i] == buf@[i]);
    }
    let n: usize = n32 as usize;
    if buf.len() - LENGTH_PREFIX_BYTES < n {
        return None;
    }
    let end: usize = LENGTH_PREFIX_BYTES + n;
    let mut payload: Vec<u8> = Vec::new();
    let mut i: usize = LENGTH_PREFIX_BYTES;
    while i < end
        invariant
            4 <= i <= end,
            end == 4 + n,
            end <= buf@.len(),
            payload@ == buf@.subrange(4, i as int),
        decreases end - i,
    {
        payload.push(buf[i]);
        proof {
            assert(payload@ =~= buf@.subrange(4, i + 1));
        }
        i = i + 1;
    }
    let mut rest: Vec<u8> = Vec::new();
    let mut j: usize = end;
    while j < buf.len()
        invariant
            end <= j <= buf@.len(),
            rest@ == buf@.subrange(end as int, j as int),
        decreases buf@.len() - j,
    {
        rest.push(buf[j]);
        proof {
            assert(rest@ =~= buf@.subrange(end as int, j + 1));
        }
        j = j + 1;
    }
    proof {
        assert(rest@ =~= buf@.skip(4 + n as int));
    }
    Some((payload, rest))
}

/// Round trip: a buffer that starts with one encoded frame splits into
/// exactly that frame's payload and the bytes that follow it.
pub proof fn lemma_frame_round_trip(payload: Seq<u8>, rest: Seq<u8>)
    requires
        payload.len() <= 0xffff_ffff,
    ensures
        spec_split_frame(spec_encoded_frame(payload) + rest) == Some((payload, rest)),
{
    let buf = spec_encoded_frame(payload) + rest;
    let n = payload.len() as u32;
    assert(buf.take(4) =~= spec_u32_to_be(n));
    lemma_u32_be_round_trip(n);
    assert(spec_u32_from_be(buf.take(4)) == n);
    assert(buf.len() >= 4 + n as int);
    assert(buf.subrange(4, 4 + n as int) =~= payload);
    assert(buf.skip(4 + n as int) =~= rest);
}

} // verus!
