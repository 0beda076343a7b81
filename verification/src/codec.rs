//! Envelope codec.
//!
//! Every frame carries an envelope: a fixed-width tenant identifier followed
//! by the payload. The concrete choice, fixed here and relied on by every
//! contract of this crate, is an 8-byte big-endian unsigned integer prefix;
//! the payload is the rest of the frame, uninterpreted.

use vstd::prelude::*;

verus! {

/// Width in bytes of the tenant-identifier prefix of an envelope.
pub const TENANT_ID_BYTES: usize = 8;

/// One decoded envelope: the tenant identifier and the payload, which is the
/// frame bytes minus the tenant-identifier prefix.
pub struct Envelope {
    pub tenant_id: u64,
    pub payload: Vec<u8>,
}

/// The byte at big-endian position `i` (0 is the most significant) of `v`.
pub open spec fn spec_u64_be_byte(v: u64, i: int) -> u8
    recommends
        0 <= i < 8,
{
    if i == 0 {
        ((v >> 56) & 0xff) as u8
    } else if i == 1 {
        ((v >> 48) & 0xff) as u8
    } else if i == 2 {
        ((v >> 40) & 0xff) as u8
    } else if i == 3 {
        ((v >> 32) & 0xff) as u8
    } else if i == 4 {
        ((v >> 24) & 0xff) as u8
    } else if i == 5 {
        ((v >> 16) & 0xff) as u8
    } else if i == 6 {
        ((v >> 8) & 0xff) as u8
    } else {
        (v & 0xff) as u8
    }
}

/// The 8-byte big-endian encoding of `v`.
pub open spec fn spec_u64_to_be(v: u64) -> Seq<u8> {
    Seq::new(8, |i: int| spec_u64_be_byte(v, i))
}

/// The value of an 8-byte sequence read as a big-endian unsigned integer.
pub open spec fn spec_u64_from_be(b: Seq<u8>) -> u64
    recommends
        b.len() == 8,
{
    (((b[0] as u64) << 56) | ((b[1] as u64) << 48) | ((b[2] as u64) << 40) | ((b[3] as u64) << 32)
        | ((b[4] as u64) << 24) | ((b[5] as u64) << 16) | ((b[6] as u64) << 8) | (b[7] as u64))
}

/// A frame holds a well-formed envelope exactly when the tenant-identifier
/// prefix is complete.
pub open spec fn spec_envelope_ok(frame: Seq<u8>) -> bool {
    frame.len() >= 8
}

/// The tenant identifier carried by a well-formed frame.
pub open spec fn spec_tenant_id(frame: Seq<u8>) -> u64
    recommends
        spec_envelope_ok(frame),
{
    spec_u64_from_be(frame.take(8))
}

/// The payload of a well-formed frame: everything after the prefix.
pub open spec fn spec_payload(frame: Seq<u8>) -> Seq<u8>
    recommends
        spec_envelope_ok(frame),
{
    frame.skip(8)
}

/// Reading back the big-endian encoding of `v` yields `v`.
pub proof fn lemma_u64_be_round_trip(v: u64)
    ensures
        spec_u64_from_be(spec_u64_to_be(v)) == v,
{
    let b = spec_u64_to_be(v);
    assert(b[0] == ((v >> 56) & 0xff) as u8);
    assert(b[1] == ((v >> 48) & 0xff) as u8);
    assert(b[2] == ((v >> 40) & 0xff) as u8);
    assert(b[3] == ((v >> 32) & 0xff) as u8);
    assert(b[4] == ((v >> 24) & 0xff) as u8);
    assert(b[5] == ((v >> 16) & 0xff) as u8);
    assert(b[6] == ((v >> 8) & 0xff) as u8);
    assert(b[7] == (v & 0xff) as u8);
    assert(((((v >> 56) & 0xff) as u8 as u64) << 56) | ((((v >> 48) & 0xff) as u8 as u64) << 48)
        | ((((v >> 40) & 0xff) as u8 as u64) << 40) | ((((v >> 32) & 0xff) as u8 as u64) << 32)
        | ((((v >> 24) & 0xff) as u8 as u64) << 24) | ((((v >> 16) & 0xff) as u8 as u64) << 16)
        | ((((v >> 8) & 0xff) as u8 as u64) << 8) | ((v & 0xff) as u8 as u64) == v) by (bit_vector);
}

/// Decode one frame into an envelope.
///
/// Succeeds exactly when the frame is long enough to hold the
/// tenant-identifier prefix; the payload is the frame bytes minus that
/// prefix. A malformed frame yields `None` and is the caller's signal to
/// close the connection that sent it.
pub fn decode_envelope(frame: &Vec<u8>) -> (r: Option<Envelope>)
    ensures
        match r {
            Some(env) => spec_envelope_ok(frame@) && env.tenant_id == spec_tenant_id(frame@)
                && env.payload@ == spec_payload(frame@),
            None => !spec_envelope_ok(frame@),
        },
{
    if frame.len() < TENANT_ID_BYTES {
        return None;
    }
    let tenant_id: u64 = ((frame[0] as u64) << 56) | ((frame[1] as u64) << 48)
        | ((frame[2] as u64) << 40) | ((frame[3] as u64) << 32) | ((frame[4] as u64) << 24)
        | ((frame[5] as u64) << 16) | ((frame[6] as u64) << 8) | (frame[7] as u64);
    proof {
        assert(frame@.take(8).len() == 8);
        assert(forall|i: int| 0 <= i < 8 ==> frame@.take(8)[i] == frame@[i]);
    }
    let mut payload: Vec<u8> = Vec::new();
    let mut i: usize = TENANT_ID_BYTES;
    while i < frame.len()
        invariant
            8 <= i <= frame@.len(),
            payload@ == frame@.subrange(8, i as int),
        decreases frame@.len() - i,
    {
        payload.push(frame[i]);
        proof {
            assert(payload@ =~= frame@.subrange(8, i + 1));
        }
        i = i + 1;
    }
    proof {
        assert(payload@ =~= spec_payload(frame@));
    }
    Some(Envelope { tenant_id, payload })
}

/// Encode an envelope: the 8-byte big-endian tenant identifier followed by
/// the payload bytes. Decoding the result gives back exactly the inputs.
pub fn encode_envelope(tenant_id: u64, payload: &Vec<u8>) -> (r: Vec<u8>)
    ensures
        r@ == spec_u64_to_be(tenant_id) + payload@,
        spec_envelope_ok(r@),
        spec_tenant_id(r@) == tenant_id,
        spec_payload(r@) == payload@,
{
    let mut r: Vec<u8> = Vec::new();
    r.push(((tenant_id >> 56) & 0xff) as u8);
    r.push(((tenant_id >> 48) & 0xff) as u8);
    r.push(((tenant_id >> 40) & 0xff) as u8);
    r.push(((tenant_id >> 32) & 0xff) as u8);
    r.push(((tenant_id >> 24) & 0xff) as u8);
    r.push(((tenant_id >> 16) & 0xff) as u8);
    r.push(((tenant_id >> 8) & 0xff) as u8);
    r.push((tenant_id & 0xff) as u8);
    proof {
        assert(r@ =~= spec_u64_to_be(tenant_id));
    }
    let mut i: usize = 0;
    while i < payload.len()
        invariant
            i <= payload@.len(),
            r@ == spec_u64_to_be(tenant_id) + payload@.take(i as int),
        decreases payload@.len() - i,
    {
        r.push(payload[i]);
        proof {
            assert(r@ =~= spec_u64_to_be(tenant_id) + payload@.take(i + 1));
        }
        i = i + 1;
    }
    proof {
        assert(payload@.take(payload@.len() as int) =~= payload@);
        lemma_u64_be_round_trip(tenant_id);
        assert(r@.take(8) =~= spec_u64_to_be(tenant_id));
        assert(r@.skip(8) =~= payload@);
    }
    r
}

} // verus!
