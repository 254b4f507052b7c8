//! Length-prefixed message delimiting over a byte stream: one frame is a
//! 4-byte unsigned big-endian length followed by exactly that many bytes of
//! one encoded message. A frame is atomic: a partial frame is never
//! interpreted.
use crate::bytes::{
    be_u32, be_u32_at, lemma_be_u32_at_prefix, push_be_u32, read_be_u32,
};
use vstd::prelude::*;

verus! {

/// The bytes of one frame around `payload`.
pub open spec fn spec_frame(payload: Seq<u8>) -> Seq<u8> {
    be_u32(payload.len() as u32) + payload
}

/// Whether `b` starts with one complete frame: a full length header whose
/// declared payload is fully present.
pub open spec fn has_complete_frame(b: Seq<u8>) -> bool {
    b.len() >= 4 && 4 + be_u32_at(b, 0) as int <= b.len()
}

/// The payload of the frame at the front of `b`.
pub open spec fn spec_frame_payload(b: Seq<u8>) -> Seq<u8>
    recommends
        has_complete_frame(b),
{
    b.subrange(4, 4 + be_u32_at(b, 0) as int)
}

/// Wraps `payload` in one frame, exactly as `spec_frame` says.
pub fn encode_frame(payload: &Vec<u8>) -> (r: Vec<u8>)
    requires
        payload@.len() <= u32::MAX,
    ensures
        r@ == spec_frame(payload@),
{
    let mut out: Vec<u8> = Vec::new();
    push_be_u32(&mut out, payload.len() as u32);
    let mut tail = payload.clone();
    out.append(&mut tail);
    assert(out@ =~= spec_frame(payload@));
    out
}

/// Takes the frame at the front of `buf`, if one is completely present:
/// its payload, and the position just past it. A buffer that holds no
/// complete frame — mid-length or mid-payload — yields nothing.
pub fn take_frame(buf: &[u8]) -> (r: Option<(Vec<u8>, usize)>)
    ensures
        match r {
            Some(p) => has_complete_frame(buf@) && p.0@ == spec_frame_payload(buf@) && p.1 as int
                == 4 + be_u32_at(buf@, 0) as int,
            None => !has_complete_frame(buf@),
        },
{
    let total = buf.len();
    if total < 4 {
        return None;
    }
    let declared = read_be_u32(buf, 0);
    let avail = (total - 4) as u64;
    if declared as u64 > avail {
        return None;
    }
    let len = declared as usize;
    let payload = vstd::slice::slice_subrange(buf, 4, 4 + len);
    Some((vstd::slice::slice_to_vec(payload), 4 + len))
}

/// Framing round-trip: a frame written for `payload` and followed by any
/// later bytes is complete, and reading it back yields `payload` and hands
/// the stream on at exactly the frame's end.
pub proof fn lemma_frame_roundtrip(payload: Seq<u8>, rest: Seq<u8>)
    requires
        payload.len() <= u32::MAX,
    ensures
        has_complete_frame(spec_frame(payload) + rest),
        spec_frame_payload(spec_frame(payload) + rest) == payload,
        spec_frame(payload).len() == 4 + payload.len(),
{
    let b = spec_frame(payload) + rest;
    let n = payload.len() as u32;
    assert(be_u32_at(b, 0) == n) by {
        assert(b =~= be_u32(n) + (payload + rest));
        lemma_be_u32_at_prefix(n, payload + rest);
    }
    assert(b.subrange(4, 4 + n as int) =~= payload);
}

} // verus!
