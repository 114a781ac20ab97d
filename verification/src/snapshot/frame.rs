//! On-disk frame around an encoded snapshot: a magic number, a checksum of
//! the payload, the payload's length, then the payload.

use super::hash::{checksum_bytes, fnv, law_checksum_detects_one_changed_byte, FNV_OFFSET};
use crate::bytes::{
    le_bytes, le_value, lemma_le_bytes_len, lemma_le_bytes_of_value, lemma_le_limits,
    lemma_le_value_of_bytes, push_le, read_le, same_bytes,
};
use vstd::prelude::*;
use vstd::slice::slice_subrange;

verus! {

/// The eight bytes every frame starts with: `ROCMLSN1`.
pub open spec fn magic() -> Seq<u8> {
    seq![82u8, 79u8, 67u8, 77u8, 76u8, 83u8, 78u8, 49u8]
}

/// Bytes before the payload.
pub const HEADER_LEN: usize = 24;

/// The frame around `payload`.
pub open spec fn framed(payload: Seq<u8>) -> Seq<u8> {
    magic() + le_bytes(fnv(FNV_OFFSET, payload) as nat, 8) + le_bytes(payload.len(), 8) + payload
}

fn magic_bytes() -> (r: Vec<u8>)
    ensures
        r@ == magic(),
{
    let r: Vec<u8> = vec![82u8, 79u8, 67u8, 77u8, 76u8, 83u8, 78u8, 49u8];
    assert(r@ =~= magic());
    r
}

/// The parts of a frame are where the header says.
proof fn lemma_framed_parts(payload: Seq<u8>)
    requires
        payload.len() <= u64::MAX,
    ensures
        framed(payload).len() == HEADER_LEN + payload.len(),
        framed(payload).subrange(0, 8) == magic(),
        le_value(framed(payload).subrange(8, 16)) == fnv(FNV_OFFSET, payload),
        le_value(framed(payload).subrange(16, 24)) == payload.len(),
        framed(payload).skip(24) == payload,
{
    let c = fnv(FNV_OFFSET, payload) as nat;
    let n = payload.len();
    lemma_le_limits();
    lemma_le_bytes_len(c, 8);
    lemma_le_bytes_len(n, 8);
    lemma_le_value_of_bytes(c, 8);
    lemma_le_value_of_bytes(n, 8);
    let f = framed(payload);
    assert(f.subrange(0, 8) =~= magic());
    assert(f.subrange(8, 16) =~= le_bytes(c, 8));
    assert(f.subrange(16, 24) =~= le_bytes(n, 8));
    assert(f.skip(24) =~= payload);
}

/// A byte sequence whose parts agree with its header is a frame.
proof fn lemma_parts_make_frame(f: Seq<u8>)
    requires
        f.len() >= HEADER_LEN,
        f.subrange(0, 8) == magic(),
        le_value(f.subrange(8, 16)) == fnv(FNV_OFFSET, f.skip(24)),
        le_value(f.subrange(16, 24)) == f.skip(24).len(),
    ensures
        f == framed(f.skip(24)),
{
    lemma_le_bytes_of_value(f.subrange(8, 16));
    lemma_le_bytes_of_value(f.subrange(16, 24));
    assert(f =~= f.subrange(0, 8) + f.subrange(8, 16) + f.subrange(16, 24) + f.skip(24));
}

/// Wraps a payload.
pub fn frame(payload: &[u8]) -> (out: Vec<u8>)
    ensures
        out@ == framed(payload@),
{
    let mut out: Vec<u8> = magic_bytes();
    push_le(&mut out, checksum_bytes(payload), 8);
    push_le(&mut out, payload.len() as u64, 8);
    out.extend_from_slice(payload);
    proof {
        assert(out@ =~= framed(payload@));
    }
    out
}

/// The payload of a frame. Anything that is not exactly a frame (a short
/// file, a wrong magic number, a length or checksum that does not agree,
/// trailing bytes) is reported the same way.
pub fn unframe(bytes: &[u8]) -> (r: Option<&[u8]>)
    ensures
        match r {
            Some(payload) => bytes@ == framed(payload@),
            None => forall|payload: Seq<u8>|
                payload.len() <= u64::MAX ==> bytes@ != #[trigger] framed(payload),
        },
{
    proof {
        assert forall|payload: Seq<u8>|
            payload.len() <= u64::MAX && bytes@ == #[trigger] framed(payload) implies {
            &&& bytes@.len() == HEADER_LEN + payload.len()
            &&& bytes@.subrange(0, 8) == magic()
            &&& le_value(bytes@.subrange(8, 16)) == fnv(FNV_OFFSET, payload)
            &&& le_value(bytes@.subrange(16, 24)) == payload.len()
            &&& bytes@.skip(24) == payload
        } by {
            lemma_framed_parts(payload);
        }
    }
    if bytes.len() < HEADER_LEN {
        return None;
    }
    let expected = magic_bytes();
    if !same_bytes(slice_subrange(bytes, 0, 8), expected.as_slice()) {
        return None;
    }
    let checksum: u64 = read_le(slice_subrange(bytes, 8, 16));
    let payload_len: u64 = read_le(slice_subrange(bytes, 16, 24));
    let payload = slice_subrange(bytes, 24, bytes.len());
    assert(payload@ =~= bytes@.skip(24));
    if payload.len() as u64 != payload_len {
        return None;
    }
    if checksum_bytes(payload) != checksum {
        return None;
    }
    proof {
        lemma_parts_make_frame(bytes@);
    }
    Some(payload)
}

/// Two payloads with the same frame are the same payload.
pub proof fn law_frame_is_injective(a: Seq<u8>, b: Seq<u8>)
    requires
        a.len() <= u64::MAX,
        b.len() <= u64::MAX,
        framed(a) == framed(b),
    ensures
        a == b,
{
    lemma_framed_parts(a);
    lemma_framed_parts(b);
}

/// No proper prefix of a frame is a frame.
pub proof fn law_truncated_frame_is_rejected(payload: Seq<u8>, cut: int, other: Seq<u8>)
    requires
        payload.len() <= u64::MAX,
        other.len() <= u64::MAX,
        0 <= cut < framed(payload).len(),
    ensures
        framed(payload).take(cut) != framed(other),
{
    lemma_framed_parts(payload);
    lemma_framed_parts(other);
    if framed(payload).take(cut) == framed(other) {
        assert(framed(payload).subrange(16, 24) =~= framed(payload).take(cut).subrange(16, 24));
    }
}

/// A frame with one byte changed, in the header or in the payload, is not a
/// frame: corruption confined to one byte never goes unnoticed.
pub proof fn law_one_changed_byte_is_rejected(
    payload: Seq<u8>,
    at: int,
    byte: u8,
    other: Seq<u8>,
)
    requires
        payload.len() <= u64::MAX,
        other.len() <= u64::MAX,
        0 <= at < framed(payload).len(),
        byte != framed(payload)[at],
    ensures
        framed(payload).update(at, byte) != framed(other),
{
    let f = framed(payload);
    let g = f.update(at, byte);
    lemma_framed_parts(payload);
    lemma_framed_parts(other);
    if g == framed(other) {
        assert(g.len() == f.len());
        if at < 8 {
            assert(f.subrange(0, 8)[at] == f[at]);
            assert(g.subrange(0, 8)[at] == g[at]);
        } else if at < 24 {
            assert(g.skip(24) =~= f.skip(24));
            assert(payload == other);
        } else {
            assert(payload.len() == other.len());
            assert(payload[at - 24] == f[at]);
            assert(other[at - 24] == g[at]);
            assert forall|i: int| 0 <= i < payload.len() && i != at - 24 implies payload[i]
                == other[i] by {
                assert(payload[i] == f.skip(24)[i]);
                assert(other[i] == g.skip(24)[i]);
            }
            assert(f.subrange(8, 16) =~= g.subrange(8, 16));
            law_checksum_detects_one_changed_byte(payload, other, at - 24);
        }
    }
}

} // verus!
