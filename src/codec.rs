//! Byte-level encodings: big-endian `u32`, length-prefixed frames and the
//! four-byte temperature samples of the telemetry feed.

use vstd::prelude::*;
use vstd::slice::{slice_subrange, slice_to_vec};

verus! {

/// The four big-endian bytes of `x`.
pub open spec fn be_bytes(x: u32) -> Seq<u8> {
    seq![
        (x / 0x100_0000) as u8,
        ((x / 0x1_0000) % 0x100) as u8,
        ((x / 0x100) % 0x100) as u8,
        (x % 0x100) as u8,
    ]
}

/// The number that four big-endian bytes stand for.
pub open spec fn be_value(b: Seq<u8>) -> int
    recommends
        b.len() == 4,
{
    b[0] * 0x100_0000 + b[1] * 0x1_0000 + b[2] * 0x100 + b[3]
}

/// Reading back the bytes of `x` gives `x`.
pub proof fn lemma_be_round_trip(x: u32)
    ensures
        be_value(be_bytes(x)) == x,
{
    let b = be_bytes(x);
    assert(b[0] == x / 0x100_0000);
    assert(b[1] == (x / 0x1_0000) % 0x100);
    assert(b[2] == (x / 0x100) % 0x100);
    assert(b[3] == x % 0x100);
    assert((x / 0x100_0000) * 0x100_0000 + ((x / 0x1_0000) % 0x100) * 0x1_0000 + ((x / 0x100)
        % 0x100) * 0x100 + x % 0x100 == x) by (nonlinear_arith)
        requires
            0 <= x < 0x1_0000_0000,
    ;
}

pub fn encode_u32_be(x: u32) -> (r: Vec<u8>)
    ensures
        r@ == be_bytes(x),
{
    let mut r: Vec<u8> = Vec::new();
    r.push((x / 0x100_0000) as u8);
    r.push(((x / 0x1_0000) % 0x100) as u8);
    r.push(((x / 0x100) % 0x100) as u8);
    r.push((x % 0x100) as u8);
    assert(r@ =~= be_bytes(x));
    r
}

pub fn decode_u32_be(b: &[u8]) -> (r: u32)
    requires
        b@.len() == 4,
    ensures
        r == be_value(b@),
{
    let v: u32 = b[0] as u32 * 0x100_0000 + b[1] as u32 * 0x1_0000 + b[2] as u32 * 0x100
        + b[3] as u32;
    v
}

/// A payload preceded by its length as four big-endian bytes.
pub open spec fn frame_spec(payload: Seq<u8>) -> Seq<u8> {
    be_bytes(payload.len() as u32) + payload
}

/// The payload of a whole frame: present when the bytes after the prefix
/// are exactly as many as the prefix declares.
pub open spec fn unframe_spec(bytes: Seq<u8>) -> Option<Seq<u8>> {
    if bytes.len() >= 4 && be_value(bytes.take(4)) == bytes.len() - 4 {
        Some(bytes.skip(4))
    } else {
        None
    }
}

/// Unframing a frame gives back its payload.
pub proof fn lemma_frame_round_trip(payload: Seq<u8>)
    requires
        payload.len() <= u32::MAX,
    ensures
        unframe_spec(frame_spec(payload)) == Some(payload),
{
    let f = frame_spec(payload);
    lemma_be_round_trip(payload.len() as u32);
    assert(f.take(4) =~= be_bytes(payload.len() as u32));
    assert(f.skip(4) =~= payload);
}

/// Prefixes `payload` with its length.
pub fn encode_frame(payload: &[u8]) -> (r: Vec<u8>)
    requires
        payload@.len() <= u32::MAX,
    ensures
        r@ == frame_spec(payload@),
{
    let mut r = encode_u32_be(payload.len() as u32);
    let mut i: usize = 0;
    while i < payload.len()
        invariant
            i <= payload@.len(),
            r@ == be_bytes(payload@.len() as u32) + payload@.take(i as int),
        decreases payload@.len() - i,
    {
        r.push(payload[i]);
        i = i + 1;
        assert(r@ =~= be_bytes(payload@.len() as u32) + payload@.take(i as int));
    }
    assert(payload@.take(i as int) =~= payload@);
    r
}

/// The body length that a four-byte frame header declares.
pub fn body_length(header: &[u8]) -> (r: Option<u32>)
    ensures
        r == (if header@.len() == 4 {
            Some(be_value(header@) as u32)
        } else {
            None::<u32>
        }),
{
    if header.len() == 4 {
        Some(decode_u32_be(header))
    } else {
        None
    }
}

/// The payload of a whole frame held in `bytes`, or `None` when the bytes are
/// not exactly one frame.
pub fn decode_frame(bytes: &[u8]) -> (r: Option<Vec<u8>>)
    ensures
        r matches Some(v) ==> unframe_spec(bytes@) == Some(v@),
        r is None ==> unframe_spec(bytes@) is None,
{
    if bytes.len() < 4 {
        return None;
    }
    let header = slice_subrange(bytes, 0, 4);
    let declared = decode_u32_be(header);
    assert(header@ == bytes@.take(4));
    if declared as usize != bytes.len() - 4 {
        return None;
    }
    let body = slice_to_vec(slice_subrange(bytes, 4, bytes.len()));
    assert(body@ =~= bytes@.skip(4));
    Some(body)
}

/// Whether the bits of an IEEE-754 single stand for a finite number: its
/// exponent field is not all ones.
pub open spec fn is_finite_bits(bits: u32) -> bool {
    (bits / 0x80_0000) % 0x100 != 0xff
}

/// The bits of a temperature sample: exactly four big-endian bytes that
/// encode a finite number; anything else is rejected.
pub open spec fn sample_spec(bytes: Seq<u8>) -> Option<u32> {
    if bytes.len() == 4 && is_finite_bits(be_value(bytes) as u32) {
        Some(be_value(bytes) as u32)
    } else {
        None
    }
}

pub fn is_finite(bits: u32) -> (r: bool)
    ensures
        r == is_finite_bits(bits),
{
    (bits / 0x80_0000) % 0x100 != 0xff
}

/// Decodes one telemetry sample.
pub fn decode_sample(bytes: &[u8]) -> (r: Option<u32>)
    ensures
        r == sample_spec(bytes@),
{
    if bytes.len() != 4 {
        return None;
    }
    let bits = decode_u32_be(bytes);
    if is_finite(bits) {
        Some(bits)
    } else {
        None
    }
}

/// The sample that carries `bits` is decoded back to `bits` when they are
/// finite, and rejected otherwise.
pub proof fn lemma_sample_round_trip(bits: u32)
    ensures
        sample_spec(be_bytes(bits)) == (if is_finite_bits(bits) {
            Some(bits)
        } else {
            None::<u32>
        }),
{
    lemma_be_round_trip(bits);
}

} // verus!
