//! Fixed-width conversion between 64-bit integers and 8-byte sequences.
//!
//! The byte order is little-endian on every machine: the least significant
//! byte comes first, whatever the native order of the host.
use vstd::prelude::*;

verus! {

/// The eight bytes of `x`, least significant first.
pub open spec fn le_bytes(x: u64) -> Seq<u8> {
    seq![
        (x & 0xff) as u8,
        ((x >> 8u64) & 0xff) as u8,
        ((x >> 16u64) & 0xff) as u8,
        ((x >> 24u64) & 0xff) as u8,
        ((x >> 32u64) & 0xff) as u8,
        ((x >> 40u64) & 0xff) as u8,
        ((x >> 48u64) & 0xff) as u8,
        ((x >> 56u64) & 0xff) as u8,
    ]
}

/// The unsigned value of eight bytes read least significant first.
pub open spec fn le_value(b: Seq<u8>) -> u64
    recommends
        b.len() == 8,
{
    (b[0] as u64) | ((b[1] as u64) << 8u64) | ((b[2] as u64) << 16u64) | ((b[3] as u64) << 24u64)
        | ((b[4] as u64) << 32u64) | ((b[5] as u64) << 40u64) | ((b[6] as u64) << 48u64) | ((
    b[7] as u64) << 56u64)
}

/// A decoding error: the buffer holds fewer than eight bytes.
#[derive(Debug, Clone, Copy, PartialEq, Eq, Structural)]
pub enum CodecError {
    ShortBuffer,
}

proof fn lemma_value_of_bytes(x: u64)
    ensures
        le_value(le_bytes(x)) == x,
{
    let b = le_bytes(x);
    assert(b[0] == (x & 0xff) as u8);
    assert(b[7] == ((x >> 56u64) & 0xff) as u8);
    assert(x == (((x & 0xff) as u8) as u64) | (((((x >> 8u64) & 0xff) as u8) as u64) << 8u64) | ((
    (((x >> 16u64) & 0xff) as u8) as u64) << 16u64) | (((((x >> 24u64) & 0xff) as u8) as u64)
        << 24u64) | (((((x >> 32u64) & 0xff) as u8) as u64) << 32u64) | (((((x >> 40u64) & 0xff)
        as u8) as u64) << 40u64) | (((((x >> 48u64) & 0xff) as u8) as u64) << 48u64) | (((((x
        >> 56u64) & 0xff) as u8) as u64) << 56u64)) by (bit_vector);
}

proof fn lemma_bytes_of_value(b: Seq<u8>)
    requires
        b.len() == 8,
    ensures
        le_bytes(le_value(b)) == b,
{
    let (b0, b1, b2, b3, b4, b5, b6, b7) = (b[0], b[1], b[2], b[3], b[4], b[5], b[6], b[7]);
    let v = le_value(b);
    assert(v == (b0 as u64) | ((b1 as u64) << 8u64) | ((b2 as u64) << 16u64) | ((b3 as u64)
        << 24u64) | ((b4 as u64) << 32u64) | ((b5 as u64) << 40u64) | ((b6 as u64) << 48u64) | ((
    b7 as u64) << 56u64));
    assert((v & 0xff) as u8 == b0 && ((v >> 8u64) & 0xff) as u8 == b1 && ((v >> 16u64) & 0xff)
        as u8 == b2 && ((v >> 24u64) & 0xff) as u8 == b3 && ((v >> 32u64) & 0xff) as u8 == b4 && ((
    v >> 40u64) & 0xff) as u8 == b5 && ((v >> 48u64) & 0xff) as u8 == b6 && ((v >> 56u64)
        & 0xff) as u8 == b7) by (bit_vector)
        requires
            v == (b0 as u64) | ((b1 as u64) << 8u64) | ((b2 as u64) << 16u64) | ((b3 as u64)
                << 24u64) | ((b4 as u64) << 32u64) | ((b5 as u64) << 40u64) | ((b6 as u64)
                << 48u64) | ((b7 as u64) << 56u64),
    ;
    assert(le_bytes(v) =~= b);
}

/// Decoding the encoding of an unsigned value gives the value back, and
/// the encoding is a function of the value alone.
pub proof fn lemma_u64_round_trip(x: u64)
    ensures
        le_value(le_bytes(x)) == x,
        le_bytes(x).len() == 8,
{
    lemma_value_of_bytes(x);
}

/// Decoding the encoding of a signed value gives the value back.
pub proof fn lemma_i64_round_trip(x: i64)
    ensures
        le_value(le_bytes(x as u64)) as i64 == x,
{
    lemma_value_of_bytes(x as u64);
    assert(((x as u64) as i64) == x) by (bit_vector);
}

/// Encoding the value of eight bytes gives the same eight bytes.
pub proof fn lemma_bytes_round_trip(b: Seq<u8>)
    requires
        b.len() == 8,
    ensures
        le_bytes(le_value(b)) == b,
        le_bytes((le_value(b) as i64) as u64) == b,
{
    lemma_bytes_of_value(b);
    let v = le_value(b);
    assert(((v as i64) as u64) == v) by (bit_vector);
}

/// Reads eight bytes as an unsigned value.
pub fn bytes_to_u64(x: &[u8; 8]) -> (r: u64)
    ensures
        r == le_value(x@),
{
    (x[0] as u64) | ((x[1] as u64) << 8u64) | ((x[2] as u64) << 16u64) | ((x[3] as u64) << 24u64)
        | ((x[4] as u64) << 32u64) | ((x[5] as u64) << 40u64) | ((x[6] as u64) << 48u64) | ((
    x[7] as u64) << 56u64)
}

/// Reads eight bytes as a signed (two's complement) value.
pub fn bytes_to_i64(x: &[u8; 8]) -> (r: i64)
    ensures
        r == le_value(x@) as i64,
{
    bytes_to_u64(x) as i64
}

/// The eight bytes of an unsigned value.
pub fn u64_to_bytes(x: u64) -> (r: [u8; 8])
    ensures
        r@ == le_bytes(x),
{
    let r = [
        (x & 0xff) as u8,
        ((x >> 8u64) & 0xff) as u8,
        ((x >> 16u64) & 0xff) as u8,
        ((x >> 24u64) & 0xff) as u8,
        ((x >> 32u64) & 0xff) as u8,
        ((x >> 40u64) & 0xff) as u8,
        ((x >> 48u64) & 0xff) as u8,
        ((x >> 56u64) & 0xff) as u8,
    ];
    assert(r@ =~= le_bytes(x));
    r
}

/// The eight bytes of a signed (two's complement) value.
pub fn i64_to_bytes(x: i64) -> (r: [u8; 8])
    ensures
        r@ == le_bytes(x as u64),
{
    u64_to_bytes(x as u64)
}

/// Reads an unsigned value from the first eight bytes of `buf`.
pub fn decode_u64(buf: &[u8]) -> (r: Result<u64, CodecError>)
    ensures
        buf@.len() < 8 ==> r == Err::<u64, CodecError>(CodecError::ShortBuffer),
        buf@.len() >= 8 ==> r == Ok::<u64, CodecError>(le_value(buf@.subrange(0, 8))),
{
    if buf.len() < 8 {
        return Err(CodecError::ShortBuffer);
    }
    let a: [u8; 8] = [buf[0], buf[1], buf[2], buf[3], buf[4], buf[5], buf[6], buf[7]];
    assert(a@ =~= buf@.subrange(0, 8));
    Ok(bytes_to_u64(&a))
}

/// Reads a signed value from the first eight bytes of `buf`.
pub fn decode_i64(buf: &[u8]) -> (r: Result<i64, CodecError>)
    ensures
        buf@.len() < 8 ==> r == Err::<i64, CodecError>(CodecError::ShortBuffer),
        buf@.len() >= 8 ==> r == Ok::<i64, CodecError>(le_value(buf@.subrange(0, 8)) as i64),
{
    match decode_u64(buf) {
        Ok(v) => Ok(v as i64),
        Err(e) => Err(e),
    }
}

} // verus!
