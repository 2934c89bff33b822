//! Byte-level utilities: the ASCII-letter test used by chunk type codes,
//! big-endian 32-bit fields, and the CRC-32 checksum.

use vstd::prelude::*;
use vstd::utf8::{decode_utf8, valid_utf8};

verus! {

/// True exactly of the bytes that stand for the characters A-Z or a-z.
pub open spec fn is_letter(byte: u8) -> bool {
    (65 <= byte && byte <= 90) || (97 <= byte && byte <= 122)
}

/// Valid bytes are represented by the characters A-Z or a-z.
pub fn is_valid_byte(byte: u8) -> (r: bool)
    ensures
        r == is_letter(byte),
{
    (65 <= byte && byte <= 90) || (97 <= byte && byte <= 122)
}

/// The CRC-32 checksum (ISO-HDLC polynomial) of a byte sequence, as the
/// `crc` crate computes it. The checksum is a pure function of the bytes;
/// its definition is left abstract here, and `crc_checksum` is the only
/// way to learn its value on given bytes.
pub uninterp spec fn crc32_of(bytes: Seq<u8>) -> u32;

/// Relies on `crc::Crc::<u32>::checksum` with the `CRC_32_ISO_HDLC`
/// algorithm: a table-driven, stateless computation whose result depends
/// on the input bytes alone.
#[verifier::external_body]
pub fn crc_checksum(bytes: &[u8]) -> (r: u32)
    ensures
        r == crc32_of(bytes@),
{
    crc::Crc::<u32>::new(&crc::CRC_32_ISO_HDLC).checksum(bytes)
}

/// Relies on `String::from_utf8`: it succeeds exactly on well-formed UTF-8
/// input and returns the string made of those very bytes.
#[verifier::external_body]
pub fn string_from_utf8(bytes: Vec<u8>) -> (r: Option<String>)
    ensures
        r is Some <==> valid_utf8(bytes@),
        r is Some ==> r->Some_0@ == decode_utf8(bytes@),
{
    String::from_utf8(bytes).ok()
}

/// The 4-byte big-endian encoding of a 32-bit value.
pub open spec fn be32(x: u32) -> Seq<u8> {
    seq![(x >> 24) as u8, (x >> 16) as u8, (x >> 8) as u8, x as u8]
}

/// The value held by a 4-byte big-endian field.
pub open spec fn be32_int(s: Seq<u8>) -> int
    recommends
        s.len() == 4,
{
    s[0] * 0x100_0000 + s[1] * 0x1_0000 + s[2] * 0x100 + s[3]
}

/// Encoding a value big-endian and reading the field back returns the value.
pub proof fn lemma_be32_int_of_be32(x: u32)
    ensures
        be32_int(be32(x)) == x,
{
    assert(((x >> 24) as u8) * 0x100_0000 + ((x >> 16) as u8) * 0x1_0000 + ((x >> 8) as u8)
        * 0x100 + (x as u8) == x) by (bit_vector);
}

/// Reading a 4-byte field and re-encoding the value reproduces the bytes.
pub proof fn lemma_be32_of_be32_int(s: Seq<u8>)
    requires
        s.len() == 4,
    ensures
        be32(be32_int(s) as u32) == s,
{
    let b0 = s[0];
    let b1 = s[1];
    let b2 = s[2];
    let b3 = s[3];
    let x: u32 = (be32_int(s)) as u32;
    assert(x == b0 * 0x100_0000 + b1 * 0x1_0000 + b2 * 0x100 + b3) by (bit_vector)
        requires
            x == ((b0 * 0x100_0000 + b1 * 0x1_0000 + b2 * 0x100 + b3) as u32),
    ;
    assert((x >> 24) as u8 == b0 && (x >> 16) as u8 == b1 && (x >> 8) as u8 == b2 && x as u8
        == b3) by (bit_vector)
        requires
            x == b0 * 0x100_0000 + b1 * 0x1_0000 + b2 * 0x100 + b3,
    ;
    assert(be32(x) =~= s);
}

/// Reads the big-endian 32-bit field that starts at `offset`.
pub fn read_u32_be(bytes: &[u8], offset: usize) -> (r: u32)
    requires
        offset + 4 <= bytes@.len(),
    ensures
        r == be32_int(bytes@.subrange(offset as int, offset as int + 4)),
{
    let b0 = bytes[offset];
    let b1 = bytes[offset + 1];
    let b2 = bytes[offset + 2];
    let b3 = bytes[offset + 3];
    let r = (b0 as u32) * 0x100_0000 + (b1 as u32) * 0x1_0000 + (b2 as u32) * 0x100 + (b3 as u32);
    proof {
        let s = bytes@.subrange(offset as int, offset as int + 4);
        assert(s[0] == b0 && s[1] == b1 && s[2] == b2 && s[3] == b3);
    }
    r
}

/// Appends the big-endian encoding of `x` to `out`.
pub fn push_u32_be(out: &mut Vec<u8>, x: u32)
    ensures
        final(out)@ == old(out)@ + be32(x),
{
    out.push((x >> 24) as u8);
    out.push((x >> 16) as u8);
    out.push((x >> 8) as u8);
    out.push(x as u8);
    assert(out@ =~= old(out)@ + be32(x));
}

} // verus!
