//! Byte-level helpers for the wire format: big-endian 32-bit fields, the
//! CRC-32/ISO-HDLC checksum, and lossy text decoding of payload bytes.

use vstd::prelude::*;
use vstd::utf8::{decode_utf8, encode_utf8, encode_utf8_decode_utf8, encode_utf8_valid_utf8,
    is_ascii_chars, is_ascii_chars_encode_utf8, valid_utf8};

verus! {

/// The four big-endian bytes of a 32-bit value, most significant first.
pub open spec fn spec_u32_to_be_bytes(x: u32) -> Seq<u8> {
    seq![
        ((x >> 24) & 0xff) as u8,
        ((x >> 16) & 0xff) as u8,
        ((x >> 8) & 0xff) as u8,
        (x & 0xff) as u8,
    ]
}

/// The 32-bit value read from four bytes taken as big-endian.
pub open spec fn spec_u32_from_be_bytes(s: Seq<u8>) -> u32
    recommends
        s.len() == 4,
{
    ((s[0] as u32) << 24) | ((s[1] as u32) << 16) | ((s[2] as u32) << 8) | (s[3] as u32)
}

/// Writing a 32-bit value big-endian and reading it back is the identity.
pub proof fn lemma_u32_be_bytes_roundtrip(x: u32)
    ensures
        spec_u32_to_be_bytes(x).len() == 4,
        spec_u32_from_be_bytes(spec_u32_to_be_bytes(x)) == x,
{
    assert((((((x >> 24) & 0xff) as u8) as u32) << 24) | (((((x >> 16) & 0xff) as u8) as u32)
        << 16) | (((((x >> 8) & 0xff) as u8) as u32) << 8) | (((x & 0xff) as u8) as u32) == x)
        by (bit_vector);
}

/// Reads a big-endian 32-bit value from four bytes.
pub fn u32_from_be(b0: u8, b1: u8, b2: u8, b3: u8) -> (r: u32)
    ensures
        r == spec_u32_from_be_bytes(seq![b0, b1, b2, b3]),
{
    ((b0 as u32) << 24) | ((b1 as u32) << 16) | ((b2 as u32) << 8) | (b3 as u32)
}

/// Appends the four big-endian bytes of `x` to `out`.
pub fn push_u32_be(out: &mut Vec<u8>, x: u32)
    ensures
        final(out)@ == old(out)@ + spec_u32_to_be_bytes(x),
{
    proof {
        assert((x >> 24) & 0xff < 256 && (x >> 16) & 0xff < 256 && (x >> 8) & 0xff < 256 && x
            & 0xff < 256) by (bit_vector);
    }
    out.push(((x >> 24) & 0xff) as u8);
    out.push(((x >> 16) & 0xff) as u8);
    out.push(((x >> 8) & 0xff) as u8);
    out.push((x & 0xff) as u8);
    proof {
        assert(out@ =~= old(out)@ + spec_u32_to_be_bytes(x));
    }
}

/// The CRC-32/ISO-HDLC checksum of a byte sequence; the checksum is a
/// function of the bytes alone.
pub uninterp spec fn crc32_of(bytes: Seq<u8>) -> u32;

/// Relies on `crc::Crc::<u32>` with the `CRC_32_ISO_HDLC` algorithm from the
/// crc crate: a pure table-driven computation whose result depends on the
/// input bytes alone, and feeding a digest two slices in turn checksums
/// their concatenation.
#[verifier::external_body]
pub fn crc32_checksum_pair(a: &[u8], b: &[u8]) -> (r: u32)
    ensures
        r == crc32_of(a@ + b@),
{
    let alg = crc::Crc::<u32>::new(&crc::CRC_32_ISO_HDLC);
    let mut digest = alg.digest();
    digest.update(a);
    digest.update(b);
    digest.finalize()
}

/// The characters that lossy UTF-8 decoding yields for a byte sequence; the
/// text is a function of the bytes alone.
pub uninterp spec fn lossy_text_of(bytes: Seq<u8>) -> Seq<char>;

/// Relies on `String::from_utf8_lossy` of std: the text depends on the bytes
/// alone, and bytes that already are valid UTF-8 are decoded verbatim, with
/// no replacement character.
#[verifier::external_body]
pub fn bytes_to_text(bytes: &[u8]) -> (r: String)
    ensures
        r@ == lossy_text_of(bytes@),
        valid_utf8(bytes@) ==> r@ == decode_utf8(bytes@),
{
    String::from_utf8_lossy(bytes).into_owned()
}

/// A byte below 128, read as a character, is an ASCII character with the
/// same code point.
proof fn lemma_byte_to_char(x: u8)
    requires
        x < 128,
    ensures
        '\0' <= (x as char) <= '\u{7f}',
        ((x as char) as u8) == x,
{
}

/// A sequence of bytes below 128 is valid UTF-8 and decodes to the same
/// values read as characters, one character per byte.
pub proof fn lemma_ascii_bytes_decode(b: Seq<u8>)
    requires
        forall|i: int| 0 <= i < b.len() ==> #[trigger] b[i] < 128,
    ensures
        valid_utf8(b),
        decode_utf8(b) == b.map(|i: int, x: u8| x as char),
{
    let chars = b.map(|i: int, x: u8| x as char);
    assert forall|i: int| 0 <= i < chars.len() implies '\0' <= #[trigger] chars[i]
        <= '\u{7f}' by {
        assert(chars[i] == b[i] as char);
        lemma_byte_to_char(b[i]);
    }
    assert(is_ascii_chars(chars));
    is_ascii_chars_encode_utf8(chars);
    assert forall|i: int| 0 <= i < b.len() implies #[trigger] encode_utf8(chars)[i] == b[i] by {
        assert(encode_utf8(chars)[i] == chars[i] as u8);
        assert(chars[i] == b[i] as char);
        lemma_byte_to_char(b[i]);
    }
    assert(encode_utf8(chars) =~= b);
    encode_utf8_decode_utf8(chars);
    encode_utf8_valid_utf8(chars);
}

} // verus!
