//! The 4-byte chunk type code: four ASCII letters whose case encodes four
//! boolean properties, with the third letter required to be uppercase.

use crate::error::PngError;
use vstd::prelude::*;
use vstd::slice::slice_index_get;
use vstd::string::StringSliceAdditionalSpecFns;
use vstd::utf8::{encode_utf8, encode_scalar, is_ascii_chars, is_ascii_chars_encode_utf8,
    char_is_scalar, has_width_1_encoding, has_width_2_encoding, has_width_3_encoding,
    leading_byte_width_1, leading_byte_width_2, leading_byte_width_3, leading_byte_width_4};

verus! {

/// An uppercase ASCII letter.
pub open spec fn is_upper_byte(b: u8) -> bool {
    65 <= b <= 90
}

/// A lowercase ASCII letter.
pub open spec fn is_lower_byte(b: u8) -> bool {
    97 <= b <= 122
}

/// An ASCII letter of either case.
pub open spec fn is_letter_byte(b: u8) -> bool {
    is_upper_byte(b) || is_lower_byte(b)
}

/// The bytes a chunk type code accepts: exactly four ASCII letters, the
/// third of them uppercase (the reserved-bit position).
pub open spec fn valid_type_bytes(t: Seq<u8>) -> bool {
    &&& t.len() == 4
    &&& forall|i: int| 0 <= i < 4 ==> is_letter_byte(#[trigger] t[i])
    &&& is_upper_byte(t[2])
}

/// An uppercase ASCII letter, as a character.
pub open spec fn is_upper_char(c: char) -> bool {
    65 <= c as u32 <= 90
}

/// An ASCII letter of either case, as a character.
pub open spec fn is_letter_char(c: char) -> bool {
    is_upper_char(c) || 97 <= c as u32 <= 122
}

/// The texts a chunk type code accepts, stated over characters: exactly four
/// ASCII letters, the third of them uppercase.
pub open spec fn valid_type_chars(s: Seq<char>) -> bool {
    &&& s.len() == 4
    &&& forall|i: int| 0 <= i < 4 ==> is_letter_char(#[trigger] s[i])
    &&& is_upper_char(s[2])
}

/// A validated, immutable 4-byte chunk type identifier.
#[derive(Debug, Clone, Copy)]
pub struct ChunkType {
    chunk_type: [u8; 4],
}

impl View for ChunkType {
    type V = Seq<u8>;

    closed spec fn view(&self) -> Seq<u8> {
        self.chunk_type@
    }
}

impl ChunkType {
    /// A constructed value always carries valid type bytes.
    pub open spec fn wf(self) -> bool {
        valid_type_bytes(self@)
    }

    /// Validates a type code given as text; accepts exactly the texts whose
    /// UTF-8 bytes are four ASCII letters with the third uppercase.
    pub fn new(value: &str) -> (r: Result<ChunkType, PngError>)
        ensures
            match r {
                Ok(t) => t.wf() && t@ == value.spec_bytes() && valid_type_bytes(
                    value.spec_bytes(),
                ),
                Err(e) => e == PngError::Validation && !valid_type_bytes(value.spec_bytes()),
            },
    {
        let bytes = value.as_bytes();
        if bytes.len() != 4 {
            Err(PngError::Validation)
        } else {
            let raw: [u8; 4] = [
                *slice_index_get(bytes, 0),
                *slice_index_get(bytes, 1),
                *slice_index_get(bytes, 2),
                *slice_index_get(bytes, 3),
            ];
            proof {
                assert(raw@ =~= value.spec_bytes());
            }
            Self::from_bytes(raw)
        }
    }

    /// Validates a type code given as its four raw bytes.
    pub fn from_bytes(bytes: [u8; 4]) -> (r: Result<ChunkType, PngError>)
        ensures
            match r {
                Ok(t) => t.wf() && t@ == bytes@ && valid_type_bytes(bytes@),
                Err(e) => e == PngError::Validation && !valid_type_bytes(bytes@),
            },
    {
        if !byte_is_letter(bytes[0]) || !byte_is_letter(bytes[1]) || !byte_is_letter(bytes[2])
            || !byte_is_letter(bytes[3]) {
            Err(PngError::Validation)
        } else if !(65 <= bytes[2] && bytes[2] <= 90) {
            Err(PngError::Validation)
        } else {
            proof {
                assert forall|i: int| 0 <= i < 4 implies is_letter_byte(#[trigger] bytes@[i]) by {
                    assert(bytes@[0] == bytes[0] && bytes@[1] == bytes[1] && bytes@[2] == bytes[2]
                        && bytes@[3] == bytes[3]);
                }
            }
            Ok(ChunkType { chunk_type: bytes })
        }
    }

    /// The four stored bytes, without copying.
    pub fn bytes(&self) -> (r: &[u8])
        ensures
            r@ == self@,
    {
        self.chunk_type.as_slice()
    }

    /// The ancillary/critical property: set when the first byte is uppercase.
    pub fn is_critical(&self) -> (r: bool)
        ensures
            r == is_upper_byte(self@[0]),
    {
        65 <= self.chunk_type[0] && self.chunk_type[0] <= 90
    }

    /// The public property: set when the second byte is uppercase.
    pub fn is_public(&self) -> (r: bool)
        ensures
            r == is_upper_byte(self@[1]),
    {
        65 <= self.chunk_type[1] && self.chunk_type[1] <= 90
    }

    /// The reserved-conforming property: set when the third byte is
    /// uppercase, which holds of every constructed value.
    pub fn is_reserved(&self) -> (r: bool)
        ensures
            r == is_upper_byte(self@[2]),
    {
        65 <= self.chunk_type[2] && self.chunk_type[2] <= 90
    }

    /// The safe-to-copy property: set when the fourth byte is uppercase.
    pub fn is_safe_to_copy(&self) -> (r: bool)
        ensures
            r == is_upper_byte(self@[3]),
    {
        65 <= self.chunk_type[3] && self.chunk_type[3] <= 90
    }
}

/// Tests whether a byte is an ASCII letter.
fn byte_is_letter(b: u8) -> (r: bool)
    ensures
        r == is_letter_byte(b),
{
    (65 <= b && b <= 90) || (97 <= b && b <= 122)
}

/// A character whose code point is below 128 lies in the ASCII character
/// range, and casting it down to a byte keeps its code point.
proof fn lemma_char_from_code_bound(c: char)
    requires
        (c as u32) < 128,
    ensures
        '\0' <= c <= '\u{7f}',
        ((c as u8) as u32) == c as u32,
{
}

/// A character in the ASCII range has a code point below 128, and casting it
/// down to a byte keeps its code point.
proof fn lemma_char_to_code_bound(c: char)
    requires
        '\0' <= c <= '\u{7f}',
    ensures
        (c as u32) < 128,
        ((c as u8) as u32) == c as u32,
{
}

/// When every byte of a UTF-8 encoding is in the ASCII range, the encoded
/// characters are ASCII and the encoding maps them one byte each.
proof fn lemma_encode_all_ascii(s: Seq<char>)
    requires
        forall|i: int| 0 <= i < encode_utf8(s).len() ==> #[trigger] encode_utf8(s)[i] < 128,
    ensures
        is_ascii_chars(s),
        encode_utf8(s).len() == s.len(),
    decreases s.len(),
{
    if s.len() > 0 {
        let c = s[0] as u32;
        char_is_scalar(s[0]);
        let head = encode_scalar(c);
        assert(encode_utf8(s) == head + encode_utf8(s.drop_first()));
        assert(encode_utf8(s)[0] == head[0]);
        if !has_width_1_encoding(c) {
            if has_width_2_encoding(c) {
                assert(leading_byte_width_2(c) >= 128) by (bit_vector);
            } else if has_width_3_encoding(c) {
                assert(leading_byte_width_3(c) >= 128) by (bit_vector);
            } else {
                assert(leading_byte_width_4(c) >= 128) by (bit_vector);
            }
            assert(false);
        }
        assert(head =~= seq![leading_byte_width_1(c)]);
        lemma_char_from_code_bound(s[0]);
        assert forall|i: int| 0 <= i < encode_utf8(s.drop_first()).len() implies #[trigger]
            encode_utf8(s.drop_first())[i] < 128 by {
            assert(encode_utf8(s.drop_first())[i] == encode_utf8(s)[i + 1]);
        }
        lemma_encode_all_ascii(s.drop_first());
        assert forall|i: int| 0 <= i < s.len() implies '\0' <= #[trigger] s[i] <= '\u{7f}' by {
            if i > 0 {
                assert(s[i] == s.drop_first()[i - 1]);
            }
        }
    }
}

/// Validation totality: a text is accepted as a chunk type exactly when it
/// consists of four ASCII letters with the third uppercase. Stated over the
/// UTF-8 bytes of the text on one side and its characters on the other.
pub proof fn lemma_validation_totality(s: Seq<char>)
    ensures
        valid_type_bytes(encode_utf8(s)) <==> valid_type_chars(s),
{
    if valid_type_chars(s) {
        assert forall|i: int| 0 <= i < s.len() implies '\0' <= #[trigger] s[i] <= '\u{7f}' by {
            assert(is_letter_char(s[i]));
            lemma_char_from_code_bound(s[i]);
        }
        assert(is_ascii_chars(s));
        is_ascii_chars_encode_utf8(s);
        assert forall|i: int| 0 <= i < 4 implies is_letter_byte(#[trigger] encode_utf8(s)[i]) by {
            assert(encode_utf8(s)[i] == s[i] as u8);
            assert(is_letter_char(s[i]));
            lemma_char_from_code_bound(s[i]);
        }
        assert(encode_utf8(s)[2] == s[2] as u8);
        lemma_char_from_code_bound(s[2]);
        assert(valid_type_bytes(encode_utf8(s)));
    }
    if valid_type_bytes(encode_utf8(s)) {
        assert forall|i: int| 0 <= i < encode_utf8(s).len() implies #[trigger] encode_utf8(s)[i]
            < 128 by {
            assert(is_letter_byte(encode_utf8(s)[i]));
        }
        lemma_encode_all_ascii(s);
        is_ascii_chars_encode_utf8(s);
        assert forall|i: int| 0 <= i < 4 implies is_letter_char(#[trigger] s[i]) by {
            assert(encode_utf8(s)[i] == s[i] as u8);
            lemma_char_to_code_bound(s[i]);
            assert((s[i] as u32) == ((s[i] as u8) as u32));
        }
        assert(encode_utf8(s)[2] == s[2] as u8);
        lemma_char_to_code_bound(s[2]);
        assert(valid_type_chars(s));
    }
}

} // verus!
