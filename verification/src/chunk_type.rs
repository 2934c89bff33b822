//! Implements the `ChunkType` as described by the PNG specification: a
//! 4-byte tag whose bytes encode, by their case, the chunk's property bits.

use vstd::prelude::*;
use vstd::string::StringSliceAdditionalSpecFns;
use vstd::utf8::{decode_utf8, valid_utf8};

use crate::error::{ProgramError, ProgramResult};
use crate::utils::{is_letter, is_valid_byte, string_from_utf8};

verus! {

/// The 4-byte code that a text gives: its bytes taken positionally, padded
/// with zero bytes when the text is shorter than four bytes and truncated
/// when it is longer.
pub open spec fn code_of_text(b: Seq<u8>) -> Seq<u8> {
    Seq::new(4, |i: int| if i < b.len() { b[i] } else { 0u8 })
}

/// The code is well formed: all four bytes are ASCII letters and the
/// reserved bit (third byte uppercase) is set as the PNG standard asks.
pub open spec fn spec_is_valid(code: Seq<u8>) -> bool {
    (forall|i: int| 0 <= i < 4 ==> is_letter(#[trigger] code[i])) && spec_is_reserved_bit_valid(
        code,
    )
}

/// First byte an uppercase letter: the chunk is critical.
pub open spec fn spec_is_critical(code: Seq<u8>) -> bool {
    65 <= code[0] <= 90
}

/// Second byte an uppercase letter: the chunk is public.
pub open spec fn spec_is_public(code: Seq<u8>) -> bool {
    65 <= code[1] <= 90
}

/// Third byte an uppercase letter: the reserved bit is valid.
pub open spec fn spec_is_reserved_bit_valid(code: Seq<u8>) -> bool {
    65 <= code[2] <= 90
}

/// Fourth byte a lowercase letter: the chunk is safe to copy.
pub open spec fn spec_is_safe_to_copy(code: Seq<u8>) -> bool {
    97 <= code[3] <= 122
}

/// A PNG chunk type: a 4-byte tag. Any four bytes can be held; whether they
/// form a well-formed type per the PNG standard is answered by `is_valid`.
#[derive(Debug, Clone, Copy, PartialEq, Eq)]
pub struct ChunkType {
    type_code: [u8; 4],
}

impl View for ChunkType {
    type V = Seq<u8>;

    closed spec fn view(&self) -> Seq<u8> {
        self.type_code@
    }
}

impl ChunkType {
    /// A chunk type is always exactly four bytes.
    pub proof fn lemma_code_len(&self)
        ensures
            self@.len() == 4,
    {
    }

    /// Constructs a chunk type from raw bytes. A fixed 4-byte code is never
    /// empty, the one condition construction checks, so this always
    /// succeeds; content validation stays lazy, in `is_valid`.
    pub fn try_from_bytes(value: [u8; 4]) -> (r: ProgramResult<ChunkType>)
        ensures
            r is Ok,
            r->Ok_0@ == value@,
    {
        Ok(ChunkType { type_code: value })
    }

    /// Constructs a chunk type from text: the text's bytes are taken
    /// positionally, zero-padded when fewer than four, ignored past four.
    pub fn from_text(s: &str) -> (r: ChunkType)
        ensures
            r@ == code_of_text(s.spec_bytes()),
    {
        let b = s.as_bytes();
        let b0: u8 = if b.len() > 0 { b[0] } else { 0 };
        let b1: u8 = if b.len() > 1 { b[1] } else { 0 };
        let b2: u8 = if b.len() > 2 { b[2] } else { 0 };
        let b3: u8 = if b.len() > 3 { b[3] } else { 0 };
        let r = ChunkType { type_code: [b0, b1, b2, b3] };
        proof {
            assert(r@ =~= code_of_text(s.spec_bytes()));
        }
        r
    }

    /// Returns the raw bytes contained in this chunk type.
    pub fn bytes(&self) -> (r: [u8; 4])
        ensures
            r@ == self@,
    {
        self.type_code
    }

    /// Returns true if the reserved bit is valid and all four bytes are
    /// represented by the characters A-Z or a-z.
    pub fn is_valid(&self) -> (r: bool)
        ensures
            r == spec_is_valid(self@),
    {
        let r = is_valid_byte(self.type_code[0]) && is_valid_byte(self.type_code[1])
            && is_valid_byte(self.type_code[2]) && is_valid_byte(self.type_code[3])
            && self.is_reserved_bit_valid();
        proof {
            if r {
                assert(forall|i: int| 0 <= i < 4 ==> is_letter(#[trigger] self@[i])) by {
                    assert(self@[0] == self.type_code@[0]);
                }
            }
        }
        r
    }

    /// Returns the property state of the first byte: critical chunks have
    /// it uppercase.
    pub fn is_critical(&self) -> (r: bool)
        ensures
            r == spec_is_critical(self@),
    {
        let anc = self.type_code[0];
        is_valid_byte(anc) && anc >= 65 && anc <= 90
    }

    /// Returns the property state of the second byte: public chunks have it
    /// uppercase.
    pub fn is_public(&self) -> (r: bool)
        ensures
            r == spec_is_public(self@),
    {
        let p = self.type_code[1];
        is_valid_byte(p) && p >= 65 && p <= 90
    }

    /// Returns the property state of the third byte: an uppercase letter
    /// means the reserved bit complies with the PNG standard.
    pub fn is_reserved_bit_valid(&self) -> (r: bool)
        ensures
            r == spec_is_reserved_bit_valid(self@),
    {
        let rsv = self.type_code[2];
        is_valid_byte(rsv) && rsv >= 65 && rsv <= 90
    }

    /// Returns the property state of the fourth byte: a lowercase letter
    /// means the chunk is safe to copy.
    pub fn is_safe_to_copy(&self) -> (r: bool)
        ensures
            r == spec_is_safe_to_copy(self@),
    {
        let stc = self.type_code[3];
        is_valid_byte(stc) && stc >= 97 && stc <= 122
    }

    /// Compares two chunk types byte for byte.
    pub fn matches(&self, other: &ChunkType) -> (r: bool)
        ensures
            r == (self@ == other@),
    {
        let r = self.type_code[0] == other.type_code[0] && self.type_code[1] == other.type_code[1]
            && self.type_code[2] == other.type_code[2] && self.type_code[3]
            == other.type_code[3];
        proof {
            if r {
                assert(self@ =~= other@);
            }
        }
        r
    }

    /// The four bytes read as UTF-8 text; a fixed placeholder when they are
    /// not valid UTF-8.
    pub fn to_text(&self) -> (r: String)
        ensures
            valid_utf8(self@) ==> r@ == decode_utf8(self@),
            !valid_utf8(self@) ==> r@ == "Utf8Error: Invalid UTF-8"@,
    {
        let v = vstd::slice::slice_to_vec(self.type_code.as_slice());
        match string_from_utf8(v) {
            Some(s) => s,
            None => "Utf8Error: Invalid UTF-8".to_owned(),
        }
    }
}

} // verus!
