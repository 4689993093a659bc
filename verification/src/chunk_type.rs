//! The four-byte tag that names the kind of a chunk.
//!
//! Each byte of a tag is an ASCII letter, and bit 5 of each byte (the one
//! that tells upper case from lower case) carries one flag of the chunk.

use crate::text::{all_ascii, ascii_text, lemma_ascii_is_utf8};
use vstd::prelude::*;
use vstd::std_specs::cmp::PartialEqSpecImpl;
use vstd::std_specs::convert::TryFromSpecImpl;
use vstd::string::StringSliceAdditionalSpecFns;
use vstd::utf8::{decode_utf8, valid_utf8};

verus! {

/// Why a tag could not be built.
#[derive(Debug, Clone, Copy, PartialEq, Eq, Structural)]
pub enum ChunkTypeError {
    /// A byte outside `A..=Z` and `a..=z`.
    InvalidByte,
    /// The text is not exactly four ASCII bytes long.
    InvalidLength,
}

/// A chunk type tag: four raw bytes.
#[derive(Debug, Clone, Copy, Eq)]
pub struct ChunkType {
    bytes: [u8; 4],
}

/// `b` is an ASCII letter.
pub open spec fn is_letter(b: u8) -> bool {
    (65 <= b && b <= 90) || (97 <= b && b <= 122)
}

/// Every byte of `bytes` is an ASCII letter.
pub open spec fn all_letters(bytes: Seq<u8>) -> bool {
    forall|i: int| 0 <= i < bytes.len() ==> is_letter(#[trigger] bytes[i])
}

/// Bit 5 of `b`, as 0 or 1.
pub open spec fn fifth_bit(b: u8) -> u8 {
    (b >> 5) & 1
}

/// What building a tag from four raw bytes gives.
pub open spec fn tag_of_bytes(bytes: Seq<u8>) -> Result<Seq<u8>, ChunkTypeError> {
    if all_letters(bytes) {
        Ok(bytes)
    } else {
        Err(ChunkTypeError::InvalidByte)
    }
}

/// What building a tag from the UTF-8 bytes of a text gives.
pub open spec fn tag_of_text(bytes: Seq<u8>) -> Result<Seq<u8>, ChunkTypeError> {
    if bytes.len() == 4 && all_ascii(bytes) {
        tag_of_bytes(bytes)
    } else {
        Err(ChunkTypeError::InvalidLength)
    }
}

impl View for ChunkType {
    type V = Seq<u8>;

    closed spec fn view(&self) -> Seq<u8> {
        self.bytes@
    }
}

impl ChunkType {
    /// The tag that holds exactly `bytes`.
    pub closed spec fn of(bytes: [u8; 4]) -> ChunkType {
        ChunkType { bytes }
    }

    /// A tag always has four bytes.
    pub proof fn lemma_four_bytes(self)
        ensures
            self@.len() == 4,
    {
    }

    /// Two tags with the same bytes are the same tag.
    pub proof fn lemma_same_bytes(self, other: ChunkType)
        requires
            self@ == other@,
        ensures
            self == other,
    {
        assert(self.bytes =~= other.bytes);
    }

    fn is_valid_png_byte(b: u8) -> (valid: bool)
        ensures
            valid == is_letter(b),
    {
        (b >= 65 && b <= 90) || (b >= 97 && b <= 122)
    }

    fn get_fifth_bit(b: &u8) -> (bit: u8)
        ensures
            bit == fifth_bit(*b),
            bit == 0 || bit == 1,
            (bit == 0) == (*b & 0x20 == 0),
    {
        let v: u8 = *b;
        assert(((v >> 5) & 1) == 0 || ((v >> 5) & 1) == 1) by (bit_vector);
        assert((((v >> 5) & 1) == 0) == (v & 0x20 == 0)) by (bit_vector);
        (v >> 5) & 1
    }

    /// Builds a tag from any four bytes, letters or not.
    pub fn new_unchecked(bytes: [u8; 4]) -> (tag: ChunkType)
        ensures
            tag@ == bytes@,
            tag == ChunkType::of(bytes),
    {
        ChunkType { bytes }
    }

    /// The four bytes of the tag.
    pub fn bytes(&self) -> (bytes: [u8; 4])
        ensures
            bytes@ == self@,
    {
        self.bytes
    }

    /// Critical chunks have bit 5 of the first byte clear.
    pub fn is_critical(&self) -> (critical: bool)
        ensures
            critical == (self@[0] & 0x20 == 0),
    {
        Self::get_fifth_bit(&self.bytes[0]) == 0
    }

    /// Public chunks have bit 5 of the second byte clear.
    pub fn is_public(&self) -> (public: bool)
        ensures
            public == (self@[1] & 0x20 == 0),
    {
        Self::get_fifth_bit(&self.bytes[1]) == 0
    }

    /// The reserved bit, bit 5 of the third byte, must be clear.
    pub fn is_reserved_bit_valid(&self) -> (clear: bool)
        ensures
            clear == (self@[2] & 0x20 == 0),
    {
        Self::get_fifth_bit(&self.bytes[2]) == 0
    }

    /// Chunks that are safe to copy have bit 5 of the fourth byte set.
    pub fn is_safe_to_copy(&self) -> (safe: bool)
        ensures
            safe == (self@[3] & 0x20 != 0),
    {
        Self::get_fifth_bit(&self.bytes[3]) == 1
    }

    /// Reads a tag from a text of exactly four ASCII letters.
    pub fn from_str(s: &str) -> (parsed: Result<ChunkType, ChunkTypeError>)
        ensures
            match parsed {
                Ok(tag) => tag_of_text(s.spec_bytes()) == Ok::<Seq<u8>, ChunkTypeError>(tag@),
                Err(e) => tag_of_text(s.spec_bytes()) == Err::<Seq<u8>, ChunkTypeError>(e),
            },
    {
        let bytes = s.as_bytes();
        if bytes.len() == 4 && bytes[0] < 128 && bytes[1] < 128 && bytes[2] < 128 && bytes[3]
            < 128 {
            let raw: [u8; 4] = [bytes[0], bytes[1], bytes[2], bytes[3]];
            assert(raw@ =~= s.spec_bytes());
            ChunkType::try_from(raw)
        } else {
            Err(ChunkTypeError::InvalidLength)
        }
    }

    /// The tag as text. A tag made of letters reads as those letters.
    pub fn to_string(&self) -> (text: String)
        requires
            valid_utf8(self@),
        ensures
            text@ == decode_utf8(self@),
            all_ascii(self@) ==> text@ == ascii_text(self@),
    {
        let mut raw: Vec<u8> = Vec::new();
        raw.push(self.bytes[0]);
        raw.push(self.bytes[1]);
        raw.push(self.bytes[2]);
        raw.push(self.bytes[3]);
        assert(raw@ =~= self@);
        proof {
            if all_ascii(self@) {
                lemma_ascii_is_utf8(self@);
            }
        }
        match String::from_utf8(raw) {
            Ok(text) => text,
            Err(_) => vstd::pervasive::unreached(),
        }
    }

    /// A tag is valid when all four bytes are letters and the reserved bit is
    /// clear.
    pub fn is_valid(&self) -> (valid: bool)
        ensures
            valid == (all_letters(self@) && self@[2] & 0x20 == 0),
    {
        Self::is_valid_png_byte(self.bytes[0]) && Self::is_valid_png_byte(self.bytes[1])
            && Self::is_valid_png_byte(self.bytes[2]) && Self::is_valid_png_byte(self.bytes[3])
            && self.is_reserved_bit_valid()
    }
}

impl TryFrom<[u8; 4]> for ChunkType {
    type Error = ChunkTypeError;

    /// Builds a tag from four bytes, each of which has to be an ASCII letter.
    fn try_from(bytes: [u8; 4]) -> (parsed: Result<Self, ChunkTypeError>)
        ensures
            match parsed {
                Ok(tag) => tag_of_bytes(bytes@) == Ok::<Seq<u8>, ChunkTypeError>(tag@),
                Err(e) => tag_of_bytes(bytes@) == Err::<Seq<u8>, ChunkTypeError>(e),
            },
    {
        let mut i: usize = 0;
        while i < 4
            invariant
                i <= 4,
                forall|j: int| 0 <= j < i ==> is_letter(#[trigger] bytes@[j]),
            decreases 4 - i,
        {
            if !Self::is_valid_png_byte(bytes[i]) {
                return Err(ChunkTypeError::InvalidByte);
            }
            i = i + 1;
        }
        Ok(ChunkType { bytes })
    }
}

impl std::str::FromStr for ChunkType {
    type Err = ChunkTypeError;

    /// Reads a tag from a text of exactly four ASCII letters.
    fn from_str(s: &str) -> (parsed: Result<Self, ChunkTypeError>)
        ensures
            match parsed {
                Ok(tag) => tag_of_text(s.spec_bytes()) == Ok::<Seq<u8>, ChunkTypeError>(tag@),
                Err(e) => tag_of_text(s.spec_bytes()) == Err::<Seq<u8>, ChunkTypeError>(e),
            },
    {
        ChunkType::from_str(s)
    }
}

impl PartialEq for ChunkType {
    /// Two tags are equal when their bytes are.
    fn eq(&self, other: &Self) -> (same: bool) {
        let same = self.bytes[0] == other.bytes[0] && self.bytes[1] == other.bytes[1]
            && self.bytes[2] == other.bytes[2] && self.bytes[3] == other.bytes[3];
        assert(same == (self@ =~= other@));
        same
    }
}

impl PartialEqSpecImpl for ChunkType {
    open spec fn obeys_eq_spec() -> bool {
        true
    }

    open spec fn eq_spec(&self, other: &Self) -> bool {
        self@ == other@
    }
}

impl TryFromSpecImpl<[u8; 4]> for ChunkType {
    open spec fn obeys_try_from_spec() -> bool {
        true
    }

    open spec fn try_from_spec(bytes: [u8; 4]) -> Result<Self, ChunkTypeError> {
        if all_letters(bytes@) {
            Ok(ChunkType::of(bytes))
        } else {
            Err(ChunkTypeError::InvalidByte)
        }
    }
}

} // verus!
