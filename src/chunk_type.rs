//! The four-byte type tag of a chunk and the properties read from its letter case.

use crate::text::{decimal, decimal_text, utf8_to_string};
use vstd::prelude::*;
use vstd::string::{StringExecFns, StringSliceAdditionalSpecFns};
use vstd::utf8::{decode_utf8, valid_utf8};

verus! {

/// An ASCII letter: `A` to `Z` or `a` to `z`, both ends included.
pub open spec fn is_ascii_letter(b: u8) -> bool {
    (0x41 <= b && b <= 0x5a) || (0x61 <= b && b <= 0x7a)
}

/// The case bit (0x20), which is set on lower-case letters.
pub open spec fn case_bit_set(b: u8) -> bool {
    b & 0x20 == 0x20
}

/// Every byte is an ASCII letter.
pub open spec fn all_letters(t: Seq<u8>) -> bool {
    forall|i: int| 0 <= i < t.len() ==> is_ascii_letter(#[trigger] t[i])
}

/// A valid tag: four letters, the third of them upper case.
pub open spec fn tag_valid(t: Seq<u8>) -> bool {
    &&& t.len() == 4
    &&& all_letters(t)
    &&& !case_bit_set(t[2])
}

/// A chunk's type tag: four bytes, held as given.
#[derive(Debug, Clone, Copy)]
pub struct ChunkType {
    bytes: [u8; 4],
}

impl View for ChunkType {
    type V = Seq<u8>;

    closed spec fn view(&self) -> Seq<u8> {
        self.bytes@
    }
}

impl PartialEq for ChunkType {
    fn eq(&self, o: &ChunkType) -> (r: bool) {
        let r = self.bytes[0] == o.bytes[0] && self.bytes[1] == o.bytes[1] && self.bytes[2]
            == o.bytes[2] && self.bytes[3] == o.bytes[3];
        proof {
            self.lemma_len();
            o.lemma_len();
            if r {
                assert(self@ =~= o@);
            }
        }
        r
    }
}

impl vstd::std_specs::cmp::PartialEqSpecImpl for ChunkType {
    open spec fn obeys_eq_spec() -> bool {
        true
    }

    open spec fn eq_spec(&self, o: &ChunkType) -> bool {
        self@ == o@
    }
}

impl Eq for ChunkType {
}

/// Why text could not become a tag.
#[derive(Debug, Clone, Copy, PartialEq, Eq, Structural)]
pub enum ChunkTypeError {
    /// The text is not four bytes long; the length it has.
    ByteLengthError(usize),
    /// A byte of the text is not an ASCII letter.
    InvalidCharacter,
}

impl ChunkTypeError {
    /// A message that describes the error.
    pub fn to_string(&self) -> (r: String)
        ensures
            r@ == match self {
                ChunkTypeError::ByteLengthError(n) => "Expected 4 bytes but received "@ + decimal(
                    *n as nat,
                ) + " when creating chunk type"@,
                ChunkTypeError::InvalidCharacter => "Input contains one or more invalid characters"@,
            },
    {
        match self {
            ChunkTypeError::ByteLengthError(n) => {
                let mut s = String::from_str("Expected 4 bytes but received ");
                s.append(decimal_text(*n as u64).as_str());
                s.append(" when creating chunk type");
                s
            },
            ChunkTypeError::InvalidCharacter => String::from_str(
                "Input contains one or more invalid characters",
            ),
        }
    }
}

fn is_letter(b: u8) -> (r: bool)
    ensures
        r == is_ascii_letter(b),
{
    (0x61 <= b && b <= 0x7a) || (0x41 <= b && b <= 0x5a)
}

impl ChunkType {
    /// A tag has four bytes.
    pub proof fn lemma_len(&self)
        ensures
            self@.len() == 4,
    {
    }

    /// The four bytes of the tag.
    pub fn bytes(&self) -> (r: [u8; 4])
        ensures
            r@ == self@,
    {
        self.bytes
    }

    /// A tag of the given bytes, whatever they are; this never fails.
    pub fn try_from(value: [u8; 4]) -> (r: Result<ChunkType, ChunkTypeError>)
        ensures
            r matches Ok(t) && t@ == value@,
    {
        Ok(ChunkType { bytes: value })
    }

    /// The tag spelled by the bytes of `s`: four ASCII letters, in either case.
    pub fn from_str(s: &str) -> (r: Result<ChunkType, ChunkTypeError>)
        ensures
            s.spec_bytes().len() != 4 ==> r == Err::<ChunkType, ChunkTypeError>(
                ChunkTypeError::ByteLengthError(s.spec_bytes().len() as usize),
            ),
            s.spec_bytes().len() == 4 && !all_letters(s.spec_bytes()) ==> r == Err::<
                ChunkType,
                ChunkTypeError,
            >(ChunkTypeError::InvalidCharacter),
            s.spec_bytes().len() == 4 && all_letters(s.spec_bytes()) ==> (r matches Ok(t) && t@
                == s.spec_bytes()),
    {
        let b = s.as_bytes();
        if b.len() != 4 {
            return Err(ChunkTypeError::ByteLengthError(b.len()));
        }
        let mut i: usize = 0;
        while i < 4
            invariant
                b@ == s.spec_bytes(),
                b@.len() == 4,
                i <= 4,
                forall|j: int| 0 <= j < i ==> is_ascii_letter(#[trigger] b@[j]),
            decreases 4 - i,
        {
            if !is_letter(b[i]) {
                return Err(ChunkTypeError::InvalidCharacter);
            }
            i = i + 1;
        }
        let sized: [u8; 4] = [b[0], b[1], b[2], b[3]];
        assert(sized@ =~= b@);
        ChunkType::try_from(sized)
    }

    /// The tag as text: the UTF-8 characters its bytes encode, or `None` when
    /// they are not UTF-8.
    pub fn to_text(&self) -> (r: Option<String>)
        ensures
            r is Some <==> valid_utf8(self@),
            r matches Some(s) ==> s@ == decode_utf8(self@),
    {
        utf8_to_string(self.bytes.as_slice())
    }

    /// The tag as text, for a tag whose bytes are UTF-8 (as those of every
    /// tag made from text are).
    pub fn to_string(&self) -> (r: String)
        requires
            valid_utf8(self@),
        ensures
            r@ == decode_utf8(self@),
    {
        self.to_text().unwrap()
    }

    /// True when the four bytes are ASCII letters (`z` and `Z` included) and the
    /// reserved bit is valid.
    pub fn is_valid(&self) -> (r: bool)
        ensures
            r == tag_valid(self@),
    {
        proof {
            self.lemma_len();
        }
        let letters = is_letter(self.bytes[0]) && is_letter(self.bytes[1])
            && is_letter(self.bytes[2]) && is_letter(self.bytes[3]);
        assert(letters ==> all_letters(self@)) by {
            if letters {
                assert forall|i: int| 0 <= i < self@.len() implies is_ascii_letter(
                    #[trigger] self@[i],
                ) by {
                    assert(i == 0 || i == 1 || i == 2 || i == 3);
                }
            }
        }
        letters && self.is_reserved_bit_valid()
    }

    /// Critical: the first byte is upper case.
    pub fn is_critical(&self) -> (r: bool)
        ensures
            r == !case_bit_set(self@[0]),
    {
        (self.bytes[0] & 0x20) != 0x20
    }

    /// Public: the second byte is upper case.
    pub fn is_public(&self) -> (r: bool)
        ensures
            r == !case_bit_set(self@[1]),
    {
        (self.bytes[1] & 0x20) != 0x20
    }

    /// Reserved bit valid: the third byte is upper case.
    pub fn is_reserved_bit_valid(&self) -> (r: bool)
        ensures
            r == !case_bit_set(self@[2]),
    {
        (self.bytes[2] & 0x20) != 0x20
    }

    /// Safe to copy: the fourth byte is lower case.
    pub fn is_safe_to_copy(&self) -> (r: bool)
        ensures
            r == case_bit_set(self@[3]),
    {
        (self.bytes[3] & 0x20) == 0x20
    }
}

impl TryFrom<[u8; 4]> for ChunkType {
    type Error = ChunkTypeError;

    fn try_from(value: [u8; 4]) -> Result<ChunkType, ChunkTypeError> {
        Ok(ChunkType { bytes: value })
    }
}

impl vstd::std_specs::convert::TryFromSpecImpl<[u8; 4]> for ChunkType {
    open spec fn obeys_try_from_spec() -> bool {
        true
    }

    closed spec fn try_from_spec(value: [u8; 4]) -> Result<ChunkType, ChunkTypeError> {
        Ok(ChunkType { bytes: value })
    }
}

impl core::str::FromStr for ChunkType {
    type Err = ChunkTypeError;

    fn from_str(s: &str) -> Result<ChunkType, ChunkTypeError> {
        ChunkType::from_str(s)
    }
}

} // verus!
