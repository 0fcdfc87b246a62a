//! The four-letter type of a chunk.

use crate::error::PngError;
use crate::text::{ascii_text, lemma_ascii_is_utf8};
use std::str::FromStr;
use vstd::prelude::*;
use vstd::std_specs::cmp::PartialEqSpecImpl;
use vstd::std_specs::convert::TryFromSpecImpl;
use vstd::string::StringSliceAdditionalSpecFns;

verus! {

/// True of the ASCII codes of `A` to `Z`.
pub open spec fn is_upper(b: u8) -> bool {
    0x41 <= b <= 0x5a
}

/// True of the ASCII codes of `a` to `z`.
pub open spec fn is_lower(b: u8) -> bool {
    0x61 <= b <= 0x7a
}

/// True of the ASCII codes of the letters, of either case.
pub open spec fn is_letter(b: u8) -> bool {
    is_upper(b) || is_lower(b)
}

/// True of the byte sequences that a chunk type can hold: exactly four
/// ASCII letters.
pub open spec fn is_tag(s: Seq<u8>) -> bool {
    &&& s.len() == 4
    &&& forall|i: int| 0 <= i < 4 ==> is_letter(#[trigger] s[i])
}

/// True of the chunk types that the PNG naming convention accepts: four
/// letters, the third of them upper case.
pub open spec fn is_valid_tag(s: Seq<u8>) -> bool {
    is_tag(s) && is_upper(s[2])
}

/// A chunk type: four ASCII letters, whose cases carry four property bits.
#[derive(Debug, Clone, Copy, Eq)]
pub struct ChunkType {
    bytes: [u8; 4],
}

impl PartialEq for ChunkType {
    /// Two chunk types are equal where their bytes are.
    fn eq(&self, other: &ChunkType) -> (r: bool) {
        let r = self.bytes[0] == other.bytes[0] && self.bytes[1] == other.bytes[1] && self.bytes[2]
            == other.bytes[2] && self.bytes[3] == other.bytes[3];
        proof {
            if r {
                assert(self@ =~= other@);
            }
        }
        r
    }
}

impl PartialEqSpecImpl for ChunkType {
    open spec fn obeys_eq_spec() -> bool {
        true
    }

    open spec fn eq_spec(&self, other: &ChunkType) -> bool {
        self@ == other@
    }
}

impl View for ChunkType {
    type V = Seq<u8>;

    closed spec fn view(&self) -> Seq<u8> {
        self.bytes@
    }
}

/// Whether `b` is the code of an upper-case letter.
fn upper(b: u8) -> (r: bool)
    ensures
        r == is_upper(b),
{
    0x41 <= b && b <= 0x5a
}

/// Whether `b` is the code of a lower-case letter.
fn lower(b: u8) -> (r: bool)
    ensures
        r == is_lower(b),
{
    0x61 <= b && b <= 0x7a
}

impl ChunkType {
    #[verifier::type_invariant]
    spec fn letters_only(&self) -> bool {
        is_tag(self.bytes@)
    }

    /// The chunk type that holds the four bytes `s`.
    pub closed spec fn of(s: Seq<u8>) -> ChunkType {
        ChunkType { bytes: [s[0], s[1], s[2], s[3]] }
    }

    /// Makes a chunk type of four bytes, which must all be ASCII letters.
    pub fn try_from(value: [u8; 4]) -> (r: Result<ChunkType, PngError>)
        ensures
            match r {
                Ok(t) => is_tag(value@) && t@ == value@,
                Err(e) => !is_tag(value@) && e == PngError::InvalidTag,
            },
    {
        if (upper(value[0]) || lower(value[0])) && (upper(value[1]) || lower(value[1])) && (upper(
            value[2],
        ) || lower(value[2])) && (upper(value[3]) || lower(value[3])) {
            Ok(ChunkType { bytes: value })
        } else {
            Err(PngError::InvalidTag)
        }
    }

    /// Makes a chunk type of a string, which must be four ASCII letters.
    pub fn from_str(s: &str) -> (r: Result<ChunkType, PngError>)
        ensures
            match r {
                Ok(t) => is_tag(s.spec_bytes()) && t@ == s.spec_bytes(),
                Err(e) => !is_tag(s.spec_bytes()) && e == PngError::InvalidTag,
            },
    {
        let b = s.as_bytes();
        if b.len() != 4 {
            return Err(PngError::InvalidTag);
        }
        let r = ChunkType::try_from([b[0], b[1], b[2], b[3]]);
        proof {
            assert([b[0], b[1], b[2], b[3]]@ =~= b@);
        }
        r
    }

    /// The four bytes, in order.
    pub fn bytes(&self) -> (r: [u8; 4])
        ensures
            r@ == self@,
            is_tag(self@),
    {
        proof {
            use_type_invariant(self);
        }
        self.bytes
    }

    /// Whether the type follows the naming convention in full: besides
    /// being four letters, its third letter is upper case.
    pub fn is_valid(&self) -> (r: bool)
        ensures
            r == is_valid_tag(self@),
    {
        proof {
            use_type_invariant(self);
        }
        (upper(self.bytes[0]) || lower(self.bytes[0])) && (upper(self.bytes[1]) || lower(
            self.bytes[1],
        )) && (upper(self.bytes[3]) || lower(self.bytes[3])) && upper(self.bytes[2])
    }

    /// Whether a decoder must understand the chunk: the first letter is
    /// upper case.
    pub fn is_critical(&self) -> (r: bool)
        ensures
            r == is_upper(self@[0]),
    {
        upper(self.bytes[0])
    }

    /// Whether the type is a registered, public one: the second letter is
    /// upper case.
    pub fn is_public(&self) -> (r: bool)
        ensures
            r == is_upper(self@[1]),
    {
        upper(self.bytes[1])
    }

    /// Whether the reserved bit is clear: the third letter is upper case.
    pub fn is_reserved_bit_valid(&self) -> (r: bool)
        ensures
            r == is_upper(self@[2]),
    {
        upper(self.bytes[2])
    }

    /// Whether an editor that does not know the chunk may copy it: the
    /// fourth letter is lower case.
    pub fn is_safe_to_copy(&self) -> (r: bool)
        ensures
            r == is_lower(self@[3]),
    {
        lower(self.bytes[3])
    }

    /// The four letters as text.
    pub fn to_string(&self) -> (r: String)
        ensures
            r@ == ascii_text(self@),
    {
        proof {
            use_type_invariant(self);
            lemma_ascii_is_utf8(self@);
        }
        let mut v: Vec<u8> = Vec::new();
        v.push(self.bytes[0]);
        v.push(self.bytes[1]);
        v.push(self.bytes[2]);
        v.push(self.bytes[3]);
        assert(v@ =~= self@);
        match String::from_utf8(v) {
            Ok(s) => s,
            // Never taken: four letters are well-formed UTF-8.
            Err(_) => String::new(),
        }
    }
}

/// `of` holds the bytes it was given.
pub broadcast proof fn lemma_of_view(s: Seq<u8>)
    requires
        s.len() == 4,
    ensures
        #[trigger] ChunkType::of(s)@ == s,
{
    assert(ChunkType::of(s)@ =~= s);
}

/// The standard conversion from four bytes: [`ChunkType::try_from`] under
/// the name that `try_into` finds.
impl TryFrom<[u8; 4]> for ChunkType {
    type Error = PngError;

    fn try_from(value: [u8; 4]) -> (r: Result<ChunkType, PngError>) {
        let r = ChunkType::try_from(value);
        proof {
            if let Ok(t) = r {
                assert(t.bytes =~= ChunkType::of(value@).bytes);
            }
        }
        r
    }
}

impl TryFromSpecImpl<[u8; 4]> for ChunkType {
    open spec fn obeys_try_from_spec() -> bool {
        true
    }

    open spec fn try_from_spec(v: [u8; 4]) -> Result<ChunkType, PngError> {
        if is_tag(v@) {
            Ok(ChunkType::of(v@))
        } else {
            Err(PngError::InvalidTag)
        }
    }
}

/// The standard conversion from text: [`ChunkType::from_str`] under the
/// name that `str::parse` finds, with the same contract.
impl FromStr for ChunkType {
    type Err = PngError;

    fn from_str(s: &str) -> (r: Result<ChunkType, PngError>)
        ensures
            match r {
                Ok(t) => is_tag(s.spec_bytes()) && t@ == s.spec_bytes(),
                Err(e) => !is_tag(s.spec_bytes()) && e == PngError::InvalidTag,
            },
    {
        ChunkType::from_str(s)
    }
}

} // verus!
