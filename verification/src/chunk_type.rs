use std::str::FromStr;
use vstd::prelude::*;
use vstd::std_specs::cmp::PartialEqSpecImpl;
use vstd::std_specs::convert::TryFromSpecImpl;
use vstd::string::StringSliceAdditionalSpecFns;

use crate::error::Error;
use crate::text::{bytes_text, push_bytes};

verus! {

/// `b` is one of `A`..=`Z`.
pub open spec fn is_upper(b: u8) -> bool {
    0x41 <= b <= 0x5a
}

/// `b` is one of `a`..=`z`.
pub open spec fn is_lower(b: u8) -> bool {
    0x61 <= b <= 0x7a
}

/// `b` is an ASCII letter of either case.
pub open spec fn is_letter(b: u8) -> bool {
    is_upper(b) || is_lower(b)
}

/// The case bit of an ASCII letter (value `0x20`) is unset in `b`.
pub open spec fn case_bit_clear(b: u8) -> bool {
    b & 0x20 == 0
}

/// The bytes that `ChunkType::from_str` accepts: exactly four ASCII letters.
pub open spec fn is_type_text(bytes: Seq<u8>) -> bool {
    &&& bytes.len() == 4
    &&& forall|i: int| 0 <= i < 4 ==> is_letter(#[trigger] bytes[i])
}

/// Among ASCII letters the upper-case ones are exactly those whose case bit
/// is unset.
pub proof fn lemma_letter_case_bit(b: u8)
    requires
        is_letter(b),
    ensures
        is_upper(b) <==> case_bit_clear(b),
{
    assert((0x41 <= b <= 0x5a || 0x61 <= b <= 0x7a) ==> ((0x41 <= b <= 0x5a) <==> b & 0x20 == 0))
        by (bit_vector);
}

/// A four-byte code that classifies a chunk. The case of each byte carries
/// one flag.
#[derive(Clone, Copy, Debug)]
pub struct ChunkType {
    code: [u8; 4],
}

impl View for ChunkType {
    type V = Seq<u8>;

    open spec fn view(&self) -> Seq<u8> {
        self.spec_bytes()@
    }
}

impl PartialEq for ChunkType {
    /// Two codes are equal when their four bytes are.
    fn eq(&self, other: &ChunkType) -> (equal: bool) {
        self.code[0] == other.code[0] && self.code[1] == other.code[1] && self.code[2]
            == other.code[2] && self.code[3] == other.code[3]
    }
}

impl Eq for ChunkType {

}

impl PartialEqSpecImpl for ChunkType {
    open spec fn obeys_eq_spec() -> bool {
        true
    }

    open spec fn eq_spec(&self, other: &ChunkType) -> bool {
        self@ =~= other@
    }
}

impl TryFrom<[u8; 4]> for ChunkType {
    type Error = Error;

    /// Takes the four bytes as they are; no byte is refused.
    fn try_from(value: [u8; 4]) -> (r: Result<ChunkType, Error>)
        ensures
            r is Ok,
            r->Ok_0.spec_bytes() == value,
    {
        Ok(ChunkType { code: value })
    }
}

impl TryFromSpecImpl<[u8; 4]> for ChunkType {
    open spec fn obeys_try_from_spec() -> bool {
        true
    }

    open spec fn try_from_spec(value: [u8; 4]) -> Result<ChunkType, Error> {
        Ok(ChunkType::of(value))
    }
}

impl FromStr for ChunkType {
    type Err = Error;

    /// Reads a code from text: exactly four ASCII letters, else
    /// `InvalidFormat`.
    fn from_str(s: &str) -> (r: Result<ChunkType, Error>)
        ensures
            match r {
                Ok(t) => is_type_text(s.spec_bytes()) && t@ == s.spec_bytes(),
                Err(e) => !is_type_text(s.spec_bytes()) && e == Error::InvalidFormat,
            },
    {
        let text = s.as_bytes();
        if text.len() != 4 {
            return Err(Error::InvalidFormat);
        }
        let code: [u8; 4] = [text[0], text[1], text[2], text[3]];
        let mut i: usize = 0;
        while i < 4
            invariant
                i <= 4,
                text@ == s.spec_bytes(),
                text@.len() == 4,
                forall|j: int| 0 <= j < i ==> is_letter(#[trigger] text@[j]),
            decreases 4 - i,
        {
            let b: u8 = text[i];
            if !((0x41 <= b && b <= 0x5a) || (0x61 <= b && b <= 0x7a)) {
                assert(!is_letter(s.spec_bytes()[i as int]));
                return Err(Error::InvalidFormat);
            }
            i += 1;
        }
        assert(code@ =~= text@);
        Ok(ChunkType { code })
    }
}

impl ChunkType {
    /// The four bytes of the code.
    pub closed spec fn spec_bytes(&self) -> [u8; 4] {
        self.code
    }

    /// Two codes with the same bytes are the same code.
    pub proof fn lemma_view_injective(self, other: ChunkType)
        requires
            self@ == other@,
        ensures
            self == other,
    {
        assert(self.code@ =~= other.code@);
        assert(self.code == other.code);
    }

    /// The code made of the four bytes `code`.
    pub closed spec fn of(code: [u8; 4]) -> ChunkType {
        ChunkType { code }
    }

    /// A code made of four bytes has those bytes.
    pub proof fn lemma_of_bytes(code: [u8; 4])
        ensures
            ChunkType::of(code).spec_bytes() == code,
    {
    }

    /// The four bytes of the code.
    #[verifier::when_used_as_spec(spec_bytes)]
    pub fn bytes(&self) -> (code: [u8; 4])
        ensures
            code == self.spec_bytes(),
    {
        self.code
    }

    /// The code as text: each byte as the character with its code point, so
    /// a code read from text comes out as it was written.
    pub fn to_string(&self) -> (s: String)
        ensures
            s@ == bytes_text(self@),
    {
        let mut s = String::new();
        push_bytes(&mut s, self.code.as_slice());
        assert(s@ =~= bytes_text(self@));
        s
    }

    /// A chunk is critical when the case bit of the first byte is unset.
    pub fn is_critical(&self) -> (critical: bool)
        ensures
            critical == case_bit_clear(self@[0]),
    {
        self.code[0] & 0x20 == 0
    }

    /// The reserved bit is in order when the third byte is an upper-case
    /// ASCII letter.
    pub fn is_reserved_bit_valid(&self) -> (ok: bool)
        ensures
            ok == is_upper(self@[2]),
            is_letter(self@[2]) ==> ok == case_bit_clear(self@[2]),
    {
        proof {
            if is_letter(self@[2]) {
                lemma_letter_case_bit(self@[2]);
            }
        }
        let b: u8 = self.code[2];
        0x41 <= b && b <= 0x5a
    }

    /// A code is valid when its reserved bit is in order; the other flags do
    /// not count.
    pub fn is_valid(&self) -> (valid: bool)
        ensures
            valid == is_upper(self@[2]),
    {
        self.is_reserved_bit_valid()
    }
}

} // verus!
