use crate::error::ChunkError;
use crate::text::{all_ascii, ascii_string, latin_text, lemma_ascii_is_utf8};
use std::str::FromStr;
use vstd::prelude::*;
use vstd::string::StringSliceAdditionalSpecFns;

verus! {

/// An ASCII letter, `A` to `Z` or `a` to `z`.
pub open spec fn is_letter(b: u8) -> bool {
    (0x41 <= b <= 0x5a) || (0x61 <= b <= 0x7a)
}

/// Four bytes, each of them a letter.
pub open spec fn valid_type_bytes(s: Seq<u8>) -> bool {
    s.len() == 4 && forall|i: int| 0 <= i < 4 ==> is_letter(#[trigger] s[i])
}

/// The position of the first byte that is no letter, or the length if all are.
pub open spec fn first_non_letter(s: Seq<u8>) -> int
    decreases s.len(),
{
    if s.len() == 0 || !is_letter(s[0]) {
        0
    } else {
        1 + first_non_letter(s.drop_first())
    }
}

/// What reading a type code from `s` gives: the first byte that is no letter
/// is reported; letters alone must be four.
pub open spec fn type_of_bytes(s: Seq<u8>) -> Result<Seq<u8>, ChunkError> {
    let i = first_non_letter(s);
    if i < s.len() {
        Err(ChunkError::InvalidTypeByte(s[i]))
    } else if s.len() != 4 {
        Err(ChunkError::InvalidTypeLength)
    } else {
        Ok(s)
    }
}

/// Whether bit 5 (value 32) of a byte is set; in a letter, whether it is lower case.
pub open spec fn flag_set(b: u8) -> bool {
    b & 0x20 != 0
}

/// `first_non_letter` is the position before which all bytes are letters and
/// at which the sequence ends or holds another byte.
pub proof fn lemma_first_non_letter(s: Seq<u8>, i: int)
    requires
        0 <= i <= s.len(),
        forall|j: int| 0 <= j < i ==> is_letter(#[trigger] s[j]),
        i < s.len() ==> !is_letter(s[i]),
    ensures
        first_non_letter(s) == i,
    decreases i,
{
    if i > 0 {
        let t = s.drop_first();
        assert(is_letter(s[0]));
        assert forall|j: int| 0 <= j < i - 1 implies is_letter(#[trigger] t[j]) by {
            assert(t[j] == s[j + 1]);
        }
        lemma_first_non_letter(t, i - 1);
    }
}

/// A type code is accepted exactly when it is four letters, and is then kept as it is.
pub proof fn lemma_type_of_bytes_ok(s: Seq<u8>)
    ensures
        type_of_bytes(s) is Ok <==> valid_type_bytes(s),
        type_of_bytes(s) is Ok ==> type_of_bytes(s) == Ok::<Seq<u8>, ChunkError>(s),
{
    lemma_first_non_letter_bounds(s);
    if valid_type_bytes(s) {
        lemma_first_non_letter(s, 4);
    }
}

/// `first_non_letter` lies within the sequence, all bytes before it are letters,
/// and the byte at it, if any, is none.
pub proof fn lemma_first_non_letter_bounds(s: Seq<u8>)
    ensures
        0 <= first_non_letter(s) <= s.len(),
        forall|j: int| 0 <= j < first_non_letter(s) ==> is_letter(#[trigger] s[j]),
        first_non_letter(s) < s.len() ==> !is_letter(s[first_non_letter(s)]),
    decreases s.len(),
{
    if s.len() == 0 || !is_letter(s[0]) {
    } else {
        let t = s.drop_first();
        lemma_first_non_letter_bounds(t);
        assert forall|j: int| 0 <= j < first_non_letter(s) implies is_letter(#[trigger] s[j]) by {
            if j > 0 {
                assert(s[j] == t[j - 1]);
            }
        }
        if first_non_letter(s) < s.len() {
            assert(s[first_non_letter(s)] == t[first_non_letter(t)]);
        }
    }
}

/// Letters are ASCII.
pub proof fn lemma_letters_are_ascii(s: Seq<u8>)
    requires
        valid_type_bytes(s),
    ensures
        all_ascii(s),
{
    assert forall|i: int| 0 <= i < s.len() implies #[trigger] s[i] < 128 by {
        assert(is_letter(s[i]));
    }
}

/// A four-letter chunk type code.
#[derive(PartialEq, Eq, Debug)]
pub struct ChunkType {
    bytes: [u8; 4],
}

impl View for ChunkType {
    type V = Seq<u8>;

    closed spec fn view(&self) -> Seq<u8> {
        self.bytes@
    }
}

fn byte_is_letter(b: u8) -> (r: bool)
    ensures
        r == is_letter(b),
{
    (0x41 <= b && b <= 0x5a) || (0x61 <= b && b <= 0x7a)
}

/// Scans for the first byte that is no letter.
fn find_non_letter(s: &[u8]) -> (r: usize)
    ensures
        r == first_non_letter(s@),
        r <= s@.len(),
{
    let mut i: usize = 0;
    while i < s.len() && byte_is_letter(s[i])
        invariant
            i <= s@.len(),
            forall|j: int| 0 <= j < i ==> is_letter(#[trigger] s@[j]),
        decreases s@.len() - i,
    {
        i += 1;
    }
    proof {
        lemma_first_non_letter(s@, i as int);
    }
    i
}

impl ChunkType {
    #[verifier::type_invariant]
    spec fn well_formed(&self) -> bool {
        valid_type_bytes(self.bytes@)
    }

    /// The four bytes of the code.
    pub fn bytes(&self) -> (r: [u8; 4])
        ensures
            r@ == self@,
            valid_type_bytes(self@),
    {
        proof {
            use_type_invariant(self);
        }
        self.bytes
    }

    /// A type is valid when its reserved bit is.
    pub fn is_valid(&self) -> (r: bool)
        ensures
            r == !flag_set(self@[2]),
    {
        self.is_reserved_bit_valid()
    }

    /// Critical: the first letter is upper case.
    pub fn is_critical(&self) -> (r: bool)
        ensures
            r == !flag_set(self@[0]),
    {
        !self.is_nbit_set(self.bytes[0], 5)
    }

    /// Public: the second letter is upper case.
    pub fn is_public(&self) -> (r: bool)
        ensures
            r == !flag_set(self@[1]),
    {
        !self.is_nbit_set(self.bytes[1], 5)
    }

    /// The reserved bit is valid when the third letter is upper case.
    pub fn is_reserved_bit_valid(&self) -> (r: bool)
        ensures
            r == !flag_set(self@[2]),
    {
        !self.is_nbit_set(self.bytes[2], 5)
    }

    /// Safe to copy: the fourth letter is lower case.
    pub fn is_safe_to_copy(&self) -> (r: bool)
        ensures
            r == flag_set(self@[3]),
    {
        self.is_nbit_set(self.bytes[3], 5)
    }

    /// Tests one bit of a byte; bit 0 is the lowest.
    pub fn is_nbit_set(&self, byte: u8, bit: u8) -> (r: bool)
        requires
            bit < 8,
        ensures
            r == ((byte >> bit) & 1 == 1),
            bit == 5 ==> r == flag_set(byte),
    {
        proof {
            assert(((byte >> 5u8) & 1 == 1) == (byte & 0x20 != 0)) by (bit_vector);
        }
        (byte >> bit) & 1 == 1
    }

    /// Whether the code, read as text, is `name`.
    pub fn has_name(&self, name: &str) -> (r: bool)
        ensures
            r == (latin_text(self@) == name@),
    {
        proof {
            use_type_invariant(self);
            lemma_letters_are_ascii(self.bytes@);
            lemma_ascii_is_utf8(self.bytes@);
            vstd::utf8::encode_utf8_decode_utf8(name@);
        }
        let b = name.as_bytes();
        let r = b.len() == 4 && b[0] == self.bytes[0] && b[1] == self.bytes[1] && b[2]
            == self.bytes[2] && b[3] == self.bytes[3];
        proof {
            if r {
                assert(b@ =~= self.bytes@);
            }
        }
        r
    }

    /// The code as text, one character per letter.
    pub fn to_string(&self) -> (r: String)
        ensures
            r@ == latin_text(self@),
    {
        proof {
            use_type_invariant(self);
        }
        let mut v: Vec<u8> = Vec::new();
        v.push(self.bytes[0]);
        v.push(self.bytes[1]);
        v.push(self.bytes[2]);
        v.push(self.bytes[3]);
        proof {
            assert(v@ =~= self.bytes@);
            lemma_letters_are_ascii(self.bytes@);
        }
        ascii_string(v)
    }
}

impl Clone for ChunkType {
    fn clone(&self) -> (r: Self)
        ensures
            r@ == self@,
    {
        proof {
            use_type_invariant(self);
        }
        ChunkType { bytes: self.bytes }
    }
}

/// The conversion from four bytes as a spec function: the type that holds
/// the bytes where `type_of_bytes` accepts them, else its error.
impl vstd::std_specs::convert::TryFromSpecImpl<[u8; 4]> for ChunkType {
    open spec fn obeys_try_from_spec() -> bool {
        true
    }

    closed spec fn try_from_spec(v: [u8; 4]) -> Result<Self, ChunkError> {
        match type_of_bytes(v@) {
            Ok(_) => Ok(ChunkType { bytes: v }),
            Err(e) => Err(e),
        }
    }
}

impl TryFrom<[u8; 4]> for ChunkType {
    type Error = ChunkError;

    /// Accepts four letters; reports the first byte that is none.
    fn try_from(value: [u8; 4]) -> (r: Result<Self, ChunkError>)
        ensures
            match r {
                Ok(t) => type_of_bytes(value@) == Ok::<Seq<u8>, ChunkError>(t@),
                Err(e) => type_of_bytes(value@) == Err::<Seq<u8>, ChunkError>(e),
            },
    {
        let i = find_non_letter(value.as_slice());
        if i < 4 {
            Err(ChunkError::InvalidTypeByte(value[i]))
        } else {
            proof {
                lemma_first_non_letter_bounds(value@);
            }
            Ok(ChunkType { bytes: value })
        }
    }
}

impl FromStr for ChunkType {
    type Err = ChunkError;

    /// Accepts a string whose bytes are four letters; reports the first byte
    /// that is no letter, or else the wrong length.
    fn from_str(s: &str) -> (r: Result<Self, ChunkError>)
        ensures
            match r {
                Ok(t) => type_of_bytes(s.spec_bytes()) == Ok::<Seq<u8>, ChunkError>(t@),
                Err(e) => type_of_bytes(s.spec_bytes()) == Err::<Seq<u8>, ChunkError>(e),
            },
    {
        let b = s.as_bytes();
        let i = find_non_letter(b);
        if i < b.len() {
            Err(ChunkError::InvalidTypeByte(b[i]))
        } else if b.len() != 4 {
            Err(ChunkError::InvalidTypeLength)
        } else {
            proof {
                lemma_first_non_letter_bounds(b@);
            }
            let bytes: [u8; 4] = [b[0], b[1], b[2], b[3]];
            assert(bytes@ =~= b@);
            Ok(ChunkType { bytes })
        }
    }
}

} // verus!
