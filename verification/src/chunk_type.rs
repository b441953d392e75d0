//! The 4-byte chunk-type tag and its bit-encoded semantic flags.
//!
//! A tag built from text must be 4 ASCII alphabetic bytes; a tag built
//! from raw bytes is stored verbatim, because bytes read from a file are
//! trusted as-is. Bit 5 of each byte carries one PNG-standard flag.

use vstd::prelude::*;
use vstd::utf8::{decode_utf8, encode_utf8, is_ascii_chars, valid_utf8};

verus! {

/// Failure to build a chunk type from text that is not exactly 4 ASCII
/// alphabetic bytes, or to render one whose bytes are not valid text.
#[derive(Debug)]
pub struct ChunkTypeError;

/// A 4-byte chunk-type tag.
#[derive(Debug, PartialEq, Eq, Clone, Copy)]
pub struct ChunkType {
    bytes: [u8; 4],
}

/// An ASCII letter, `A`-`Z` or `a`-`z`, as a byte.
pub open spec fn spec_is_alpha_byte(b: u8) -> bool {
    (65 <= b && b <= 90) || (97 <= b && b <= 122)
}

/// An ASCII letter, `A`-`Z` or `a`-`z`, as a character.
pub open spec fn spec_is_alpha_char(c: char) -> bool {
    (65 <= c as int && c as int <= 90) || (97 <= c as int && c as int <= 122)
}

/// Text accepted as a chunk-type tag: exactly 4 letters.
pub open spec fn spec_valid_type_text(s: Seq<char>) -> bool {
    s.len() == 4 && forall|i: int| 0 <= i < 4 ==> spec_is_alpha_char(#[trigger] s[i])
}

/// The tag bytes that a piece of valid tag text denotes.
pub open spec fn spec_type_bytes_of_text(s: Seq<char>) -> Seq<u8> {
    Seq::new(s.len(), |i: int| s[i] as u8)
}

impl View for ChunkType {
    type V = Seq<u8>;

    closed spec fn view(&self) -> Seq<u8> {
        self.bytes@
    }
}

/// A chunk-type tag always views as exactly its 4 bytes.
pub broadcast proof fn lemma_chunk_type_len(ct: ChunkType)
    ensures
        (#[trigger] ct@).len() == 4,
{
    assert(ct.bytes@.len() == 4);
}

impl ChunkType {
    /// Builds a tag from raw bytes. Always succeeds: bytes decoded from
    /// a file are stored verbatim, with no alphabetic constraint.
    pub fn try_from(value: [u8; 4]) -> (r: Result<ChunkType, ChunkTypeError>)
        ensures
            r matches Ok(ct) && ct@ == value@,
    {
        Ok(ChunkType { bytes: value })
    }

    /// Builds a tag from text. Succeeds exactly on 4 ASCII alphabetic
    /// characters; case is preserved, since it encodes the flag bits.
    pub fn from_str(s: &str) -> (r: Result<ChunkType, ChunkTypeError>)
        ensures
            r is Ok <==> spec_valid_type_text(s@),
            r matches Ok(ct) ==> ct@ == spec_type_bytes_of_text(s@),
    {
        broadcast use vstd::string::is_ascii_spec_bytes;

        if !s.is_ascii() {
            proof {
                assert(spec_valid_type_text(s@) ==> is_ascii_chars(s@)) by {
                    if spec_valid_type_text(s@) {
                        assert(forall|i: int|
                            0 <= i < s@.len() ==> '\0' <= #[trigger] s@[i] <= '\u{7f}');
                    }
                }
            }
            return Err(ChunkTypeError);
        }
        let b: &[u8] = s.as_bytes();
        if b.len() != 4 {
            return Err(ChunkTypeError);
        }
        let b0: u8 = b[0];
        let b1: u8 = b[1];
        let b2: u8 = b[2];
        let b3: u8 = b[3];
        if !is_alpha(b0) || !is_alpha(b1) || !is_alpha(b2) || !is_alpha(b3) {
            return Err(ChunkTypeError);
        }
        let ct = ChunkType { bytes: [b0, b1, b2, b3] };
        proof {
            assert(ct@ =~= spec_type_bytes_of_text(s@));
        }
        Ok(ct)
    }

    /// The 4 tag bytes.
    pub fn bytes(&self) -> (r: [u8; 4])
        ensures
            r@ == self@,
    {
        self.bytes
    }

    /// A tag is valid when its reserved bit is valid.
    pub fn is_valid(&self) -> (r: bool)
        ensures
            r == spec_reserved_bit_valid(self@),
    {
        self.is_reserved_bit_valid()
    }

    /// Critical chunk: bit 5 of the first byte clear (upper-case letter).
    pub fn is_critical(&self) -> (r: bool)
        ensures
            r == spec_critical(self@),
    {
        (self.bytes[0] >> 5) & 1 == 0
    }

    /// Public chunk: bit 5 of the second byte clear.
    pub fn is_public(&self) -> (r: bool)
        ensures
            r == spec_public(self@),
    {
        (self.bytes[1] >> 5) & 1 == 0
    }

    /// Reserved bit valid: bit 5 of the third byte clear.
    pub fn is_reserved_bit_valid(&self) -> (r: bool)
        ensures
            r == spec_reserved_bit_valid(self@),
    {
        (self.bytes[2] >> 5) & 1 == 0
    }

    /// Safe to copy: bit 5 of the fourth byte set.
    pub fn is_safe_to_copy(&self) -> (r: bool)
        ensures
            r == spec_safe_to_copy(self@),
    {
        (self.bytes[3] >> 5) & 1 == 1
    }

    /// Renders the tag as text. Fails exactly when the bytes are not
    /// valid UTF-8, which is reachable only through the raw-bytes
    /// constructor.
    pub fn to_text(&self) -> (r: Result<String, ChunkTypeError>)
        ensures
            r is Ok <==> valid_utf8(self@),
            r matches Ok(t) ==> t@ == decode_utf8(self@),
    {
        let mut v: Vec<u8> = Vec::new();
        v.push(self.bytes[0]);
        v.push(self.bytes[1]);
        v.push(self.bytes[2]);
        v.push(self.bytes[3]);
        proof {
            assert(v@ =~= self@);
        }
        match crate::text::utf8_to_string(v) {
            Some(t) => Ok(t),
            None => Err(ChunkTypeError),
        }
    }
}

/// Whether `b` is an ASCII letter.
fn is_alpha(b: u8) -> (r: bool)
    ensures
        r == spec_is_alpha_byte(b),
{
    (65 <= b && b <= 90) || (97 <= b && b <= 122)
}

/// Critical flag of tag bytes `t`: bit 5 of `t[0]` clear.
pub open spec fn spec_critical(t: Seq<u8>) -> bool {
    (t[0] >> 5) & 1 == 0
}

/// Public flag of tag bytes `t`: bit 5 of `t[1]` clear.
pub open spec fn spec_public(t: Seq<u8>) -> bool {
    (t[1] >> 5) & 1 == 0
}

/// Reserved-bit flag of tag bytes `t`: bit 5 of `t[2]` clear.
pub open spec fn spec_reserved_bit_valid(t: Seq<u8>) -> bool {
    (t[2] >> 5) & 1 == 0
}

/// Safe-to-copy flag of tag bytes `t`: bit 5 of `t[3]` set.
pub open spec fn spec_safe_to_copy(t: Seq<u8>) -> bool {
    (t[3] >> 5) & 1 == 1
}

/// Law: parsing valid tag text and rendering the tag back returns the
/// same text. The bytes a valid text denotes are valid UTF-8 and decode
/// to that text, so `from_str` followed by `to_text` is the identity.
pub proof fn lemma_text_round_trip(s: Seq<char>)
    requires
        spec_valid_type_text(s),
    ensures
        valid_utf8(spec_type_bytes_of_text(s)),
        decode_utf8(spec_type_bytes_of_text(s)) == s,
{
    assert(is_ascii_chars(s));
    vstd::utf8::is_ascii_chars_encode_utf8(s);
    assert(spec_type_bytes_of_text(s) =~= encode_utf8(s));
    vstd::utf8::encode_utf8_valid_utf8(s);
    vstd::utf8::encode_utf8_decode_utf8(s);
}

} // verus!
