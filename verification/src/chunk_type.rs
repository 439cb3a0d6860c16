//! The 4-byte chunk type code and its case-encoded property bits.

use vstd::prelude::*;
use vstd::string::StrSliceExecFns;
use vstd::utf8::{encode_utf8, encode_scalar, has_width_1_encoding, leading_byte_width_1,
    char_is_scalar};

verus! {

/// A 4-byte chunk type tag. The ASCII case of each byte encodes a property
/// of the chunk (critical, public, reserved, safe-to-copy).
#[derive(Debug, Clone, Copy)]
pub struct ChunkType {
    bytes: [u8; 4],
}

/// Error for a chunk type built from text that is not exactly 4 ASCII letters.
#[derive(Debug, PartialEq, Eq, Structural)]
pub enum ChunkTypeErr {
    InvalidArgs,
}

impl View for ChunkType {
    type V = Seq<u8>;

    closed spec fn view(&self) -> Seq<u8> {
        self.bytes@
    }
}

/// True when the byte is an ASCII uppercase letter.
pub open spec fn is_ascii_upper(b: u8) -> bool {
    0x41 <= b <= 0x5a
}

/// True when the byte is an ASCII lowercase letter.
pub open spec fn is_ascii_lower(b: u8) -> bool {
    0x61 <= b <= 0x7a
}

/// True when the byte is an ASCII letter.
pub open spec fn is_ascii_alpha(b: u8) -> bool {
    is_ascii_upper(b) || is_ascii_lower(b)
}

/// True when the code point is an ASCII letter.
pub open spec fn is_alpha_scalar(v: u32) -> bool {
    (0x41 <= v <= 0x5a) || (0x61 <= v <= 0x7a)
}

/// True when the text is a well-formed chunk type: exactly 4 characters,
/// all ASCII alphabetic.
pub open spec fn is_type_text(s: Seq<char>) -> bool {
    s.len() == 4 && forall|i: int| 0 <= i < 4 ==> is_alpha_scalar(#[trigger] s[i] as u32)
}

/// True when the text is exactly the rendering of the given raw bytes,
/// character for character by code point.
pub open spec fn matches_type_text(s: Seq<char>, bytes: Seq<u8>) -> bool {
    &&& s.len() == bytes.len()
    &&& forall|i: int| 0 <= i < s.len() ==> (#[trigger] s[i] as u32) == bytes[i] as u32
}

/// If every character's code point is below 0x80, the UTF-8 encoding is one
/// byte per character, carrying the code point itself.
proof fn lemma_encode_low_scalars(chars: Seq<char>)
    requires
        forall|i: int| 0 <= i < chars.len() ==> (#[trigger] chars[i] as u32) < 0x80,
    ensures
        encode_utf8(chars).len() == chars.len(),
        forall|i: int|
            0 <= i < chars.len() ==> encode_utf8(chars)[i] as u32 == (#[trigger] chars[i] as u32),
    decreases chars.len(),
{
    if chars.len() > 0 {
        let c0 = chars[0] as u32;
        assert(has_width_1_encoding(c0));
        assert(((c0 & 0x7f) as u8) as u32 == c0) by (bit_vector)
            requires
                c0 < 0x80,
        ;
        assert(leading_byte_width_1(c0) as u32 == c0);
        lemma_encode_low_scalars(chars.drop_first());
        assert(encode_utf8(chars) == encode_scalar(c0) + encode_utf8(chars.drop_first()));
        assert forall|i: int| 0 <= i < chars.len() implies encode_utf8(chars)[i] as u32 == (
        #[trigger] chars[i] as u32) by {
            if i > 0 {
                assert(chars.drop_first()[i - 1] == chars[i]);
                assert(encode_utf8(chars)[i] == encode_utf8(chars.drop_first())[i - 1]);
            }
        }
    }
}

/// If every byte of the UTF-8 encoding is below 0x80, the encoded text has one
/// character per byte, whose code point is the byte itself.
proof fn lemma_decode_low_bytes(chars: Seq<char>)
    requires
        forall|i: int| 0 <= i < encode_utf8(chars).len() ==> #[trigger] encode_utf8(chars)[i]
            < 0x80,
    ensures
        chars.len() == encode_utf8(chars).len(),
        forall|i: int|
            0 <= i < chars.len() ==> (#[trigger] chars[i] as u32) == encode_utf8(chars)[i] as u32,
    decreases chars.len(),
{
    if chars.len() > 0 {
        let c0 = chars[0] as u32;
        char_is_scalar(chars[0]);
        assert(encode_utf8(chars) == encode_scalar(c0) + encode_utf8(chars.drop_first()));
        assert(encode_utf8(chars)[0] == encode_scalar(c0)[0]);
        if !has_width_1_encoding(c0) {
            assert(forall|y: u8| (0xc0u8 | y) >= 0x80u8) by (bit_vector);
            assert(forall|y: u8| (0xe0u8 | y) >= 0x80u8) by (bit_vector);
            assert(forall|y: u8| (0xf0u8 | y) >= 0x80u8) by (bit_vector);
            assert(encode_scalar(c0)[0] >= 0x80);
            assert(false);
        }
        assert(((c0 & 0x7f) as u8) as u32 == c0) by (bit_vector)
            requires
                c0 < 0x80,
        ;
        assert(leading_byte_width_1(c0) as u32 == c0);
        assert forall|i: int|
            0 <= i < encode_utf8(chars.drop_first()).len() implies #[trigger] encode_utf8(
            chars.drop_first(),
        )[i] < 0x80 by {
            assert(encode_utf8(chars.drop_first())[i] == encode_utf8(chars)[i + 1]);
        }
        lemma_decode_low_bytes(chars.drop_first());
        assert forall|i: int| 0 <= i < chars.len() implies (#[trigger] chars[i] as u32)
            == encode_utf8(chars)[i] as u32 by {
            if i > 0 {
                assert(chars.drop_first()[i - 1] == chars[i]);
                assert(encode_utf8(chars)[i] == encode_utf8(chars.drop_first())[i - 1]);
            }
        }
    }
}

impl ChunkType {
    /// Builds a chunk type from 4 raw bytes; no validation is performed.
    pub fn new(bytes: &[u8; 4]) -> (r: ChunkType)
        ensures
            r@ == bytes@,
    {
        ChunkType { bytes: *bytes }
    }

    /// Builds a chunk type from 4 raw bytes; always succeeds.
    pub fn try_from(bytes: [u8; 4]) -> (r: Result<ChunkType, ChunkTypeErr>)
        ensures
            r matches Ok(t) && t@ == bytes@,
    {
        Ok(ChunkType { bytes })
    }

    /// Builds a chunk type from text; succeeds exactly when the text is
    /// 4 ASCII alphabetic characters, and then renders back to the same text.
    pub fn from_str(s: &str) -> (r: Result<ChunkType, ChunkTypeErr>)
        ensures
            match r {
                Ok(t) => is_type_text(s@) && matches_type_text(s@, t@),
                Err(e) => e == ChunkTypeErr::InvalidArgs && !is_type_text(s@),
            },
    {
        let b = s.as_bytes();
        if b.len() != 4 {
            proof {
                if is_type_text(s@) {
                    lemma_encode_low_scalars(s@);
                    assert(false);
                }
            }
            return Err(ChunkTypeErr::InvalidArgs);
        }
        let b0 = b[0];
        let b1 = b[1];
        let b2 = b[2];
        let b3 = b[3];
        let ok = is_alpha_byte(b0) && is_alpha_byte(b1) && is_alpha_byte(b2) && is_alpha_byte(b3);
        if !ok {
            proof {
                if is_type_text(s@) {
                    lemma_encode_low_scalars(s@);
                    assert(encode_utf8(s@)[0] as u32 == s@[0] as u32);
                    assert(encode_utf8(s@)[1] as u32 == s@[1] as u32);
                    assert(encode_utf8(s@)[2] as u32 == s@[2] as u32);
                    assert(encode_utf8(s@)[3] as u32 == s@[3] as u32);
                    assert(is_ascii_alpha(b@[0]) && is_ascii_alpha(b@[1]) && is_ascii_alpha(b@[2])
                        && is_ascii_alpha(b@[3]));
                    assert(false);
                }
            }
            return Err(ChunkTypeErr::InvalidArgs);
        }
        let bytes = [b0, b1, b2, b3];
        proof {
            assert(forall|i: int| 0 <= i < 4 ==> is_ascii_alpha(#[trigger] b@[i]));
            lemma_decode_low_bytes(s@);
            assert(bytes@ =~= b@);
        }
        Ok(ChunkType { bytes })
    }

    /// Returns the 4 raw bytes of the type code.
    pub fn bytes(&self) -> (r: [u8; 4])
        ensures
            r@ == self@,
    {
        self.bytes
    }

    /// The reserved bit is valid and all 4 bytes are ASCII letters.
    pub fn is_valid(&self) -> (r: bool)
        ensures
            r == (is_ascii_upper(self@[2]) && forall|i: int|
                0 <= i < 4 ==> is_ascii_alpha(#[trigger] self@[i])),
    {
        let alpha = is_alpha_byte(self.bytes[0]) && is_alpha_byte(self.bytes[1]) && is_alpha_byte(
            self.bytes[2],
        ) && is_alpha_byte(self.bytes[3]);
        self.is_reserved_bit_valid() && alpha
    }

    /// The chunk is critical: byte 0 is uppercase.
    pub fn is_critical(&self) -> (r: bool)
        ensures
            r == is_ascii_upper(self@[0]),
    {
        0x41 <= self.bytes[0] && self.bytes[0] <= 0x5a
    }

    /// The type is in the public registry: byte 1 is uppercase.
    pub fn is_public(&self) -> (r: bool)
        ensures
            r == is_ascii_upper(self@[1]),
    {
        0x41 <= self.bytes[1] && self.bytes[1] <= 0x5a
    }

    /// The reserved bit is in its valid state: byte 2 is uppercase.
    pub fn is_reserved_bit_valid(&self) -> (r: bool)
        ensures
            r == is_ascii_upper(self@[2]),
    {
        0x41 <= self.bytes[2] && self.bytes[2] <= 0x5a
    }

    /// The chunk is safe to copy when the stream is edited: byte 3 is lowercase.
    pub fn is_safe_to_copy(&self) -> (r: bool)
        ensures
            r == is_ascii_lower(self@[3]),
    {
        0x61 <= self.bytes[3] && self.bytes[3] <= 0x7a
    }

    /// True exactly when the given text is this type code's text rendering.
    pub fn matches_text(&self, t: &str) -> (r: bool)
        ensures
            r == matches_type_text(t@, self@),
    {
        if t.unicode_len() != 4 {
            return false;
        }
        let c0 = t.get_char(0);
        let c1 = t.get_char(1);
        let c2 = t.get_char(2);
        let c3 = t.get_char(3);
        c0 as u32 == self.bytes[0] as u32 && c1 as u32 == self.bytes[1] as u32 && c2 as u32
            == self.bytes[2] as u32 && c3 as u32 == self.bytes[3] as u32
    }

    /// Renders the type code as text: the 4 characters whose code points are
    /// the 4 bytes.
    pub fn to_text(&self) -> (r: String)
        ensures
            matches_type_text(r@, self@),
    {
        let mut r = String::new();
        push_byte_char(&mut r, self.bytes[0]);
        push_byte_char(&mut r, self.bytes[1]);
        push_byte_char(&mut r, self.bytes[2]);
        push_byte_char(&mut r, self.bytes[3]);
        r
    }
}

/// True exactly when the byte is an ASCII letter.
fn is_alpha_byte(b: u8) -> (r: bool)
    ensures
        r == is_ascii_alpha(b),
{
    (0x41 <= b && b <= 0x5a) || (0x61 <= b && b <= 0x7a)
}

/// Relies on `String::push`: appends exactly one character, here the one
/// whose code point is the given byte.
#[verifier::external_body]
fn push_byte_char(s: &mut String, b: u8)
    ensures
        final(s)@ == old(s)@.push(b as char),
{
    s.push(b as char);
}

impl PartialEq for ChunkType {
    /// Byte-for-byte equality of the two type codes.
    fn eq(&self, other: &ChunkType) -> (r: bool) {
        let r = self.bytes[0] == other.bytes[0] && self.bytes[1] == other.bytes[1] && self.bytes[2]
            == other.bytes[2] && self.bytes[3] == other.bytes[3];
        proof {
            if r {
                assert(self.bytes@ =~= other.bytes@);
            }
        }
        r
    }
}

impl vstd::std_specs::cmp::PartialEqSpecImpl for ChunkType {
    open spec fn obeys_eq_spec() -> bool {
        true
    }

    open spec fn eq_spec(&self, other: &ChunkType) -> bool {
        self.view() == other.view()
    }
}

} // verus!
