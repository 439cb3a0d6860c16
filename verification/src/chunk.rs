//! One chunk record: a length-prefixed, typed, CRC-protected unit.

use vstd::prelude::*;
use vstd::slice::{slice_subrange, slice_to_vec};
use vstd::utf8::{valid_utf8, decode_utf8};
use crate::MAXIMUM_LENGTH;
use crate::checksum::{crc32, crc32_of};
use crate::chunk_type::ChunkType;
use crate::wire::{u32_of_be, be_of_u32, read_u32_be, push_u32_be};

verus! {

/// Why a byte stream failed to decode as a record, or its data as text.
#[derive(Debug, PartialEq, Eq, Structural)]
pub enum ChunkDecodingError {
    /// Fewer bytes remain than the record's frame and declared data need.
    InsufficientBytes,
    /// The header declares a data length above the permitted maximum.
    LengthTooLarge,
    /// The stored checksum differs from the one recomputed over type and data.
    CrcMismatch { expected: u32, actual: u32 },
    /// The record's data is not valid UTF-8 text.
    InvalidUtf8,
}

/// The mathematical content of a chunk record.
pub ghost struct ChunkView {
    pub length: u32,
    pub chunk_type: Seq<u8>,
    pub data: Seq<u8>,
    pub crc: u32,
}

impl ChunkView {
    /// Internal consistency: the length counts the data bytes, the data fits
    /// the declared bound, the type has 4 bytes, and the checksum covers the
    /// type bytes followed by the data.
    pub open spec fn wf(self) -> bool {
        &&& self.length == self.data.len()
        &&& self.data.len() <= MAXIMUM_LENGTH
        &&& self.chunk_type.len() == 4
        &&& self.crc == crc32_of(self.chunk_type + self.data)
    }

    /// The wire form: big-endian length, type bytes, data, big-endian checksum.
    pub open spec fn spec_serialize(self) -> Seq<u8> {
        be_of_u32(self.length) + self.chunk_type + self.data + be_of_u32(self.crc)
    }
}

/// A chunk record. Any value of this type is internally consistent: its
/// stored checksum always equals the checksum of its type and data.
#[derive(Debug)]
pub struct Chunk {
    length: u32,
    chunk_type: ChunkType,
    chunk_data: Vec<u8>,
    crc: u32,
}

impl View for Chunk {
    type V = ChunkView;

    closed spec fn view(&self) -> ChunkView {
        ChunkView {
            length: self.length,
            chunk_type: self.chunk_type@,
            data: self.chunk_data@,
            crc: self.crc,
        }
    }
}

impl Chunk {
    #[verifier::type_invariant]
    pub(crate) open spec fn type_inv(self) -> bool {
        self@.wf()
    }

    /// What decoding a byte stream yields: the record read from its front,
    /// or the first error the reads run into.
    pub open spec fn spec_decode(b: Seq<u8>) -> Result<ChunkView, ChunkDecodingError> {
        if b.len() < 12 {
            Err(ChunkDecodingError::InsufficientBytes)
        } else {
            let length = u32_of_be(b[0], b[1], b[2], b[3]);
            if length > MAXIMUM_LENGTH {
                Err(ChunkDecodingError::LengthTooLarge)
            } else if b.len() < 12 + length {
                Err(ChunkDecodingError::InsufficientBytes)
            } else {
                let chunk_type = b.subrange(4, 8);
                let data = b.subrange(8, 8 + length as int);
                let stored = u32_of_be(
                    b[8 + length as int],
                    b[9 + length as int],
                    b[10 + length as int],
                    b[11 + length as int],
                );
                let actual = crc32_of(chunk_type + data);
                if stored != actual {
                    Err(ChunkDecodingError::CrcMismatch { expected: stored, actual })
                } else {
                    Ok(ChunkView { length, chunk_type, data, crc: stored })
                }
            }
        }
    }

    /// Encodes a record: the length is the data's byte count and the checksum
    /// is computed over the type bytes followed by the data.
    pub fn new(chunk_type: ChunkType, chunk_data: Vec<u8>) -> (c: Chunk)
        requires
            chunk_data@.len() <= MAXIMUM_LENGTH,
        ensures
            c@.chunk_type == chunk_type@,
            c@.data == chunk_data@,
            c@.length == chunk_data@.len(),
            c@.crc == crc32_of(chunk_type@ + chunk_data@),
            c@.wf(),
    {
        let mut covered: Vec<u8> = Vec::new();
        let tb = chunk_type.bytes();
        covered.push(tb[0]);
        covered.push(tb[1]);
        covered.push(tb[2]);
        covered.push(tb[3]);
        covered.extend_from_slice(chunk_data.as_slice());
        proof {
            assert(covered@ =~= chunk_type@ + chunk_data@);
        }
        let crc = crc32(covered.as_slice());
        let length = chunk_data.len() as u32;
        Chunk { length, chunk_type, chunk_data, crc }
    }

    /// The byte count of the data field.
    pub fn length(&self) -> (r: u32)
        ensures
            r == self@.length,
            r == self@.data.len(),
    {
        proof {
            use_type_invariant(self);
        }
        self.length
    }

    /// The record's type code.
    pub fn chunk_type(&self) -> (r: &ChunkType)
        ensures
            r@ == self@.chunk_type,
    {
        &self.chunk_type
    }

    /// The raw data bytes.
    pub fn data(&self) -> (r: &[u8])
        ensures
            r@ == self@.data,
    {
        self.chunk_data.as_slice()
    }

    /// The stored checksum; always the checksum of type and data.
    pub fn crc(&self) -> (r: u32)
        ensures
            r == self@.crc,
            r == crc32_of(self@.chunk_type + self@.data),
    {
        proof {
            use_type_invariant(self);
        }
        self.crc
    }

    /// Interprets the data as UTF-8 text; fails exactly when it is not.
    pub fn data_as_string(&self) -> (r: Result<String, ChunkDecodingError>)
        ensures
            match r {
                Ok(s) => valid_utf8(self@.data) && s@ == decode_utf8(self@.data),
                Err(e) => e == ChunkDecodingError::InvalidUtf8 && !valid_utf8(self@.data),
            },
    {
        match string_from_utf8(&self.chunk_data) {
            Some(s) => Ok(s),
            None => Err(ChunkDecodingError::InvalidUtf8),
        }
    }

    /// Serializes the record to its wire form.
    pub fn as_bytes(&self) -> (r: Vec<u8>)
        ensures
            r@ == self@.spec_serialize(),
    {
        let mut r: Vec<u8> = Vec::new();
        push_u32_be(&mut r, self.length);
        let tb = self.chunk_type.bytes();
        r.push(tb[0]);
        r.push(tb[1]);
        r.push(tb[2]);
        r.push(tb[3]);
        r.extend_from_slice(self.chunk_data.as_slice());
        push_u32_be(&mut r, self.crc);
        proof {
            assert(r@ =~= self@.spec_serialize());
        }
        r
    }

    /// Decodes one record from the front of the byte stream; bytes beyond the
    /// record's frame are ignored. All-or-nothing: on any error no record is
    /// returned, and a returned record is fully populated and consistent.
    pub fn decode(bytes: &[u8]) -> (r: Result<Chunk, ChunkDecodingError>)
        ensures
            match r {
                Ok(c) => Self::spec_decode(bytes@) == Ok::<ChunkView, ChunkDecodingError>(c@) && c@.wf(),
                Err(e) => Self::spec_decode(bytes@) == Err::<ChunkView, ChunkDecodingError>(e),
            },
    {
        if bytes.len() < 12 {
            return Err(ChunkDecodingError::InsufficientBytes);
        }
        let length = read_u32_be(bytes, 0);
        if length > MAXIMUM_LENGTH {
            return Err(ChunkDecodingError::LengthTooLarge);
        }
        let length_us = length as usize;
        if bytes.len() - 12 < length_us {
            return Err(ChunkDecodingError::InsufficientBytes);
        }
        let chunk_type = ChunkType::new(&[bytes[4], bytes[5], bytes[6], bytes[7]]);
        let chunk_data = slice_to_vec(slice_subrange(bytes, 8, 8 + length_us));
        let stored = read_u32_be(bytes, 8 + length_us);
        let covered = slice_subrange(bytes, 4, 8 + length_us);
        let actual = crc32(covered);
        proof {
            assert(chunk_type@ =~= bytes@.subrange(4, 8));
            assert(covered@ =~= chunk_type@ + chunk_data@);
            assert(covered@ =~= bytes@.subrange(4, 8) + bytes@.subrange(8, 8 + length_us as int));
        }
        if stored != actual {
            return Err(ChunkDecodingError::CrcMismatch { expected: stored, actual });
        }
        let c = Chunk { length, chunk_type, chunk_data, crc: stored };
        Ok(c)
    }
}

/// Relies on `String::from_utf8`: succeeds exactly on valid UTF-8 bytes,
/// returning their decoded text.
#[verifier::external_body]
fn string_from_utf8(v: &Vec<u8>) -> (r: Option<String>)
    ensures
        match r {
            Some(s) => valid_utf8(v@) && s@ == decode_utf8(v@),
            None => !valid_utf8(v@),
        },
{
    String::from_utf8(v.clone()).ok()
}

/// Round trip for the encoder: for every 4-byte type and every data up to
/// the permitted maximum length, decoding the serialized form of the record
/// the encoder builds yields exactly that record: same type, data and
/// checksum.
pub proof fn lemma_encode_round_trip(chunk_type: Seq<u8>, data: Seq<u8>)
    requires
        chunk_type.len() == 4,
        data.len() <= MAXIMUM_LENGTH,
    ensures
        ({
            let c = ChunkView {
                length: data.len() as u32,
                chunk_type,
                data,
                crc: crc32_of(chunk_type + data),
            };
            Chunk::spec_decode(c.spec_serialize()) == Ok::<ChunkView, ChunkDecodingError>(c)
        }),
{
    let c = ChunkView {
        length: data.len() as u32,
        chunk_type,
        data,
        crc: crc32_of(chunk_type + data),
    };
    lemma_decode_serialize(c, Seq::empty());
    assert(c.spec_serialize() + Seq::<u8>::empty() =~= c.spec_serialize());
}

/// Corruption detection: a frame carrying a consistent record's length and
/// stored checksum, but whose type or data bytes were changed so that their
/// checksum differs from the stored one, is rejected with exactly
/// `CrcMismatch`. A flipped bit in the type or data field is therefore
/// caught whenever it changes the computed checksum.
pub proof fn lemma_crc_detects_corruption(c: ChunkView, chunk_type: Seq<u8>, data: Seq<u8>)
    requires
        c.wf(),
        chunk_type.len() == 4,
        data.len() == c.data.len(),
        crc32_of(chunk_type + data) != c.crc,
    ensures
        ({
            let b = be_of_u32(c.length) + chunk_type + data + be_of_u32(c.crc);
            Chunk::spec_decode(b) == Err::<ChunkView, ChunkDecodingError>(
                ChunkDecodingError::CrcMismatch {
                    expected: c.crc,
                    actual: crc32_of(chunk_type + data),
                },
            )
        }),
{
    let b = be_of_u32(c.length) + chunk_type + data + be_of_u32(c.crc);
    let n = data.len() as int;
    assert(b.len() == 12 + n);
    assert(b.subrange(0, 4) =~= be_of_u32(c.length));
    assert(b.subrange(8 + n, 12 + n) =~= be_of_u32(c.crc));
    crate::wire::lemma_be_of_u32_parts(c.length, b, 0);
    crate::wire::lemma_be_of_u32_parts(c.crc, b, 8 + n);
    assert(b.subrange(4, 8) =~= chunk_type);
    assert(b.subrange(8, 8 + n) =~= data);
}

/// Round trip: decoding the serialized form of any consistent record yields
/// exactly that record again, for every type and every data up to the
/// permitted maximum length. Equivalently, with any trailing bytes appended,
/// decoding still yields the record, since decode reads only its frame.
pub proof fn lemma_decode_serialize(c: ChunkView, suffix: Seq<u8>)
    requires
        c.wf(),
    ensures
        Chunk::spec_decode(c.spec_serialize() + suffix) == Ok::<ChunkView, ChunkDecodingError>(c),
{
    let b = c.spec_serialize() + suffix;
    let n = c.data.len() as int;
    assert(b.len() == 12 + n + suffix.len());
    assert(b.subrange(0, 4) =~= be_of_u32(c.length));
    assert(b.subrange(8 + n, 12 + n) =~= be_of_u32(c.crc));
    crate::wire::lemma_be_of_u32_parts(c.length, b, 0);
    crate::wire::lemma_be_of_u32_parts(c.crc, b, 8 + n);
    assert(b.subrange(4, 8) =~= c.chunk_type);
    assert(b.subrange(8, 8 + n) =~= c.data);
}

} // verus!
