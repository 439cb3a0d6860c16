//! The container: the fixed signature followed by an ordered sequence of
//! chunk records, with lookup, append and removal by type text.

use vstd::prelude::*;
use vstd::slice::slice_subrange;
use crate::chunk::{Chunk, ChunkView, ChunkDecodingError};
use crate::chunk_type::matches_type_text;

verus! {

/// Why a byte stream failed to parse as a container, or a lookup failed.
#[derive(Debug, PartialEq, Eq, Structural)]
pub enum PngError {
    /// The stream does not begin with the fixed 8-byte signature.
    BadSignature,
    /// A record failed to decode; the whole parse is abandoned.
    InvalidChunk(ChunkDecodingError),
    /// No record of the requested type exists.
    ChunkNotFound,
}

/// The fixed 8-byte signature that opens every container stream.
pub open spec fn spec_signature() -> Seq<u8> {
    seq![0x89u8, 0x50u8, 0x4eu8, 0x47u8, 0x0du8, 0x0au8, 0x1au8, 0x0au8]
}

/// The serialization of a sequence of records, in order.
pub open spec fn chunks_serialize(cs: Seq<ChunkView>) -> Seq<u8>
    decreases cs.len(),
{
    if cs.len() == 0 {
        Seq::empty()
    } else {
        cs[0].spec_serialize() + chunks_serialize(cs.drop_first())
    }
}

/// What parsing the bytes after the signature yields: records decoded
/// strictly in sequence, each consuming exactly its frame, until the bytes
/// are exhausted exactly; or the first decoding error.
pub open spec fn spec_parse_chunks(b: Seq<u8>) -> Result<Seq<ChunkView>, ChunkDecodingError>
    decreases b.len(),
{
    if b.len() == 0 {
        Ok(Seq::empty())
    } else {
        match Chunk::spec_decode(b) {
            Err(e) => Err(e),
            Ok(c) => match spec_parse_chunks(
                b.subrange(12 + c.data.len() as int, b.len() as int),
            ) {
                Err(e) => Err(e),
                Ok(rest) => Ok(seq![c] + rest),
            },
        }
    }
}

/// The index of the first record whose type renders as the given text, or
/// the sequence's length when none does.
pub open spec fn first_match(cs: Seq<ChunkView>, t: Seq<char>) -> int
    decreases cs.len(),
{
    if cs.len() == 0 {
        0
    } else if matches_type_text(t, cs[0].chunk_type) {
        0
    } else {
        1 + first_match(cs.drop_first(), t)
    }
}

/// The first match is the least matching index, and lies in range exactly
/// when some record matches.
pub proof fn lemma_first_match(cs: Seq<ChunkView>, t: Seq<char>)
    ensures
        0 <= first_match(cs, t) <= cs.len(),
        first_match(cs, t) < cs.len() ==> matches_type_text(
            t,
            cs[first_match(cs, t)].chunk_type,
        ),
        forall|j: int|
            0 <= j < first_match(cs, t) ==> !matches_type_text(
                t,
                (#[trigger] cs[j]).chunk_type,
            ),
    decreases cs.len(),
{
    if cs.len() > 0 && !matches_type_text(t, cs[0].chunk_type) {
        lemma_first_match(cs.drop_first(), t);
        assert forall|j: int| 0 <= j < first_match(cs, t) implies !matches_type_text(
            t,
            (#[trigger] cs[j]).chunk_type,
        ) by {
            if j > 0 {
                assert(cs.drop_first()[j - 1] == cs[j]);
            }
        }
    }
}

/// The container: any value of this type holds only internally consistent
/// records.
#[derive(Debug)]
pub struct Png {
    chunks: Vec<Chunk>,
}

impl View for Png {
    type V = Seq<ChunkView>;

    closed spec fn view(&self) -> Seq<ChunkView> {
        self.chunks@.map(|i: int, c: Chunk| c@)
    }
}

impl Png {
    #[verifier::type_invariant]
    spec fn type_inv(self) -> bool {
        forall|i: int| 0 <= i < self@.len() ==> (#[trigger] self@[i]).wf()
    }

    /// A container holding only the signature: no records yet.
    pub fn new() -> (r: Png)
        ensures
            r@ == Seq::<ChunkView>::empty(),
    {
        let r = Png { chunks: Vec::new() };
        proof {
            assert(r@ =~= Seq::<ChunkView>::empty());
        }
        r
    }

    /// Parses a byte stream: the fixed signature, then records decoded
    /// strictly in sequence until the bytes are exhausted exactly. Any
    /// failure aborts the whole parse; no partial container is returned.
    pub fn parse(bytes: &[u8]) -> (r: Result<Png, PngError>)
        ensures
            match r {
                Ok(p) => bytes@.len() >= 8 && bytes@.subrange(0, 8) == spec_signature()
                    && spec_parse_chunks(bytes@.skip(8)) == Ok::<
                    Seq<ChunkView>,
                    ChunkDecodingError,
                >(p@),
                Err(PngError::BadSignature) => bytes@.len() < 8 || bytes@.subrange(0, 8)
                    != spec_signature(),
                Err(PngError::InvalidChunk(e)) => bytes@.len() >= 8 && bytes@.subrange(0, 8)
                    == spec_signature() && spec_parse_chunks(bytes@.skip(8)) == Err::<
                    Seq<ChunkView>,
                    ChunkDecodingError,
                >(e),
                Err(PngError::ChunkNotFound) => false,
            },
    {
        if bytes.len() < 8 {
            return Err(PngError::BadSignature);
        }
        let sig_ok = bytes[0] == 0x89 && bytes[1] == 0x50 && bytes[2] == 0x4e && bytes[3] == 0x47
            && bytes[4] == 0x0d && bytes[5] == 0x0a && bytes[6] == 0x1a && bytes[7] == 0x0a;
        if !sig_ok {
            proof {
                assert(bytes@.subrange(0, 8) != spec_signature());
            }
            return Err(PngError::BadSignature);
        }
        proof {
            assert(bytes@.subrange(0, 8) =~= spec_signature());
        }
        let mut chunks: Vec<Chunk> = Vec::new();
        let mut offset: usize = 8;
        while offset < bytes.len()
            invariant
                8 <= offset <= bytes@.len(),
                bytes@.subrange(0, 8) == spec_signature(),
                forall|i: int| 0 <= i < chunks@.len() ==> (#[trigger] chunks@[i]@).wf(),
                (match spec_parse_chunks(bytes@.skip(offset as int)) {
                    Ok(rest) => spec_parse_chunks(bytes@.skip(8)) == Ok::<
                        Seq<ChunkView>,
                        ChunkDecodingError,
                    >(chunks@.map(|i: int, c: Chunk| c@) + rest),
                    Err(e) => spec_parse_chunks(bytes@.skip(8)) == Err::<
                        Seq<ChunkView>,
                        ChunkDecodingError,
                    >(e),
                }),
            decreases bytes@.len() - offset,
        {
            let tail = slice_subrange(bytes, offset, bytes.len());
            match Chunk::decode(tail) {
                Err(e) => {
                    proof {
                        assert(bytes@.skip(offset as int) =~= tail@);
                        assert(tail@.len() > 0);
                        assert(Chunk::spec_decode(tail@) == Err::<ChunkView, ChunkDecodingError>(
                            e,
                        ));
                        assert(spec_parse_chunks(tail@) == Err::<
                            Seq<ChunkView>,
                            ChunkDecodingError,
                        >(e));
                    }
                    return Err(PngError::InvalidChunk(e));
                },
                Ok(c) => {
                    let ghost prev = chunks@.map(|i: int, cc: Chunk| cc@);
                    let consumed = 12 + c.length() as usize;
                    proof {
                        assert(bytes@.skip(offset as int) =~= tail@);
                        assert(tail@.len() >= 12 + c@.data.len());
                    }
                    chunks.push(c);
                    offset = offset + consumed;
                    proof {
                        assert(bytes@.skip(offset as int) =~= tail@.subrange(
                            12 + c@.data.len() as int,
                            tail@.len() as int,
                        ));
                        assert(chunks@.map(|i: int, cc: Chunk| cc@) =~= prev.push(c@));
                        if spec_parse_chunks(bytes@.skip(offset as int)) is Ok {
                            let rest = spec_parse_chunks(bytes@.skip(offset as int))->Ok_0;
                            assert(spec_parse_chunks(tail@) == Ok::<
                                Seq<ChunkView>,
                                ChunkDecodingError,
                            >(seq![c@] + rest));
                            assert(prev + (seq![c@] + rest) =~= prev.push(c@) + rest);
                        }
                    }
                },
            }
        }
        let p = Png { chunks };
        proof {
            assert(bytes@.skip(offset as int) =~= Seq::<u8>::empty());
        }
        Ok(p)
    }

    /// Serializes: the signature followed by each record's wire form, in
    /// stored order.
    pub fn as_bytes(&self) -> (r: Vec<u8>)
        ensures
            r@ == spec_signature() + chunks_serialize(self@),
    {
        let mut r: Vec<u8> = Vec::new();
        r.push(0x89);
        r.push(0x50);
        r.push(0x4e);
        r.push(0x47);
        r.push(0x0d);
        r.push(0x0a);
        r.push(0x1a);
        r.push(0x0a);
        proof {
            assert(r@ =~= spec_signature());
        }
        let mut i: usize = 0;
        while i < self.chunks.len()
            invariant
                0 <= i <= self.chunks@.len(),
                r@ == spec_signature() + chunks_serialize(self@.take(i as int)),
            decreases self.chunks@.len() - i,
        {
            let cb = self.chunks[i].as_bytes();
            r.extend_from_slice(cb.as_slice());
            i = i + 1;
            proof {
                assert(self@.take(i as int).drop_last() =~= self@.take(i as int - 1));
                lemma_chunks_serialize_push(self@.take(i as int - 1), self@[i as int - 1]);
                assert(self@.take(i as int) =~= self@.take(i as int - 1).push(self@[i as int - 1]));
            }
        }
        proof {
            assert(self@.take(i as int) =~= self@);
        }
        r
    }

    /// Appends the record at the end of the sequence.
    pub fn append_chunk(&mut self, chunk: Chunk)
        ensures
            final(self)@ == old(self)@.push(chunk@),
    {
        proof {
            use_type_invariant(&*self);
            use_type_invariant(&chunk);
        }
        let mut v: Vec<Chunk> = Vec::new();
        core::mem::swap(&mut v, &mut self.chunks);
        v.push(chunk);
        proof {
            let nv = v@.map(|i: int, c: Chunk| c@);
            assert(nv =~= old(self)@.push(chunk@));
            assert forall|k: int| 0 <= k < nv.len() implies (#[trigger] nv[k]).wf() by {
                if k < old(self)@.len() {
                    assert(nv[k] == old(self)@[k]);
                } else {
                    assert(nv[k] == chunk@);
                }
            }
        }
        core::mem::swap(&mut v, &mut self.chunks);
        proof {
            assert(self@ =~= old(self)@.push(chunk@));
        }
    }

    /// Returns the first record, in stream order, whose type renders as the
    /// given text; fails when none does.
    pub fn chunk_by_type(&self, type_text: &str) -> (r: Result<&Chunk, PngError>)
        ensures
            match r {
                Ok(c) => first_match(self@, type_text@) < self@.len() && c@ == self@[first_match(
                    self@,
                    type_text@,
                )],
                Err(e) => e == PngError::ChunkNotFound && first_match(self@, type_text@)
                    == self@.len(),
            },
    {
        let mut i: usize = 0;
        while i < self.chunks.len()
            invariant
                0 <= i <= self.chunks@.len(),
                forall|j: int|
                    0 <= j < i ==> !matches_type_text(
                        type_text@,
                        (#[trigger] self@[j]).chunk_type,
                    ),
            decreases self.chunks@.len() - i,
        {
            if self.chunks[i].chunk_type().matches_text(type_text) {
                proof {
                    assert(self@[i as int] == self.chunks@[i as int]@);
                    assert(matches_type_text(type_text@, self@[i as int].chunk_type));
                    lemma_first_match(self@, type_text@);
                    let fm = first_match(self@, type_text@);
                    if fm < i as int {
                        assert(matches_type_text(type_text@, self@[fm].chunk_type));
                        assert(false);
                    }
                    if fm > i as int {
                        assert(!matches_type_text(type_text@, self@[i as int].chunk_type));
                        assert(false);
                    }
                }
                return Ok(&self.chunks[i]);
            }
            i = i + 1;
        }
        proof {
            lemma_first_match(self@, type_text@);
        }
        Err(PngError::ChunkNotFound)
    }

    /// Removes the single first record, in stream order, whose type renders
    /// as the given text; fails, changing nothing, when none does. Never
    /// removes more than one record.
    pub fn remove_chunk(&mut self, type_text: &str) -> (r: Result<(), PngError>)
        ensures
            ({
                let i = first_match(old(self)@, type_text@);
                match r {
                    Ok(_) => i < old(self)@.len() && final(self)@ == old(self)@.remove(i),
                    Err(e) => e == PngError::ChunkNotFound && i == old(self)@.len() && final(self)@
                        == old(self)@,
                }
            }),
    {
        let mut i: usize = 0;
        while i < self.chunks.len()
            invariant
                0 <= i <= self.chunks@.len(),
                self.chunks@ == old(self).chunks@,
                self@ == old(self)@,
                forall|j: int|
                    0 <= j < i ==> !matches_type_text(
                        type_text@,
                        (#[trigger] self@[j]).chunk_type,
                    ),
            decreases self.chunks@.len() - i,
        {
            if self.chunks[i].chunk_type().matches_text(type_text) {
                proof {
                    use_type_invariant(&*self);
                    assert(self@[i as int] == self.chunks@[i as int]@);
                    assert(matches_type_text(type_text@, self@[i as int].chunk_type));
                    lemma_first_match(self@, type_text@);
                    let fm = first_match(self@, type_text@);
                    if fm < i as int {
                        assert(matches_type_text(type_text@, self@[fm].chunk_type));
                        assert(false);
                    }
                    if fm > i as int {
                        assert(!matches_type_text(type_text@, self@[i as int].chunk_type));
                        assert(false);
                    }
                }
                let mut v: Vec<Chunk> = Vec::new();
                core::mem::swap(&mut v, &mut self.chunks);
                v.remove(i);
                proof {
                    let nv = v@.map(|i: int, c: Chunk| c@);
                    assert(nv =~= old(self)@.remove(i as int));
                    assert forall|k: int| 0 <= k < nv.len() implies (#[trigger] nv[k]).wf() by {
                        if k < i as int {
                            assert(nv[k] == old(self)@[k]);
                        } else {
                            assert(nv[k] == old(self)@[k + 1]);
                        }
                    }
                }
                core::mem::swap(&mut v, &mut self.chunks);
                proof {
                    assert(self@ =~= old(self)@.remove(i as int));
                }
                return Ok(());
            }
            i = i + 1;
        }
        proof {
            lemma_first_match(self@, type_text@);
        }
        Err(PngError::ChunkNotFound)
    }

    /// The records, in stream order, read-only.
    pub fn chunks(&self) -> (r: &[Chunk])
        ensures
            r@.len() == self@.len(),
            forall|i: int| 0 <= i < r@.len() ==> (#[trigger] r@[i])@ == self@[i],
    {
        self.chunks.as_slice()
    }
}

/// Serializing one more record appends its wire form.
proof fn lemma_chunks_serialize_push(cs: Seq<ChunkView>, c: ChunkView)
    ensures
        chunks_serialize(cs.push(c)) == chunks_serialize(cs) + c.spec_serialize(),
    decreases cs.len(),
{
    if cs.len() == 0 {
        assert(cs.push(c)[0] == c);
        assert(cs.push(c).drop_first() =~= Seq::<ChunkView>::empty());
        assert(chunks_serialize(Seq::<ChunkView>::empty()) == Seq::<u8>::empty());
        assert(chunks_serialize(cs.push(c)) == c.spec_serialize() + Seq::<u8>::empty());
        assert(chunks_serialize(cs) == Seq::<u8>::empty());
        assert(c.spec_serialize() + Seq::<u8>::empty() =~= Seq::<u8>::empty()
            + c.spec_serialize());
    } else {
        assert(cs.push(c).drop_first() =~= cs.drop_first().push(c));
        lemma_chunks_serialize_push(cs.drop_first(), c);
        assert(cs.push(c)[0] == cs[0]);
        assert(chunks_serialize(cs.push(c)) == cs[0].spec_serialize() + (chunks_serialize(
            cs.drop_first(),
        ) + c.spec_serialize()));
        assert(cs[0].spec_serialize() + (chunks_serialize(cs.drop_first())
            + c.spec_serialize()) =~= (cs[0].spec_serialize() + chunks_serialize(
            cs.drop_first(),
        )) + c.spec_serialize());
    }
}

/// Container round trip: parsing the serialization of any sequence of
/// internally consistent records yields exactly that sequence again. In
/// particular, a container built by a successful parse serializes to bytes
/// that parse back to the same records.
/// Unfolding step of `spec_parse_chunks`: a stream that decodes to one
/// record, whose remainder parses to a sequence, parses to the record
/// followed by that sequence.
proof fn lemma_parse_chunks_cons(b: Seq<u8>, c: ChunkView, views: Seq<ChunkView>)
    requires
        b.len() > 0,
        Chunk::spec_decode(b) == Ok::<ChunkView, ChunkDecodingError>(c),
        spec_parse_chunks(b.subrange(12 + c.data.len() as int, b.len() as int)) == Ok::<
            Seq<ChunkView>,
            ChunkDecodingError,
        >(views),
    ensures
        spec_parse_chunks(b) == Ok::<Seq<ChunkView>, ChunkDecodingError>(seq![c] + views),
{
}

/// The bytes after a concatenation's first part are its second part.
proof fn lemma_concat_skip(a: Seq<u8>, rest: Seq<u8>)
    ensures
        (a + rest).subrange(a.len() as int, (a + rest).len() as int) == rest,
{
    assert((a + rest).subrange(a.len() as int, (a + rest).len() as int) =~= rest);
}

#[verifier::rlimit(100)]
#[verifier::spinoff_prover]
pub proof fn lemma_parse_chunks_serialize(cs: Seq<ChunkView>)
    requires
        forall|i: int| 0 <= i < cs.len() ==> (#[trigger] cs[i]).wf(),
    ensures
        spec_parse_chunks(chunks_serialize(cs)) == Ok::<Seq<ChunkView>, ChunkDecodingError>(cs),
    decreases cs.len(),
{
    if cs.len() == 0 {
        assert(cs =~= Seq::<ChunkView>::empty());
        assert(chunks_serialize(cs) == Seq::<u8>::empty());
    } else {
        let c = cs[0];
        let rest = chunks_serialize(cs.drop_first());
        let b = c.spec_serialize() + rest;
        assert(chunks_serialize(cs) == b);
        crate::chunk::lemma_decode_serialize(c, rest);
        lemma_concat_skip(c.spec_serialize(), rest);
        assert(c.spec_serialize().len() == 12 + c.data.len());
        assert(b.subrange(12 + c.data.len() as int, b.len() as int) == rest);
        assert forall|i: int|
            0 <= i < cs.drop_first().len() implies (#[trigger] cs.drop_first()[i]).wf() by {
            assert(cs.drop_first()[i] == cs[i + 1]);
        }
        lemma_parse_chunks_serialize(cs.drop_first());
        assert(spec_parse_chunks(b.subrange(12 + c.data.len() as int, b.len() as int)) == Ok::<
            Seq<ChunkView>,
            ChunkDecodingError,
        >(cs.drop_first()));
        lemma_parse_chunks_cons(b, c, cs.drop_first());
        assert(seq![c] + cs.drop_first() =~= cs);
    }
}

/// With two records of the same type, one removal of that type keeps the
/// later one: the first match lies at or before the earlier record, and
/// after removing it the later record remains, one position earlier.
pub proof fn lemma_remove_keeps_second(cs: Seq<ChunkView>, t: Seq<char>, i: int, j: int)
    requires
        0 <= i < j < cs.len(),
        matches_type_text(t, cs[i].chunk_type),
        matches_type_text(t, cs[j].chunk_type),
    ensures
        first_match(cs, t) <= i,
        cs.remove(first_match(cs, t))[j - 1] == cs[j],
{
    lemma_first_match(cs, t);
}

/// Appending one record to a container holding only the signature yields a
/// container whose sole record is the appended one.
pub proof fn lemma_append_to_empty(cs: Seq<ChunkView>, c: ChunkView)
    requires
        cs.len() == 0,
    ensures
        cs.push(c) =~= seq![c],
{
}

} // verus!
