//! The PNG container: the fixed 8-byte file signature followed by an
//! ordered sequence of chunks. Parsing consumes chunk records until the
//! buffer is exhausted; serialization writes them back in order.

use vstd::prelude::*;
use vstd::slice::slice_subrange;
use vstd::utf8::encode_utf8;

use crate::chunk::{
    spec_chunk_bytes, spec_chunk_size, spec_parse_chunk, Chunk, ChunkModel,
};
use crate::chunk_type::{spec_type_bytes_of_text, spec_valid_type_text, ChunkType};
use crate::error::PngError;

verus! {

broadcast use crate::chunk_type::lemma_chunk_type_len;

/// The fixed 8-byte file signature.
pub open spec fn spec_signature() -> Seq<u8> {
    seq![0x89u8, 0x50u8, 0x4eu8, 0x47u8, 0x0du8, 0x0au8, 0x1au8, 0x0au8]
}

/// The chunk records of `cs`, serialized in order.
pub open spec fn spec_chunks_bytes(cs: Seq<ChunkModel>) -> Seq<u8>
    decreases cs.len(),
{
    if cs.len() == 0 {
        Seq::empty()
    } else {
        spec_chunk_bytes(cs[0]) + spec_chunks_bytes(cs.drop_first())
    }
}

/// The serialized container: signature, then each chunk record.
pub open spec fn spec_png_bytes(cs: Seq<ChunkModel>) -> Seq<u8> {
    spec_signature() + spec_chunks_bytes(cs)
}

/// Parsing consecutive chunk records until `s` is exhausted; the end of
/// the buffer is the only termination signal. The first malformed
/// record fails the whole parse.
pub open spec fn spec_parse_chunks(s: Seq<u8>) -> Result<Seq<ChunkModel>, PngError>
    decreases s.len(),
{
    if s.len() == 0 {
        Ok(Seq::empty())
    } else {
        match spec_parse_chunk(s) {
            Err(e) => Err(e),
            Ok(m) => match spec_parse_chunks(s.skip(spec_chunk_size(m))) {
                Err(e) => Err(e),
                Ok(rest) => Ok(seq![m] + rest),
            },
        }
    }
}

/// Parsing a whole file: fails with `InvalidSignature` unless the
/// buffer starts with the 8-byte signature, then parses chunk records
/// to the end of the buffer.
pub open spec fn spec_parse_png(s: Seq<u8>) -> Result<Seq<ChunkModel>, PngError> {
    if s.len() < 8 || s.subrange(0, 8) != spec_signature() {
        Err(PngError::InvalidSignature)
    } else {
        spec_parse_chunks(s.skip(8))
    }
}

/// Chunk model `m` carries tag text `t`.
pub open spec fn spec_matches(m: ChunkModel, t: Seq<char>) -> bool {
    m.type_bytes == encode_utf8(t)
}

/// Some chunk in `cs` carries tag text `t`.
pub open spec fn spec_has_type(cs: Seq<ChunkModel>, t: Seq<char>) -> bool {
    exists|i: int| 0 <= i < cs.len() && spec_matches(#[trigger] cs[i], t)
}

/// `i` is the first position in `cs` whose chunk carries tag text `t`.
pub open spec fn spec_is_first_match(cs: Seq<ChunkModel>, t: Seq<char>, i: int) -> bool {
    &&& 0 <= i < cs.len()
    &&& spec_matches(cs[i], t)
    &&& forall|j: int| 0 <= j < i ==> !spec_matches(#[trigger] cs[j], t)
}

/// The first position in `cs` whose chunk carries tag text `t`.
pub open spec fn spec_first_match(cs: Seq<ChunkModel>, t: Seq<char>) -> int {
    choose|i: int| spec_is_first_match(cs, t, i)
}

/// A first match position is unique, so it is the chosen one.
pub proof fn lemma_first_match_unique(cs: Seq<ChunkModel>, t: Seq<char>, i: int)
    requires
        spec_is_first_match(cs, t, i),
    ensures
        spec_first_match(cs, t) == i,
        spec_has_type(cs, t),
{
    assert(spec_has_type(cs, t));
    let j = spec_first_match(cs, t);
    assert(spec_is_first_match(cs, t, j));
    if j < i {
        assert(spec_matches(cs[j], t));
        assert(false);
    } else if i < j {
        assert(spec_matches(cs[i], t));
        assert(false);
    }
}

/// An in-memory PNG file: its ordered chunks. The signature is fixed,
/// so only the chunks are state.
pub struct PngContainer {
    chunks: Vec<Chunk>,
}

impl View for PngContainer {
    type V = Seq<ChunkModel>;

    closed spec fn view(&self) -> Seq<ChunkModel> {
        self.chunks@.map(|i: int, c: Chunk| c@)
    }
}

impl PngContainer {
    /// A well-formed container: every chunk is well-formed.
    pub open spec fn wf(&self) -> bool {
        forall|i: int| 0 <= i < self@.len() ==> (#[trigger] self@[i]).wf()
    }

    /// An empty container, holding the signature alone.
    pub fn new() -> (r: PngContainer)
        ensures
            r@ == Seq::<ChunkModel>::empty(),
            r.wf(),
    {
        let r = PngContainer { chunks: Vec::new() };
        proof {
            assert(r@ =~= Seq::<ChunkModel>::empty());
        }
        r
    }

    /// Parses a whole file, as [`spec_parse_png`] describes.
    pub fn from_bytes(buf: &[u8]) -> (r: Result<PngContainer, PngError>)
        ensures
            match spec_parse_png(buf@) {
                Ok(cs) => r matches Ok(p) && p@ == cs && p.wf(),
                Err(e) => r matches Err(e2) && e2 == e,
            },
    {
        if buf.len() < 8 {
            return Err(PngError::InvalidSignature);
        }
        if buf[0] != 0x89 || buf[1] != 0x50 || buf[2] != 0x4e || buf[3] != 0x47 || buf[4] != 0x0d
            || buf[5] != 0x0a || buf[6] != 0x1a || buf[7] != 0x0a {
            proof {
                assert(buf@.subrange(0, 8) != spec_signature());
            }
            return Err(PngError::InvalidSignature);
        }
        proof {
            assert(buf@.subrange(0, 8) =~= spec_signature());
        }
        let mut chunks: Vec<Chunk> = Vec::new();
        let mut off: usize = 8;
        while off < buf.len()
            invariant
                8 <= off <= buf@.len(),
                buf@.subrange(0, 8) == spec_signature(),
                forall|i: int| 0 <= i < chunks@.len() ==> (#[trigger] chunks@[i])@.wf(),
                spec_parse_chunks(buf@.skip(8)) == spec_prepend(
                    chunks@.map(|k: int, c: Chunk| c@),
                    spec_parse_chunks(buf@.skip(off as int)),
                ),
            decreases buf@.len() - off,
        {
            let ghost acc = chunks@.map(|k: int, c: Chunk| c@);
            let tail: &[u8] = slice_subrange(buf, off, buf.len());
            proof {
                assert(tail@ =~= buf@.skip(off as int));
            }
            match Chunk::from_bytes(tail) {
                Err(e) => {
                    proof {
                        assert(spec_parse_chunks(buf@.skip(off as int)) == Err::<
                            Seq<ChunkModel>,
                            PngError,
                        >(e));
                    }
                    return Err(e);
                },
                Ok(c) => {
                    let n: usize = 12 + c.data().len();
                    proof {
                        assert(spec_parse_chunk(tail@) == Ok::<ChunkModel, PngError>(c@));
                        assert(n == spec_chunk_size(c@));
                        assert(n <= tail@.len());
                        assert(buf@.skip(off as int).skip(n as int) =~= buf@.skip(
                            off as int + n as int,
                        ));
                        assert(spec_parse_chunks(buf@.skip(off as int)) == spec_prepend(
                            seq![c@],
                            spec_parse_chunks(buf@.skip(off as int + n as int)),
                        ));
                        lemma_prepend_assoc(
                            acc,
                            c@,
                            spec_parse_chunks(buf@.skip(off as int + n as int)),
                        );
                        assert(chunks@.push(c).map(|k: int, cc: Chunk| cc@) =~= acc.push(c@));
                    }
                    chunks.push(c);
                    off = off + n;
                },
            }
        }
        let r = PngContainer { chunks };
        proof {
            assert(buf@.skip(off as int) =~= Seq::<u8>::empty());
            assert(spec_parse_chunks(buf@.skip(off as int)) == Ok::<Seq<ChunkModel>, PngError>(
                Seq::empty(),
            ));
            assert(r@ + Seq::<ChunkModel>::empty() =~= r@);
        }
        Ok(r)
    }

    /// Serializes the container: the signature, then every chunk record
    /// in sequence order.
    pub fn as_bytes(&self) -> (r: Vec<u8>)
        requires
            self.wf(),
        ensures
            r@ == spec_png_bytes(self@),
    {
        let mut out: Vec<u8> = Vec::new();
        out.push(0x89);
        out.push(0x50);
        out.push(0x4e);
        out.push(0x47);
        out.push(0x0d);
        out.push(0x0a);
        out.push(0x1a);
        out.push(0x0a);
        proof {
            assert(out@ =~= spec_signature());
            assert(self@.take(0) =~= Seq::<ChunkModel>::empty());
        }
        let mut i: usize = 0;
        while i < self.chunks.len()
            invariant
                i <= self@.len(),
                self.wf(),
                out@ == spec_signature() + spec_chunks_bytes(self@.take(i as int)),
            decreases self@.len() - i,
        {
            proof {
                assert(self@[i as int] == self.chunks@[i as int]@);
                assert(self@[i as int].wf());
            }
            let mut cb: Vec<u8> = self.chunks[i].as_bytes();
            out.append(&mut cb);
            proof {
                lemma_chunks_bytes_push(self@.take(i as int), self@[i as int]);
                assert(self@.take(i as int).push(self@[i as int]) =~= self@.take(i as int + 1));
            }
            i = i + 1;
        }
        proof {
            assert(self@.take(i as int) =~= self@);
        }
        out
    }

    /// Adds `chunk` at the end. Types are not deduplicated: several
    /// chunks may share a tag, and lookup sees the first.
    pub fn append_chunk(&mut self, chunk: Chunk)
        requires
            old(self).wf(),
            chunk.wf(),
        ensures
            final(self)@ == old(self)@.push(chunk@),
            final(self).wf(),
    {
        self.chunks.push(chunk);
        proof {
            assert(self@ =~= old(self)@.push(chunk@));
        }
    }

    /// The position of the first chunk carrying tag text `target`, if
    /// any: a handle for in-place access.
    pub fn chunk_index_by_type(&self, target: &str) -> (r: Option<usize>)
        ensures
            match r {
                Some(i) => spec_is_first_match(self@, target@, i as int),
                None => !spec_has_type(self@, target@),
            },
    {
        let mut i: usize = 0;
        while i < self.chunks.len()
            invariant
                i <= self@.len(),
                forall|j: int| 0 <= j < i ==> !spec_matches(#[trigger] self@[j], target@),
            decreases self@.len() - i,
        {
            let ct: ChunkType = self.chunks[i].chunk_type();
            if type_matches(&ct, target) {
                return Some(i);
            }
            i = i + 1;
        }
        None
    }

    /// The first chunk carrying tag text `target`, if any.
    pub fn chunk_by_type(&self, target: &str) -> (r: Option<&Chunk>)
        ensures
            match r {
                Some(c) => spec_has_type(self@, target@) && c@ == self@[spec_first_match(
                    self@,
                    target@,
                )],
                None => !spec_has_type(self@, target@),
            },
    {
        match self.chunk_index_by_type(target) {
            Some(i) => {
                proof {
                    lemma_first_match_unique(self@, target@, i as int);
                }
                Some(&self.chunks[i])
            },
            None => None,
        }
    }

    /// Replaces the payload of the chunk at position `i`, in place: the
    /// change is visible to every later lookup and serialization.
    pub fn set_data_at(&mut self, i: usize, data: Vec<u8>)
        requires
            i < old(self)@.len(),
            data@.len() <= u32::MAX,
            old(self).wf(),
        ensures
            final(self)@ == old(self)@.update(
                i as int,
                ChunkModel { type_bytes: old(self)@[i as int].type_bytes, data: data@ },
            ),
            final(self).wf(),
    {
        let mut c: Chunk = self.chunks.remove(i);
        c.set_data(data);
        self.chunks.insert(i, c);
        proof {
            assert(self@ =~= old(self)@.update(
                i as int,
                ChunkModel { type_bytes: old(self)@[i as int].type_bytes, data: data@ },
            ));
        }
    }

    /// Removes the first chunk carrying tag text `target` and returns
    /// it; fails with `ChunkNotFound`, leaving the container unchanged,
    /// when no chunk carries it. All other chunks keep their relative
    /// order, so the count drops by exactly one on success.
    pub fn remove_chunk(&mut self, target: &str) -> (r: Result<Chunk, PngError>)
        ensures
            r is Ok <==> spec_has_type(old(self)@, target@),
            r matches Ok(c) ==> {
                let i = spec_first_match(old(self)@, target@);
                &&& spec_is_first_match(old(self)@, target@, i)
                &&& c@ == old(self)@[i]
                &&& final(self)@ == old(self)@.remove(i)
            },
            r matches Err(e) ==> e == PngError::ChunkNotFound && final(self)@ == old(self)@,
            old(self).wf() ==> final(self).wf(),
    {
        match self.chunk_index_by_type(target) {
            None => Err(PngError::ChunkNotFound),
            Some(i) => {
                proof {
                    lemma_first_match_unique(self@, target@, i as int);
                }
                let c: Chunk = self.chunks.remove(i);
                proof {
                    assert(self@ =~= old(self)@.remove(i as int));
                }
                Ok(c)
            },
        }
    }

    /// The chunks, read-only, in insertion order.
    pub fn chunks(&self) -> (r: &Vec<Chunk>)
        ensures
            r@.map(|i: int, c: Chunk| c@) == self@,
            r@.len() == self@.len(),
    {
        &self.chunks
    }
}

/// Appends a chunk built from tag text and a payload; fails with
/// `InvalidChunkType`, leaving the container unchanged, when the text
/// is not a valid tag.
pub fn append(png: &mut PngContainer, type_text: &str, payload: Vec<u8>) -> (r: Result<
    (),
    PngError,
>)
    requires
        old(png).wf(),
        payload@.len() <= u32::MAX,
    ensures
        r is Ok <==> spec_valid_type_text(type_text@),
        r is Ok ==> final(png)@ == old(png)@.push(
            ChunkModel { type_bytes: spec_type_bytes_of_text(type_text@), data: payload@ },
        ),
        r matches Err(e) ==> e == PngError::InvalidChunkType && final(png)@ == old(png)@,
        final(png).wf(),
{
    match ChunkType::from_str(type_text) {
        Ok(ct) => {
            png.append_chunk(Chunk::new(ct, payload));
            Ok(())
        },
        Err(_) => Err(PngError::InvalidChunkType),
    }
}

/// Removes the first chunk carrying tag text `type_text`; fails with
/// `ChunkNotFound` when none does.
pub fn remove(png: &mut PngContainer, type_text: &str) -> (r: Result<(), PngError>)
    ensures
        r is Ok <==> spec_has_type(old(png)@, type_text@),
        r is Ok ==> final(png)@ == old(png)@.remove(spec_first_match(old(png)@, type_text@)),
        r matches Err(e) ==> e == PngError::ChunkNotFound && final(png)@ == old(png)@,
        old(png).wf() ==> final(png).wf(),
{
    match png.remove_chunk(type_text) {
        Ok(_) => Ok(()),
        Err(e) => Err(e),
    }
}

/// Whether tag `ct` carries tag text `t`: its bytes are exactly the
/// UTF-8 encoding of `t`.
fn type_matches(ct: &ChunkType, t: &str) -> (r: bool)
    ensures
        r == (ct@ == encode_utf8(t@)),
{
    let tb: &[u8] = t.as_bytes();
    if tb.len() != 4 {
        return false;
    }
    let cb: [u8; 4] = ct.bytes();
    let r = cb[0] == tb[0] && cb[1] == tb[1] && cb[2] == tb[2] && cb[3] == tb[3];
    proof {
        if r {
            assert(ct@ =~= encode_utf8(t@));
        } else {
            assert(ct@ != encode_utf8(t@));
        }
    }
    r
}

/// Prepending already-parsed chunks to the result of parsing the rest.
pub open spec fn spec_prepend(
    acc: Seq<ChunkModel>,
    r: Result<Seq<ChunkModel>, PngError>,
) -> Result<Seq<ChunkModel>, PngError> {
    match r {
        Ok(cs) => Ok(acc + cs),
        Err(e) => Err(e),
    }
}

/// Moving one chunk from the head of the remainder into the
/// accumulator.
proof fn lemma_prepend_assoc(
    acc: Seq<ChunkModel>,
    m: ChunkModel,
    r: Result<Seq<ChunkModel>, PngError>,
)
    ensures
        spec_prepend(acc, spec_prepend(seq![m], r)) == spec_prepend(acc.push(m), r),
{
    match r {
        Ok(cs) => {
            assert(acc + (seq![m] + cs) =~= acc.push(m) + cs);
        },
        Err(_) => {},
    }
}

/// Serializing distributes over appending one chunk at the end.
pub proof fn lemma_chunks_bytes_push(cs: Seq<ChunkModel>, m: ChunkModel)
    ensures
        spec_chunks_bytes(cs.push(m)) == spec_chunks_bytes(cs) + spec_chunk_bytes(m),
    decreases cs.len(),
{
    if cs.len() == 0 {
        assert(cs.push(m).drop_first() =~= Seq::<ChunkModel>::empty());
        assert(cs.push(m)[0] == m);
        assert(spec_chunks_bytes(cs.push(m)) == spec_chunk_bytes(m) + spec_chunks_bytes(
            Seq::<ChunkModel>::empty(),
        ));
        assert(spec_chunk_bytes(m) + Seq::<u8>::empty() =~= spec_chunk_bytes(m));
        assert(Seq::<u8>::empty() + spec_chunk_bytes(m) =~= spec_chunk_bytes(m));
    } else {
        assert(cs.push(m).drop_first() =~= cs.drop_first().push(m));
        assert(cs.push(m)[0] == cs[0]);
        lemma_chunks_bytes_push(cs.drop_first(), m);
        assert(spec_chunk_bytes(cs[0]) + (spec_chunks_bytes(cs.drop_first()) + spec_chunk_bytes(m))
            =~= (spec_chunk_bytes(cs[0]) + spec_chunks_bytes(cs.drop_first())) + spec_chunk_bytes(
            m,
        ));
    }
}

/// Law: a container serializes to bytes that parse back to the same
/// chunk sequence, so serializing the reparsed container gives the same
/// bytes again.
pub proof fn lemma_container_round_trip(cs: Seq<ChunkModel>)
    requires
        forall|i: int| 0 <= i < cs.len() ==> (#[trigger] cs[i]).wf(),
    ensures
        spec_parse_png(spec_png_bytes(cs)) == Ok::<Seq<ChunkModel>, PngError>(cs),
{
    let s = spec_png_bytes(cs);
    assert(s.subrange(0, 8) =~= spec_signature());
    assert(s.skip(8) =~= spec_chunks_bytes(cs));
    lemma_parse_chunks_render(cs);
}

/// One step of reparsing rendered records: a serialized chunk in front
/// of bytes that parse to `rest` parses to that chunk followed by
/// `rest`.
#[verifier::rlimit(100)]
proof fn lemma_parse_chunks_step(m: ChunkModel, rest_bytes: Seq<u8>, rest: Seq<ChunkModel>)
    requires
        m.wf(),
        spec_parse_chunks(rest_bytes) == Ok::<Seq<ChunkModel>, PngError>(rest),
    ensures
        spec_parse_chunks(spec_chunk_bytes(m) + rest_bytes) == Ok::<Seq<ChunkModel>, PngError>(
            seq![m] + rest,
        ),
{
    let s = spec_chunk_bytes(m) + rest_bytes;
    crate::chunk::lemma_chunk_parse_prefix(m, rest_bytes);
    assert(spec_parse_chunk(s) == Ok::<ChunkModel, PngError>(m));
    assert(spec_chunk_bytes(m).len() == 12 + m.data.len());
    assert(s.len() >= 12);
    assert(s.skip(spec_chunk_size(m)) =~= rest_bytes);
}

/// Rendered chunk records parse back to the same chunk sequence.
#[verifier::rlimit(100)]
pub proof fn lemma_parse_chunks_render(cs: Seq<ChunkModel>)
    requires
        forall|i: int| 0 <= i < cs.len() ==> (#[trigger] cs[i]).wf(),
    ensures
        spec_parse_chunks(spec_chunks_bytes(cs)) == Ok::<Seq<ChunkModel>, PngError>(cs),
    decreases cs.len(),
{
    if cs.len() == 0 {
        assert(cs =~= Seq::<ChunkModel>::empty());
    } else {
        let m = cs[0];
        let rest = cs.drop_first();
        assert(cs[0].wf());
        assert(spec_chunks_bytes(cs) == spec_chunk_bytes(m) + spec_chunks_bytes(rest));
        assert(forall|i: int| 0 <= i < rest.len() ==> (#[trigger] rest[i]).wf()) by {
            assert(forall|i: int| 0 <= i < rest.len() ==> rest[i] == cs[i + 1]);
        }
        lemma_parse_chunks_render(rest);
        lemma_parse_chunks_step(m, spec_chunks_bytes(rest), rest);
        assert(seq![m] + rest =~= cs);
    }
}

/// Law: after appending a chunk whose tag text is not yet present,
/// looking that text up finds exactly the appended chunk, with its
/// payload.
pub proof fn lemma_append_then_lookup(cs: Seq<ChunkModel>, m: ChunkModel, t: Seq<char>)
    requires
        spec_matches(m, t),
        !spec_has_type(cs, t),
    ensures
        spec_has_type(cs.push(m), t),
        spec_first_match(cs.push(m), t) == cs.len() as int,
        cs.push(m)[spec_first_match(cs.push(m), t)] == m,
{
    assert(cs.push(m)[cs.len() as int] == m);
    assert(forall|j: int| 0 <= j < cs.len() ==> cs.push(m)[j] == cs[j]);
    assert(spec_is_first_match(cs.push(m), t, cs.len() as int));
    lemma_first_match_unique(cs.push(m), t, cs.len() as int);
}

} // verus!
