//! One PNG chunk: a 4-byte type tag, a byte payload, and the binary
//! record layout `length | type | data | checksum`, all integers
//! big-endian and the checksum a CRC-32 over type and data.

use vstd::prelude::*;
use vstd::slice::{slice_subrange, slice_to_vec};
use vstd::utf8::{decode_utf8, valid_utf8};

use crate::chunk_type::ChunkType;
use crate::crc::{crc32, spec_crc32};
use crate::error::PngError;

verus! {

broadcast use crate::chunk_type::lemma_chunk_type_len;

/// The mathematical content of a chunk: its tag bytes and its payload.
pub ghost struct ChunkModel {
    pub type_bytes: Seq<u8>,
    pub data: Seq<u8>,
}

impl ChunkModel {
    /// A well-formed chunk: a 4-byte tag, and a payload whose length
    /// fits the 32-bit length field of the record layout.
    pub open spec fn wf(self) -> bool {
        self.type_bytes.len() == 4 && self.data.len() <= u32::MAX
    }
}

/// The 4 bytes of `x` in big-endian order.
pub open spec fn spec_be_bytes(x: u32) -> Seq<u8> {
    seq![
        (x >> 24) as u8,
        ((x >> 16) & 0xff) as u8,
        ((x >> 8) & 0xff) as u8,
        (x & 0xff) as u8,
    ]
}

/// The value of 4 big-endian bytes.
pub open spec fn spec_be_u32(s: Seq<u8>) -> u32
    recommends
        s.len() == 4,
{
    ((s[0] as u32) << 24) | ((s[1] as u32) << 16) | ((s[2] as u32) << 8) | (s[3] as u32)
}

/// Reading 4 big-endian bytes gives back the value they were written
/// from.
pub proof fn lemma_be_round_trip(x: u32)
    ensures
        spec_be_u32(spec_be_bytes(x)) == x,
{
    let b0: u8 = (x >> 24) as u8;
    let b1: u8 = ((x >> 16) & 0xff) as u8;
    let b2: u8 = ((x >> 8) & 0xff) as u8;
    let b3: u8 = (x & 0xff) as u8;
    assert((((b0 as u32) << 24) | ((b1 as u32) << 16) | ((b2 as u32) << 8) | (b3 as u32)) == x)
        by (bit_vector)
        requires
            b0 == (x >> 24) as u8,
            b1 == ((x >> 16) & 0xff) as u8,
            b2 == ((x >> 8) & 0xff) as u8,
            b3 == (x & 0xff) as u8,
    ;
}

/// The serialized record of chunk `m`: 4-byte big-endian payload
/// length, 4 tag bytes, the payload, and the 4-byte big-endian CRC-32
/// of tag plus payload.
pub open spec fn spec_chunk_bytes(m: ChunkModel) -> Seq<u8>
    recommends
        m.wf(),
{
    spec_be_bytes(m.data.len() as u32) + m.type_bytes + m.data + spec_be_bytes(
        spec_crc32(m.type_bytes + m.data),
    )
}

/// Parsing one chunk record from the front of `s`, ignoring any bytes
/// past the record. Fails with `UnexpectedEof` when `s` holds fewer
/// than `12 + L` bytes for declared payload length `L`, and with
/// `ChecksumMismatch` when the trailing checksum does not equal the
/// CRC-32 recomputed over tag and payload.
pub open spec fn spec_parse_chunk(s: Seq<u8>) -> Result<ChunkModel, PngError> {
    if s.len() < 12 {
        Err(PngError::UnexpectedEof)
    } else {
        let l = spec_be_u32(s.subrange(0, 4)) as int;
        if s.len() < 12 + l {
            Err(PngError::UnexpectedEof)
        } else {
            let t = s.subrange(4, 8);
            let d = s.subrange(8, 8 + l);
            let declared = spec_be_u32(s.subrange(8 + l, 12 + l));
            if declared != spec_crc32(t + d) {
                Err(PngError::ChecksumMismatch)
            } else {
                Ok(ChunkModel { type_bytes: t, data: d })
            }
        }
    }
}

/// The whole-record size that parsing `s` consumes: 12 framing bytes
/// plus the payload.
pub open spec fn spec_chunk_size(m: ChunkModel) -> int {
    12 + m.data.len() as int
}

/// A chunk: a type tag and an owned payload. Length and checksum are
/// derived from these on demand, so they can never disagree with the
/// current payload.
#[derive(Debug, PartialEq, Eq)]
pub struct Chunk {
    chunk_type: ChunkType,
    data: Vec<u8>,
}

impl View for Chunk {
    type V = ChunkModel;

    closed spec fn view(&self) -> ChunkModel {
        ChunkModel { type_bytes: self.chunk_type@, data: self.data@ }
    }
}

impl Chunk {
    /// A well-formed chunk, as for its model.
    pub open spec fn wf(&self) -> bool {
        self@.wf()
    }

    /// Builds a chunk from a tag and a payload; the checksum is derived,
    /// so the pair is consistent by construction.
    pub fn new(chunk_type: ChunkType, data: Vec<u8>) -> (r: Chunk)
        requires
            data@.len() <= u32::MAX,
        ensures
            r@ == (ChunkModel { type_bytes: chunk_type@, data: data@ }),
            r.wf(),
    {
        Chunk { chunk_type, data }
    }

    /// The chunk's type tag.
    pub fn chunk_type(&self) -> (r: ChunkType)
        ensures
            r@ == self@.type_bytes,
    {
        self.chunk_type
    }

    /// The payload, read-only.
    pub fn data(&self) -> (r: &Vec<u8>)
        ensures
            r@ == self@.data,
    {
        &self.data
    }

    /// The payload length, as the 32-bit value the record layout stores.
    pub fn length(&self) -> (r: u32)
        requires
            self.wf(),
        ensures
            r == self@.data.len(),
    {
        self.data.len() as u32
    }

    /// The CRC-32 over the tag bytes followed by the payload.
    pub fn crc(&self) -> (r: u32)
        ensures
            r == spec_crc32(self@.type_bytes + self@.data),
    {
        let tb: [u8; 4] = self.chunk_type.bytes();
        let mut buf: Vec<u8> = Vec::new();
        buf.push(tb[0]);
        buf.push(tb[1]);
        buf.push(tb[2]);
        buf.push(tb[3]);
        buf.extend_from_slice(self.data.as_slice());
        proof {
            assert(buf@ =~= self@.type_bytes + self@.data);
        }
        crc32(buf.as_slice())
    }

    /// Replaces the payload wholesale; length and checksum follow it
    /// from now on.
    pub fn set_data(&mut self, data: Vec<u8>)
        requires
            data@.len() <= u32::MAX,
        ensures
            final(self)@ == (ChunkModel { type_bytes: old(self)@.type_bytes, data: data@ }),
            final(self).wf(),
    {
        self.data = data;
    }

    /// The payload as text. Fails with `InvalidEncoding` exactly when
    /// the payload is not valid UTF-8.
    pub fn data_as_string(&self) -> (r: Result<String, PngError>)
        ensures
            r is Ok <==> valid_utf8(self@.data),
            r matches Ok(t) ==> t@ == decode_utf8(self@.data),
            r matches Err(e) ==> e == PngError::InvalidEncoding,
    {
        match crate::text::utf8_to_string(slice_to_vec(self.data.as_slice())) {
            Some(t) => Ok(t),
            None => Err(PngError::InvalidEncoding),
        }
    }

    /// Serializes the chunk to its on-disk record.
    pub fn as_bytes(&self) -> (r: Vec<u8>)
        requires
            self.wf(),
        ensures
            r@ == spec_chunk_bytes(self@),
    {
        let mut out: Vec<u8> = Vec::new();
        push_be_u32(&mut out, self.data.len() as u32);
        let tb: [u8; 4] = self.chunk_type.bytes();
        out.push(tb[0]);
        out.push(tb[1]);
        out.push(tb[2]);
        out.push(tb[3]);
        out.extend_from_slice(self.data.as_slice());
        let c: u32 = self.crc();
        push_be_u32(&mut out, c);
        proof {
            assert(out@ =~= spec_chunk_bytes(self@));
        }
        out
    }

    /// Parses one chunk record from the front of `buf`, as
    /// [`spec_parse_chunk`] describes.
    pub fn from_bytes(buf: &[u8]) -> (r: Result<Chunk, PngError>)
        ensures
            match spec_parse_chunk(buf@) {
                Ok(m) => r matches Ok(c) && c@ == m && c.wf(),
                Err(e) => r matches Err(e2) && e2 == e,
            },
    {
        if buf.len() < 12 {
            return Err(PngError::UnexpectedEof);
        }
        let l: u32 = read_be_u32(buf, 0);
        proof {
            assert(buf@.subrange(0, 4) =~= buf@.take(4));
        }
        let l_us: usize = l as usize;
        if buf.len() - 12 < l_us {
            return Err(PngError::UnexpectedEof);
        }
        let tb: [u8; 4] = [buf[4], buf[5], buf[6], buf[7]];
        let chunk_type = match ChunkType::try_from(tb) {
            Ok(ct) => ct,
            Err(_) => {
                return Err(PngError::InvalidChunkType);
            },
        };
        let data: Vec<u8> = slice_to_vec(slice_subrange(buf, 8, 8 + l_us));
        let mut check: Vec<u8> = Vec::new();
        check.push(tb[0]);
        check.push(tb[1]);
        check.push(tb[2]);
        check.push(tb[3]);
        check.extend_from_slice(data.as_slice());
        proof {
            assert(tb@ =~= buf@.subrange(4, 8));
            assert(check@ =~= buf@.subrange(4, 8) + buf@.subrange(8, 8 + l as int));
        }
        let computed: u32 = crc32(check.as_slice());
        let declared: u32 = read_be_u32(buf, 8 + l_us);
        if declared != computed {
            return Err(PngError::ChecksumMismatch);
        }
        let c = Chunk { chunk_type, data };
        Ok(c)
    }
}

/// Appends the 4 big-endian bytes of `x` to `out`.
pub(crate) fn push_be_u32(out: &mut Vec<u8>, x: u32)
    ensures
        final(out)@ == old(out)@ + spec_be_bytes(x),
{
    out.push((x >> 24) as u8);
    out.push(((x >> 16) & 0xff) as u8);
    out.push(((x >> 8) & 0xff) as u8);
    out.push((x & 0xff) as u8);
    proof {
        assert(out@ =~= old(out)@ + spec_be_bytes(x));
    }
}

/// Reads 4 big-endian bytes of `buf` starting at `off`.
pub(crate) fn read_be_u32(buf: &[u8], off: usize) -> (r: u32)
    requires
        off + 4 <= buf@.len(),
    ensures
        r == spec_be_u32(buf@.subrange(off as int, off as int + 4)),
{
    let b0: u8 = buf[off];
    let b1: u8 = buf[off + 1];
    let b2: u8 = buf[off + 2];
    let b3: u8 = buf[off + 3];
    let r: u32 = ((b0 as u32) << 24) | ((b1 as u32) << 16) | ((b2 as u32) << 8) | (b3 as u32);
    proof {
        let s = buf@.subrange(off as int, off as int + 4);
        assert(s[0] == b0 && s[1] == b1 && s[2] == b2 && s[3] == b3);
    }
    r
}

/// Law: a chunk built from any tag and payload serializes to a record
/// that parses back to the same tag and payload.
pub proof fn lemma_chunk_round_trip(m: ChunkModel)
    requires
        m.wf(),
    ensures
        spec_parse_chunk(spec_chunk_bytes(m)) == Ok::<ChunkModel, PngError>(m),
{
    lemma_chunk_parse_prefix(m, Seq::<u8>::empty());
    assert(spec_chunk_bytes(m) + Seq::<u8>::empty() =~= spec_chunk_bytes(m));
}

/// Law: corrupting any single byte of a serialized chunk's type or
/// data region — in particular, flipping any single bit there — makes
/// parsing fail with `ChecksumMismatch`.
pub proof fn lemma_checksum_sensitivity(m: ChunkModel, p: int, nb: u8)
    requires
        m.wf(),
        4 <= p < 8 + m.data.len(),
        nb != spec_chunk_bytes(m)[p],
    ensures
        spec_parse_chunk(spec_chunk_bytes(m).update(p, nb)) == Err::<ChunkModel, PngError>(
            PngError::ChecksumMismatch,
        ),
{
    let b = spec_chunk_bytes(m);
    let b2 = b.update(p, nb);
    let l = m.data.len() as int;
    assert(b.len() == 12 + l);
    assert(b2.subrange(0, 4) =~= spec_be_bytes(m.data.len() as u32));
    lemma_be_round_trip(m.data.len() as u32);
    assert(b2.subrange(8 + l, 12 + l) =~= spec_be_bytes(spec_crc32(m.type_bytes + m.data)));
    lemma_be_round_trip(spec_crc32(m.type_bytes + m.data));
    let s1 = m.type_bytes + m.data;
    let s2 = b2.subrange(4, 8) + b2.subrange(8, 8 + l);
    assert(s1.len() == 4 + l);
    assert(s2.len() == 4 + l);
    assert(s1[p - 4] == b[p]);
    assert(s2[p - 4] == nb);
    assert(forall|i: int| 0 <= i < s1.len() && i != p - 4 ==> s1[i] == b[4 + i] && s2[i] == b[4
        + i]);
    crate::crc::lemma_crc32_single_byte_change(s1, s2, p - 4);
}

/// Parsing reads only the record itself: a serialized chunk followed by
/// any further bytes parses to that chunk.
pub proof fn lemma_chunk_parse_prefix(m: ChunkModel, rest: Seq<u8>)
    requires
        m.wf(),
    ensures
        spec_parse_chunk(spec_chunk_bytes(m) + rest) == Ok::<ChunkModel, PngError>(m),
{
    let s = spec_chunk_bytes(m) + rest;
    let l = m.data.len() as int;
    assert(s.len() == 12 + l + rest.len());
    assert(s.subrange(0, 4) =~= spec_be_bytes(m.data.len() as u32));
    lemma_be_round_trip(m.data.len() as u32);
    assert(spec_be_u32(s.subrange(0, 4)) as int == l);
    assert(s.subrange(4, 8) =~= m.type_bytes);
    assert(s.subrange(8, 8 + l) =~= m.data);
    assert(s.subrange(8 + l, 12 + l) =~= spec_be_bytes(spec_crc32(m.type_bytes + m.data)));
    lemma_be_round_trip(spec_crc32(m.type_bytes + m.data));
}

} // verus!
