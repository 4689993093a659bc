//! A chunk: a type tag, a payload and the CRC-32 of both.
//!
//! On the wire a chunk is the payload length as a big-endian 32-bit number,
//! the four bytes of the tag, the payload, and the checksum as a big-endian
//! 32-bit number: twelve bytes around the payload.

use crate::chunk_type::{all_letters, ChunkType};
use crate::crc::{checksum, crc32_of_parts, lemma_single_byte_change_detected};
use crate::endian::{
    be_bytes, be_value, lemma_bytes_of_value, lemma_value_of_bytes, read_be, to_be_bytes,
};
use vstd::prelude::*;
use vstd::slice::{slice_subrange, slice_to_vec};
use vstd::std_specs::convert::TryFromSpecImpl;
use vstd::utf8::{decode_utf8, valid_utf8};

verus! {

/// Why a chunk could not be read.
#[derive(Debug, Clone, Copy, PartialEq, Eq, Structural)]
pub enum ChunkError {
    /// The buffer ends before the chunk does.
    TruncatedInput,
    /// The four bytes of the tag are not all letters.
    InvalidChunkType,
    /// The stored checksum is not the checksum of tag and payload.
    InvalidChecksum,
    /// The payload is not valid UTF-8.
    InvalidText,
}

/// The bytes a chunk needs besides its payload.
pub const OVERHEAD: usize = 12;

/// What a chunk holds, as plain values.
pub struct ChunkView {
    pub chunk_type: Seq<u8>,
    pub data: Seq<u8>,
    pub crc: u32,
}

impl ChunkView {
    /// The chunk with this tag and payload and the checksum that belongs to
    /// them.
    pub open spec fn built(chunk_type: Seq<u8>, data: Seq<u8>) -> ChunkView {
        ChunkView { chunk_type, data, crc: checksum(chunk_type + data) }
    }

    /// What holds of every chunk: the tag has four bytes, the payload length
    /// fits the 32-bit length field, and the checksum is that of tag and
    /// payload.
    pub open spec fn consistent(self) -> bool {
        &&& self.chunk_type.len() == 4
        &&& self.data.len() <= u32::MAX
        &&& self.crc == checksum(self.chunk_type + self.data)
    }

    /// A chunk that decoding accepts: consistent, with a tag made of letters.
    pub open spec fn decodable(self) -> bool {
        self.consistent() && all_letters(self.chunk_type)
    }

    /// The chunk on the wire.
    #[verifier::opaque]
    pub open spec fn to_bytes(self) -> Seq<u8> {
        be_bytes(self.data.len() as u32) + self.chunk_type + self.data + be_bytes(self.crc)
    }

    /// The number of bytes the chunk takes on the wire.
    pub open spec fn wire_len(self) -> int {
        self.data.len() as int + 12
    }
}

/// What reading one chunk from the front of `bytes` gives. Bytes after the
/// chunk are left alone.
#[verifier::opaque]
pub open spec fn parse_chunk(bytes: Seq<u8>) -> Result<ChunkView, ChunkError> {
    if bytes.len() < 12 {
        Err(ChunkError::TruncatedInput)
    } else {
        let declared = be_value(bytes.subrange(0, 4)) as int;
        if declared + 12 > bytes.len() {
            Err(ChunkError::TruncatedInput)
        } else {
            let chunk_type = bytes.subrange(4, 8);
            let data = bytes.subrange(8, 8 + declared);
            let crc = be_value(bytes.subrange(8 + declared, 12 + declared));
            if !all_letters(chunk_type) {
                Err(ChunkError::InvalidChunkType)
            } else if checksum(chunk_type + data) != crc {
                Err(ChunkError::InvalidChecksum)
            } else {
                Ok(ChunkView { chunk_type, data, crc })
            }
        }
    }
}

/// `byte` with bit number `bit` inverted.
pub open spec fn flip_bit(byte: u8, bit: u8) -> u8 {
    byte ^ (1u8 << bit)
}

/// A decodable chunk reads back from its own bytes, whatever follows them.
pub proof fn lemma_parse_of_bytes(chunk: ChunkView, rest: Seq<u8>)
    requires
        chunk.decodable(),
    ensures
        chunk.to_bytes().len() == chunk.wire_len(),
        parse_chunk(chunk.to_bytes() + rest) == Ok::<ChunkView, ChunkError>(chunk),
{
    reveal(parse_chunk);
    reveal(ChunkView::to_bytes);
    let n = chunk.data.len() as int;
    let bytes = chunk.to_bytes() + rest;
    lemma_value_of_bytes(n as u32);
    lemma_value_of_bytes(chunk.crc);
    assert(bytes.subrange(0, 4) =~= be_bytes(n as u32));
    assert(bytes.subrange(4, 8) =~= chunk.chunk_type);
    assert(bytes.subrange(8, 8 + n) =~= chunk.data);
    assert(bytes.subrange(8 + n, 12 + n) =~= be_bytes(chunk.crc));
}

/// A chunk built from a tag of four letters and a payload that fits the
/// length field is decodable: written and read again, it is the same chunk,
/// with the same checksum.
pub proof fn lemma_built_chunk_reads_back(chunk_type: Seq<u8>, data: Seq<u8>)
    requires
        chunk_type.len() == 4,
        all_letters(chunk_type),
        data.len() <= u32::MAX,
    ensures
        ChunkView::built(chunk_type, data).decodable(),
        parse_chunk(ChunkView::built(chunk_type, data).to_bytes()) == Ok::<ChunkView, ChunkError>(
            ChunkView::built(chunk_type, data),
        ),
{
    let chunk = ChunkView::built(chunk_type, data);
    lemma_parse_of_bytes(chunk, Seq::empty());
    assert(chunk.to_bytes() + Seq::<u8>::empty() =~= chunk.to_bytes());
}

/// What was read from a buffer is decodable, and writes back to the bytes it
/// was read from.
pub proof fn lemma_bytes_of_parse(bytes: Seq<u8>)
    requires
        parse_chunk(bytes) is Ok,
    ensures
        parse_chunk(bytes)->Ok_0.decodable(),
        parse_chunk(bytes)->Ok_0.wire_len() <= bytes.len(),
        parse_chunk(bytes)->Ok_0.to_bytes() == bytes.take(parse_chunk(bytes)->Ok_0.wire_len()),
{
    reveal(parse_chunk);
    reveal(ChunkView::to_bytes);
    let chunk = parse_chunk(bytes)->Ok_0;
    let n = chunk.data.len() as int;
    lemma_bytes_of_value(bytes.subrange(0, 4));
    lemma_bytes_of_value(bytes.subrange(8 + n, 12 + n));
    assert(chunk.to_bytes() =~= bytes.take(n + 12));
}

/// Replacing one byte of the payload or of the stored checksum of a written
/// chunk by another value makes decoding fail on the checksum.
pub proof fn lemma_corruption_detected(chunk: ChunkView, at: int, replacement: u8)
    requires
        chunk.decodable(),
        8 <= at < chunk.wire_len(),
        replacement != chunk.to_bytes()[at],
    ensures
        parse_chunk(chunk.to_bytes().update(at, replacement)) == Err::<ChunkView, ChunkError>(
            ChunkError::InvalidChecksum,
        ),
{
    reveal(parse_chunk);
    reveal(ChunkView::to_bytes);
    let n = chunk.data.len() as int;
    let good = chunk.to_bytes();
    let bad = good.update(at, replacement);
    lemma_parse_of_bytes(chunk, Seq::empty());
    assert(good + Seq::<u8>::empty() =~= good);
    lemma_value_of_bytes(n as u32);
    lemma_value_of_bytes(chunk.crc);
    assert(bad.subrange(0, 4) =~= good.subrange(0, 4));
    assert(good.subrange(0, 4) =~= be_bytes(n as u32));
    assert(bad.subrange(4, 8) =~= chunk.chunk_type);
    assert(good.subrange(8, 8 + n) =~= chunk.data);
    assert(good.subrange(8 + n, 12 + n) =~= be_bytes(chunk.crc));
    let data = bad.subrange(8, 8 + n);
    let stored = bad.subrange(8 + n, 12 + n);
    if at < 8 + n {
        assert(stored =~= be_bytes(chunk.crc));
        let a = chunk.chunk_type + chunk.data;
        let b = chunk.chunk_type + data;
        assert(a[at - 4] == good[at]);
        assert(b[at - 4] == replacement);
        assert forall|i: int| 0 <= i < a.len() && i != at - 4 implies a[i] == b[i] by {
            if i >= 4 {
                assert(a[i] == good[i + 4]);
                assert(b[i] == bad[i + 4]);
            }
        }
        lemma_single_byte_change_detected(a, b, at - 4);
    } else {
        assert(data =~= chunk.data);
        if be_value(stored) == chunk.crc {
            lemma_bytes_of_value(stored);
            assert(stored[at - 8 - n] == replacement);
            assert(be_bytes(chunk.crc)[at - 8 - n] == good[at]);
        }
    }
}

/// Inverting one bit of the payload or of the stored checksum of a written
/// chunk makes decoding fail on the checksum.
pub proof fn lemma_bit_flip_detected(chunk: ChunkView, at: int, bit: u8)
    requires
        chunk.decodable(),
        8 <= at < chunk.wire_len(),
        bit < 8,
    ensures
        parse_chunk(chunk.to_bytes().update(at, flip_bit(chunk.to_bytes()[at], bit))) == Err::<
            ChunkView,
            ChunkError,
        >(ChunkError::InvalidChecksum),
{
    let byte = chunk.to_bytes()[at];
    assert(bit < 8 ==> byte ^ (1u8 << bit) != byte) by (bit_vector);
    lemma_corruption_detected(chunk, at, flip_bit(byte, bit));
}

/// Appends `bytes` to `out`.
pub(crate) fn append_bytes(out: &mut Vec<u8>, bytes: &[u8])
    ensures
        final(out)@ == old(out)@ + bytes@,
{
    let mut i: usize = 0;
    while i < bytes.len()
        invariant
            i <= bytes.len(),
            out@ == old(out)@ + bytes@.take(i as int),
        decreases bytes.len() - i,
    {
        out.push(bytes[i]);
        assert(bytes@.take(i + 1) =~= bytes@.take(i as int).push(bytes@[i as int]));
        i = i + 1;
    }
    assert(bytes@.take(i as int) =~= bytes@);
}

/// A chunk of a PNG stream.
#[derive(Debug)]
pub struct Chunk {
    chunk_type: ChunkType,
    data: Vec<u8>,
    crc: u32,
}

impl View for Chunk {
    type V = ChunkView;

    closed spec fn view(&self) -> ChunkView {
        ChunkView { chunk_type: self.chunk_type@, data: self.data@, crc: self.crc }
    }
}

impl Chunk {
    #[verifier::type_invariant]
    spec fn consistent(&self) -> bool {
        self@.consistent()
    }

    /// Builds a chunk from a tag and a payload, and computes its checksum.
    /// The payload has to fit the 32-bit length field.
    pub fn new(chunk_type: ChunkType, data: Vec<u8>) -> (chunk: Chunk)
        requires
            data@.len() <= u32::MAX,
        ensures
            chunk@ == ChunkView::built(chunk_type@, data@),
    {
        let tag = chunk_type.bytes();
        let crc = crc32_of_parts(tag.as_slice(), data.as_slice());
        proof {
            chunk_type.lemma_four_bytes();
        }
        Chunk { chunk_type, data, crc }
    }

    /// The payload length.
    pub fn length(&self) -> (length: u32)
        ensures
            length == self@.data.len(),
    {
        proof {
            use_type_invariant(self);
        }
        self.data.len() as u32
    }

    /// The tag.
    pub fn chunk_type(&self) -> (chunk_type: &ChunkType)
        ensures
            chunk_type@ == self@.chunk_type,
    {
        &self.chunk_type
    }

    /// The payload.
    pub fn data(&self) -> (data: &[u8])
        ensures
            data@ == self@.data,
    {
        self.data.as_slice()
    }

    /// The checksum, which is always that of tag and payload.
    pub fn crc(&self) -> (crc: u32)
        ensures
            crc == self@.crc,
            crc == checksum(self@.chunk_type + self@.data),
    {
        proof {
            use_type_invariant(self);
        }
        self.crc
    }

    /// The payload as text, where it is valid UTF-8.
    pub fn data_as_string(&self) -> (text: Result<String, ChunkError>)
        ensures
            match text {
                Ok(s) => valid_utf8(self@.data) && s@ == decode_utf8(self@.data),
                Err(e) => !valid_utf8(self@.data) && e == ChunkError::InvalidText,
            },
    {
        match String::from_utf8(slice_to_vec(self.data.as_slice())) {
            Ok(s) => Ok(s),
            Err(_) => Err(ChunkError::InvalidText),
        }
    }

    /// The chunk on the wire: length, tag, payload, checksum.
    pub fn as_bytes(&self) -> (bytes: Vec<u8>)
        ensures
            bytes@ == self@.to_bytes(),
    {
        let mut out: Vec<u8> = Vec::new();
        let length = to_be_bytes(self.length());
        let tag = self.chunk_type.bytes();
        let crc = to_be_bytes(self.crc);
        append_bytes(&mut out, length.as_slice());
        append_bytes(&mut out, tag.as_slice());
        append_bytes(&mut out, self.data.as_slice());
        append_bytes(&mut out, crc.as_slice());
        proof {
            reveal(ChunkView::to_bytes);
        }
        assert(out@ =~= self@.to_bytes());
        out
    }
}

impl<'a> TryFrom<&'a [u8]> for Chunk {
    type Error = ChunkError;

    /// Reads one chunk from the front of `bytes`.
    fn try_from(bytes: &'a [u8]) -> (parsed: Result<Chunk, ChunkError>)
        ensures
            match parsed {
                Ok(chunk) => parse_chunk(bytes@) == Ok::<ChunkView, ChunkError>(chunk@),
                Err(e) => parse_chunk(bytes@) == Err::<ChunkView, ChunkError>(e),
            },
    {
        proof {
            reveal(parse_chunk);
        }
        if bytes.len() < OVERHEAD {
            return Err(ChunkError::TruncatedInput);
        }
        let declared = read_be(bytes, 0) as usize;
        if declared > bytes.len() - OVERHEAD {
            return Err(ChunkError::TruncatedInput);
        }
        let tag: [u8; 4] = [bytes[4], bytes[5], bytes[6], bytes[7]];
        assert(tag@ =~= bytes@.subrange(4, 8));
        let chunk_type = match ChunkType::try_from(tag) {
            Ok(chunk_type) => chunk_type,
            Err(_) => {
                return Err(ChunkError::InvalidChunkType);
            },
        };
        let data = slice_subrange(bytes, 8, 8 + declared);
        let crc = read_be(bytes, 8 + declared);
        if crc32_of_parts(tag.as_slice(), data) != crc {
            return Err(ChunkError::InvalidChecksum);
        }
        Ok(Chunk { chunk_type, data: slice_to_vec(data), crc })
    }
}

impl<'a> TryFromSpecImpl<&'a [u8]> for Chunk {
    /// Decoding pins the view of the chunk it gives, not the chunk as a
    /// value: what it promises is stated on `try_from` itself.
    open spec fn obeys_try_from_spec() -> bool {
        false
    }

    open spec fn try_from_spec(bytes: &'a [u8]) -> Result<Self, ChunkError> {
        match parse_chunk(bytes@) {
            Ok(view) => Ok(choose|chunk: Chunk| chunk@ == view),
            Err(e) => Err(e),
        }
    }
}

} // verus!
