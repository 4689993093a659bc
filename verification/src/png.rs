//! The container: the fixed eight-byte signature followed by chunks, one
//! after the other, until the bytes end.

use crate::chunk::{
    append_bytes, lemma_bytes_of_parse, lemma_parse_of_bytes, parse_chunk, Chunk, ChunkError,
    ChunkView,
};
use crate::text::{all_ascii, ascii_text, decimal, lemma_ascii_is_utf8, lemma_decimal_is_ascii, push_decimal};
use vstd::prelude::*;
use vstd::slice::slice_subrange;
use vstd::std_specs::convert::TryFromSpecImpl;
use vstd::string::StringSliceAdditionalSpecFns;
use vstd::utf8::{decode_utf8, valid_utf8, valid_utf8_concat};

verus! {

/// Why a container could not be read, or a chunk not be found in it.
#[derive(Debug, Clone, Copy, PartialEq, Eq, Structural)]
pub enum PngError {
    /// The first eight bytes are not the signature.
    BadSignature,
    /// A chunk has a tag that is not made of letters, or a wrong checksum:
    /// the error inside says which.
    BadChunk(ChunkError),
    /// The bytes end in the middle of a chunk.
    TruncatedInput,
    /// No chunk has the type that was asked for.
    ChunkNotFound,
}

/// The eight bytes every PNG stream starts with.
pub const STANDARD_HEADER: [u8; 8] = [137, 80, 78, 71, 13, 10, 26, 10];

/// The signature as a sequence.
pub open spec fn signature() -> Seq<u8> {
    seq![137u8, 80u8, 78u8, 71u8, 13u8, 10u8, 26u8, 10u8]
}

/// The chunks on the wire, one after the other.
pub open spec fn chunks_bytes(chunks: Seq<ChunkView>) -> Seq<u8>
    decreases chunks.len(),
{
    if chunks.len() == 0 {
        Seq::empty()
    } else {
        chunks[0].to_bytes() + chunks_bytes(chunks.drop_first())
    }
}

/// The container on the wire: the signature, then the chunks.
pub open spec fn png_bytes(chunks: Seq<ChunkView>) -> Seq<u8> {
    signature() + chunks_bytes(chunks)
}

/// `chunks` put in front of what reading the rest gave.
pub open spec fn prepend(chunks: Seq<ChunkView>, rest: Result<Seq<ChunkView>, PngError>) -> Result<
    Seq<ChunkView>,
    PngError,
> {
    match rest {
        Ok(more) => Ok(chunks + more),
        Err(e) => Err(e),
    }
}

/// What reading chunks from `bytes` until they end gives. The first chunk that
/// cannot be read decides the error.
pub open spec fn parse_chunks(bytes: Seq<u8>) -> Result<Seq<ChunkView>, PngError>
    decreases bytes.len(),
    via parse_chunks_terminates
{
    if bytes.len() == 0 {
        Ok(Seq::empty())
    } else {
        match parse_chunk(bytes) {
            Ok(chunk) => prepend(seq![chunk], parse_chunks(bytes.skip(chunk.wire_len()))),
            Err(ChunkError::TruncatedInput) => Err(PngError::TruncatedInput),
            Err(e) => Err(PngError::BadChunk(e)),
        }
    }
}

/// A chunk that was read took at least twelve of the bytes, and no more than
/// there were: fewer bytes are left after it.
#[via_fn]
proof fn parse_chunks_terminates(bytes: Seq<u8>) {
    if parse_chunk(bytes) is Ok {
        lemma_bytes_of_parse(bytes);
    }
}

/// What reading a container from `bytes` gives.
pub open spec fn parse_png(bytes: Seq<u8>) -> Result<Seq<ChunkView>, PngError> {
    if bytes.len() < 8 || bytes.take(8) != signature() {
        Err(PngError::BadSignature)
    } else {
        parse_chunks(bytes.skip(8))
    }
}

/// What stands between the tag and the length in a line of the listing: a
/// colon and a space.
pub const LINE_MIDDLE: [u8; 2] = [58, 32];

/// What ends a line of the listing: the word ` bytes` and a line feed.
pub const LINE_END: [u8; 7] = [32, 98, 121, 116, 101, 115, 10];

/// `LINE_MIDDLE` as a sequence.
pub open spec fn line_middle() -> Seq<u8> {
    seq![58u8, 32u8]
}

/// `LINE_END` as a sequence.
pub open spec fn line_end() -> Seq<u8> {
    seq![32u8, 98u8, 121u8, 116u8, 101u8, 115u8, 10u8]
}

/// One line of the listing: the tag, a colon, the payload length in decimal
/// and the word `bytes`.
pub open spec fn summary_line(chunk: ChunkView) -> Seq<u8> {
    chunk.chunk_type + line_middle() + decimal(chunk.data.len()) + line_end()
}

/// The listing of a container as UTF-8 bytes: one line for each chunk, in
/// their order.
pub open spec fn summary(chunks: Seq<ChunkView>) -> Seq<u8>
    decreases chunks.len(),
{
    if chunks.len() == 0 {
        Seq::empty()
    } else {
        summary(chunks.drop_last()) + summary_line(chunks.last())
    }
}

/// Every tag of `chunks` is valid UTF-8.
pub open spec fn tags_are_text(chunks: Seq<ChunkView>) -> bool {
    forall|i: int| 0 <= i < chunks.len() ==> valid_utf8((#[trigger] chunks[i]).chunk_type)
}

/// Every tag of `chunks` is ASCII.
pub open spec fn tags_are_ascii(chunks: Seq<ChunkView>) -> bool {
    forall|i: int| 0 <= i < chunks.len() ==> all_ascii((#[trigger] chunks[i]).chunk_type)
}

/// A line of the listing is valid UTF-8 where the tag is, and ASCII where the
/// tag is.
pub proof fn lemma_summary_line_is_text(chunk: ChunkView)
    ensures
        valid_utf8(chunk.chunk_type) ==> valid_utf8(summary_line(chunk)),
        all_ascii(chunk.chunk_type) ==> all_ascii(summary_line(chunk)),
{
    let tail = line_middle() + decimal(chunk.data.len()) + line_end();
    lemma_decimal_is_ascii(chunk.data.len());
    assert(all_ascii(tail));
    lemma_ascii_is_utf8(tail);
    assert(summary_line(chunk) =~= chunk.chunk_type + tail);
    if valid_utf8(chunk.chunk_type) {
        valid_utf8_concat(chunk.chunk_type, tail);
    }
}

/// Every chunk of `chunks` is one that decoding accepts.
pub open spec fn all_decodable(chunks: Seq<ChunkView>) -> bool {
    forall|i: int| 0 <= i < chunks.len() ==> (#[trigger] chunks[i]).decodable()
}

/// The position of the first chunk of `chunks` whose tag is `tag`.
pub open spec fn first_of_type(chunks: Seq<ChunkView>, tag: Seq<u8>) -> Option<int>
    decreases chunks.len(),
{
    if chunks.len() == 0 {
        None
    } else if chunks[0].chunk_type == tag {
        Some(0)
    } else {
        match first_of_type(chunks.drop_first(), tag) {
            Some(i) => Some(i + 1),
            None => None,
        }
    }
}

/// No chunk among the first `upto` of `chunks` has the tag `tag`.
pub open spec fn none_of_type(chunks: Seq<ChunkView>, tag: Seq<u8>, upto: int) -> bool {
    forall|j: int| 0 <= j < upto && j < chunks.len() ==> (#[trigger] chunks[j]).chunk_type != tag
}

/// `first_of_type` gives a position exactly when a chunk has the tag, and
/// then the position of the first one.
pub proof fn lemma_first_of_type(chunks: Seq<ChunkView>, tag: Seq<u8>)
    ensures
        match first_of_type(chunks, tag) {
            Some(i) => 0 <= i < chunks.len() && chunks[i].chunk_type == tag && none_of_type(
                chunks,
                tag,
                i,
            ),
            None => none_of_type(chunks, tag, chunks.len() as int),
        },
    decreases chunks.len(),
{
    if chunks.len() > 0 && chunks[0].chunk_type != tag {
        let rest = chunks.drop_first();
        lemma_first_of_type(rest, tag);
        match first_of_type(rest, tag) {
            Some(i) => {
                assert forall|j: int| 0 <= j < i + 1 && j < chunks.len() implies (
                #[trigger] chunks[j]).chunk_type != tag by {
                    if j > 0 {
                        assert(chunks[j] == rest[j - 1]);
                    }
                }
            },
            None => {
                assert forall|j: int| 0 <= j < chunks.len() implies (
                #[trigger] chunks[j]).chunk_type != tag by {
                    if j > 0 {
                        assert(chunks[j] == rest[j - 1]);
                    }
                }
            },
        }
    }
}

/// A position that holds the tag and has none before it is the first.
pub proof fn lemma_first_of_type_is(chunks: Seq<ChunkView>, tag: Seq<u8>, at: int)
    requires
        0 <= at < chunks.len(),
        chunks[at].chunk_type == tag,
        none_of_type(chunks, tag, at),
    ensures
        first_of_type(chunks, tag) == Some(at),
{
    lemma_first_of_type(chunks, tag);
    match first_of_type(chunks, tag) {
        Some(i) => {
            if i < at {
                assert(chunks[i].chunk_type != tag);
            } else if at < i {
                assert(chunks[at].chunk_type != tag);
            }
        },
        None => {
            assert(chunks[at].chunk_type != tag);
        },
    }
}

/// Where no chunk has the tag, there is no first one.
pub proof fn lemma_first_of_type_none(chunks: Seq<ChunkView>, tag: Seq<u8>)
    requires
        none_of_type(chunks, tag, chunks.len() as int),
    ensures
        first_of_type(chunks, tag) is None,
{
    lemma_first_of_type(chunks, tag);
    if let Some(i) = first_of_type(chunks, tag) {
        assert(chunks[i].chunk_type != tag);
    }
}

/// Writing one more chunk adds its bytes at the end.
pub proof fn lemma_chunks_bytes_push(chunks: Seq<ChunkView>, chunk: ChunkView)
    ensures
        chunks_bytes(chunks.push(chunk)) == chunks_bytes(chunks) + chunk.to_bytes(),
    decreases chunks.len(),
{
    if chunks.len() == 0 {
        assert(chunks.push(chunk).drop_first() =~= Seq::<ChunkView>::empty());
        assert(chunks_bytes(Seq::<ChunkView>::empty()) =~= Seq::<u8>::empty());
        assert(chunks_bytes(chunks.push(chunk)) =~= chunk.to_bytes());
        assert(chunks_bytes(chunks) + chunk.to_bytes() =~= chunk.to_bytes());
    } else {
        assert(chunks.push(chunk).drop_first() =~= chunks.drop_first().push(chunk));
        lemma_chunks_bytes_push(chunks.drop_first(), chunk);
        assert(chunks[0].to_bytes() + (chunks_bytes(chunks.drop_first()) + chunk.to_bytes())
            =~= (chunks[0].to_bytes() + chunks_bytes(chunks.drop_first())) + chunk.to_bytes());
    }
}

/// Decodable chunks read back from their own bytes.
pub proof fn lemma_parse_chunks_of_bytes(chunks: Seq<ChunkView>)
    requires
        all_decodable(chunks),
    ensures
        parse_chunks(chunks_bytes(chunks)) == Ok::<Seq<ChunkView>, PngError>(chunks),
    decreases chunks.len(),
{
    if chunks.len() == 0 {
        assert(chunks =~= Seq::<ChunkView>::empty());
    } else {
        let first = chunks[0];
        let rest = chunks.drop_first();
        let bytes = chunks_bytes(chunks);
        assert(first.decodable());
        assert forall|i: int| 0 <= i < rest.len() implies (#[trigger] rest[i]).decodable() by {
            assert(rest[i] == chunks[i + 1]);
        }
        lemma_parse_of_bytes(first, chunks_bytes(rest));
        assert(bytes.skip(first.wire_len()) =~= chunks_bytes(rest));
        lemma_parse_chunks_of_bytes(rest);
        assert(seq![first] + rest =~= chunks);
    }
}

/// What was read from bytes is decodable, and writes back to those bytes.
pub proof fn lemma_chunks_bytes_of_parse(bytes: Seq<u8>)
    requires
        parse_chunks(bytes) is Ok,
    ensures
        all_decodable(parse_chunks(bytes)->Ok_0),
        chunks_bytes(parse_chunks(bytes)->Ok_0) == bytes,
    decreases bytes.len(),
{
    let chunks = parse_chunks(bytes)->Ok_0;
    if bytes.len() == 0 {
        assert(chunks_bytes(chunks) =~= bytes);
    } else {
        let first = parse_chunk(bytes)->Ok_0;
        let tail = bytes.skip(first.wire_len());
        lemma_bytes_of_parse(bytes);
        lemma_chunks_bytes_of_parse(tail);
        let rest = parse_chunks(tail)->Ok_0;
        assert(chunks == seq![first] + rest);
        assert(chunks.drop_first() =~= rest);
        assert(chunks[0] == first);
        assert forall|i: int| 0 <= i < chunks.len() implies (#[trigger] chunks[i]).decodable() by {
            if i > 0 {
                assert(chunks[i] == rest[i - 1]);
            }
        }
        assert(bytes.take(first.wire_len()) + tail =~= bytes);
    }
}

/// Reading a container fails in one of four ways: on the signature, on bytes
/// that run out inside a chunk, on a tag that is not made of letters, or on a
/// checksum. Running out of bytes is never reported as a bad chunk.
pub proof fn lemma_parse_errors(bytes: Seq<u8>)
    ensures
        parse_chunks(bytes) matches Err(e) ==> e == PngError::TruncatedInput || e
            == PngError::BadChunk(ChunkError::InvalidChunkType) || e == PngError::BadChunk(
            ChunkError::InvalidChecksum,
        ),
        parse_png(bytes) matches Err(e) ==> e == PngError::BadSignature || e
            == PngError::TruncatedInput || e == PngError::BadChunk(ChunkError::InvalidChunkType)
            || e == PngError::BadChunk(ChunkError::InvalidChecksum),
    decreases bytes.len(),
{
    reveal(parse_chunk);
    if bytes.len() > 0 {
        if let Ok(chunk) = parse_chunk(bytes) {
            lemma_bytes_of_parse(bytes);
            lemma_parse_errors(bytes.skip(chunk.wire_len()));
        }
    }
    if bytes.len() >= 8 {
        lemma_parse_errors(bytes.skip(8));
    }
}

/// Writing a container of decodable chunks and reading it back gives the
/// same chunks, in the same order.
pub proof fn lemma_round_trip(chunks: Seq<ChunkView>)
    requires
        all_decodable(chunks),
    ensures
        parse_png(png_bytes(chunks)) == Ok::<Seq<ChunkView>, PngError>(chunks),
{
    let bytes = png_bytes(chunks);
    assert(bytes.take(8) =~= signature());
    assert(bytes.skip(8) =~= chunks_bytes(chunks));
    lemma_parse_chunks_of_bytes(chunks);
}

/// A container that was read from bytes holds decodable chunks only, writes
/// back to the bytes it was read from, and reads back from them as the same
/// container.
pub proof fn lemma_decoded_round_trip(bytes: Seq<u8>)
    requires
        parse_png(bytes) is Ok,
    ensures
        all_decodable(parse_png(bytes)->Ok_0),
        png_bytes(parse_png(bytes)->Ok_0) == bytes,
        parse_png(png_bytes(parse_png(bytes)->Ok_0)) == parse_png(bytes),
{
    lemma_chunks_bytes_of_parse(bytes.skip(8));
    assert(bytes.take(8) + bytes.skip(8) =~= bytes);
}

/// After a chunk has been appended, the first chunk of a type is the one that
/// was first before; where there was none, it is the new chunk if that has
/// the type.
pub proof fn lemma_append_then_find(chunks: Seq<ChunkView>, chunk: ChunkView, tag: Seq<u8>)
    ensures
        first_of_type(chunks.push(chunk), tag) == match first_of_type(chunks, tag) {
            Some(i) => Some(i),
            None => if chunk.chunk_type == tag {
                Some(chunks.len() as int)
            } else {
                None
            },
        },
{
    let longer = chunks.push(chunk);
    lemma_first_of_type(chunks, tag);
    match first_of_type(chunks, tag) {
        Some(i) => {
            assert(longer[i] == chunks[i]);
            assert forall|j: int| 0 <= j < i && j < longer.len() implies (
            #[trigger] longer[j]).chunk_type != tag by {
                assert(longer[j] == chunks[j]);
            }
            lemma_first_of_type_is(longer, tag, i);
        },
        None => {
            if chunk.chunk_type == tag {
                assert forall|j: int| 0 <= j < chunks.len() && j < longer.len() implies (
                #[trigger] longer[j]).chunk_type != tag by {
                    assert(longer[j] == chunks[j]);
                }
                lemma_first_of_type_is(longer, tag, chunks.len() as int);
            } else {
                assert forall|j: int| 0 <= j < longer.len() implies (
                #[trigger] longer[j]).chunk_type != tag by {
                    if j < chunks.len() {
                        assert(longer[j] == chunks[j]);
                    }
                }
                lemma_first_of_type_none(longer, tag);
            }
        },
    }
}

/// Where exactly one chunk has a type, no chunk has it once that one has been
/// removed.
pub proof fn lemma_remove_sole_then_find(chunks: Seq<ChunkView>, tag: Seq<u8>, at: int)
    requires
        0 <= at < chunks.len(),
        chunks[at].chunk_type == tag,
        forall|j: int| 0 <= j < chunks.len() && j != at ==> (#[trigger] chunks[j]).chunk_type != tag,
    ensures
        first_of_type(chunks, tag) == Some(at),
        first_of_type(chunks.remove(at), tag) is None,
{
    lemma_first_of_type_is(chunks, tag, at);
    let shorter = chunks.remove(at);
    assert forall|j: int| 0 <= j < shorter.len() implies (#[trigger] shorter[j]).chunk_type
        != tag by {
        if j < at {
            assert(shorter[j] == chunks[j]);
        } else {
            assert(shorter[j] == chunks[j + 1]);
        }
    }
    lemma_first_of_type_none(shorter, tag);
}

/// A PNG stream held as its chunks.
#[derive(Debug)]
pub struct Png {
    chunks: Vec<Chunk>,
}

impl View for Png {
    type V = Seq<ChunkView>;

    closed spec fn view(&self) -> Seq<ChunkView> {
        self.chunks@.map_values(|chunk: Chunk| chunk@)
    }
}

fn tag_matches(chunk: &Chunk, tag: &[u8]) -> (same: bool)
    ensures
        same == (chunk@.chunk_type == tag@),
{
    let own = chunk.chunk_type().bytes();
    let same = tag.len() == 4 && own[0] == tag[0] && own[1] == tag[1] && own[2] == tag[2]
        && own[3] == tag[3];
    assert(same == (own@ =~= tag@));
    same
}

impl Png {
    /// The container that holds `chunks`, in their order.
    pub fn from_chunks(chunks: Vec<Chunk>) -> (png: Png)
        ensures
            png@ == chunks@.map_values(|chunk: Chunk| chunk@),
    {
        Png { chunks }
    }

    /// Adds `chunk` at the end. A chunk of the same type may be there already.
    pub fn append_chunk(&mut self, chunk: Chunk)
        ensures
            final(self)@ == old(self)@.push(chunk@),
    {
        self.chunks.push(chunk);
        assert(self.chunks@.map_values(|chunk: Chunk| chunk@) =~= old(self).chunks@.map_values(
            |chunk: Chunk| chunk@,
        ).push(chunk@));
    }

    /// Takes out the first chunk whose tag reads `chunk_type`, and hands it
    /// back. The other chunks keep their order.
    pub fn remove_first_chunk(&mut self, chunk_type: &str) -> (removed: Result<Chunk, PngError>)
        ensures
            match first_of_type(old(self)@, chunk_type.spec_bytes()) {
                Some(i) => removed is Ok && removed->Ok_0@ == old(self)@[i] && final(self)@ == old(
                    self,
                )@.remove(i),
                None => removed == Err::<Chunk, PngError>(PngError::ChunkNotFound) && final(self)@
                    == old(self)@,
            },
    {
        let tag = chunk_type.as_bytes();
        let mut i: usize = 0;
        while i < self.chunks.len()
            invariant
                i <= self.chunks.len(),
                self.chunks == old(self).chunks,
                tag@ == chunk_type.spec_bytes(),
                none_of_type(self@, tag@, i as int),
            decreases self.chunks.len() - i,
        {
            if tag_matches(&self.chunks[i], tag) {
                proof {
                    lemma_first_of_type_is(self@, tag@, i as int);
                }
                let chunk = self.chunks.remove(i);
                assert(self.chunks@.map_values(|chunk: Chunk| chunk@) =~= old(
                    self,
                ).chunks@.map_values(|chunk: Chunk| chunk@).remove(i as int));
                return Ok(chunk);
            }
            i = i + 1;
        }
        proof {
            lemma_first_of_type_none(self@, tag@);
        }
        Err(PngError::ChunkNotFound)
    }

    /// The signature, which is the same for every container.
    pub fn header(&self) -> (header: [u8; 8])
        ensures
            header@ == signature(),
    {
        let header = STANDARD_HEADER;
        assert(header@ =~= signature());
        header
    }

    /// The chunks, in their order.
    pub fn chunks(&self) -> (chunks: &[Chunk])
        ensures
            chunks@.map_values(|chunk: Chunk| chunk@) == self@,
    {
        self.chunks.as_slice()
    }

    /// The first chunk whose tag reads `chunk_type`.
    pub fn chunk_by_type(&self, chunk_type: &str) -> (found: Option<&Chunk>)
        ensures
            match first_of_type(self@, chunk_type.spec_bytes()) {
                Some(i) => found is Some && found->Some_0@ == self@[i],
                None => found is None,
            },
    {
        let tag = chunk_type.as_bytes();
        let mut i: usize = 0;
        while i < self.chunks.len()
            invariant
                i <= self.chunks.len(),
                tag@ == chunk_type.spec_bytes(),
                none_of_type(self@, tag@, i as int),
            decreases self.chunks.len() - i,
        {
            if tag_matches(&self.chunks[i], tag) {
                proof {
                    lemma_first_of_type_is(self@, tag@, i as int);
                }
                return Some(&self.chunks[i]);
            }
            i = i + 1;
        }
        proof {
            lemma_first_of_type_none(self@, tag@);
        }
        None
    }

    /// A listing of the chunks, one line for each: the tag and the payload
    /// length. Every tag has to be valid UTF-8.
    pub fn to_string(&self) -> (text: String)
        requires
            tags_are_text(self@),
        ensures
            text@ == decode_utf8(summary(self@)),
            tags_are_ascii(self@) ==> text@ == ascii_text(summary(self@)),
    {
        let mut out: Vec<u8> = Vec::new();
        let mut i: usize = 0;
        assert(self@.take(0) =~= Seq::<ChunkView>::empty());
        while i < self.chunks.len()
            invariant
                i <= self.chunks.len(),
                tags_are_text(self@),
                out@ == summary(self@.take(i as int)),
                valid_utf8(out@),
                tags_are_ascii(self@) ==> all_ascii(out@),
            decreases self.chunks.len() - i,
        {
            let chunk = &self.chunks[i];
            let tag = chunk.chunk_type().bytes();
            let ghost before = out@;
            proof {
                assert(self@.take(i + 1).drop_last() =~= self@.take(i as int));
                assert(self@.take(i + 1).last() == self@[i as int]);
                assert(chunk@ == self@[i as int]);
                lemma_summary_line_is_text(chunk@);
                valid_utf8_concat(before, summary_line(chunk@));
            }
            let middle = LINE_MIDDLE;
            let end = LINE_END;
            assert(middle@ =~= line_middle() && end@ =~= line_end());
            append_bytes(&mut out, tag.as_slice());
            append_bytes(&mut out, middle.as_slice());
            push_decimal(&mut out, chunk.length());
            append_bytes(&mut out, end.as_slice());
            assert(out@ =~= before + summary_line(chunk@));
            i = i + 1;
        }
        assert(self@.take(i as int) =~= self@);
        proof {
            if tags_are_ascii(self@) {
                lemma_ascii_is_utf8(out@);
            }
        }
        match String::from_utf8(out) {
            Ok(text) => text,
            Err(_) => vstd::pervasive::unreached(),
        }
    }

    /// The container on the wire.
    pub fn as_bytes(&self) -> (bytes: Vec<u8>)
        ensures
            bytes@ == png_bytes(self@),
    {
        let mut out: Vec<u8> = Vec::new();
        let header = STANDARD_HEADER;
        assert(header@ =~= signature());
        append_bytes(&mut out, header.as_slice());
        let mut i: usize = 0;
        assert(self@.take(0) =~= Seq::<ChunkView>::empty());
        while i < self.chunks.len()
            invariant
                i <= self.chunks.len(),
                out@ == signature() + chunks_bytes(self@.take(i as int)),
            decreases self.chunks.len() - i,
        {
            let encoded = self.chunks[i].as_bytes();
            proof {
                lemma_chunks_bytes_push(self@.take(i as int), self@[i as int]);
                assert(self@.take(i as int).push(self@[i as int]) =~= self@.take(i + 1));
            }
            append_bytes(&mut out, encoded.as_slice());
            i = i + 1;
        }
        assert(self@.take(i as int) =~= self@);
        out
    }
}

impl<'a> TryFrom<&'a [u8]> for Png {
    type Error = PngError;

    /// Reads a container: the signature, then chunks until the bytes end.
    fn try_from(bytes: &'a [u8]) -> (parsed: Result<Png, PngError>)
        ensures
            match parsed {
                Ok(png) => parse_png(bytes@) == Ok::<Seq<ChunkView>, PngError>(png@),
                Err(e) => parse_png(bytes@) == Err::<Seq<ChunkView>, PngError>(e),
            },
    {
        if bytes.len() < 8 {
            return Err(PngError::BadSignature);
        }
        let header = STANDARD_HEADER;
        assert(header@ =~= signature());
        let mut k: usize = 0;
        while k < 8
            invariant
                k <= 8,
                bytes@.len() >= 8,
                header@ == signature(),
                forall|j: int| 0 <= j < k ==> bytes@[j] == signature()[j],
            decreases 8 - k,
        {
            if bytes[k] != header[k] {
                assert(bytes@.take(8)[k as int] != signature()[k as int]);
                return Err(PngError::BadSignature);
            }
            k = k + 1;
        }
        assert(bytes@.take(8) =~= signature());
        let mut chunks: Vec<Chunk> = Vec::new();
        let mut offset: usize = 8;
        assert(chunks@.map_values(|chunk: Chunk| chunk@) =~= Seq::<ChunkView>::empty());
        assert(Seq::<ChunkView>::empty() + parse_chunks(bytes@.skip(8))->Ok_0 =~= parse_chunks(
            bytes@.skip(8),
        )->Ok_0);
        while offset < bytes.len()
            invariant
                8 <= offset <= bytes.len(),
                parse_png(bytes@) == parse_chunks(bytes@.skip(8)),
                parse_chunks(bytes@.skip(8)) == prepend(
                    chunks@.map_values(|chunk: Chunk| chunk@),
                    parse_chunks(bytes@.skip(offset as int)),
                ),
            decreases bytes.len() - offset,
        {
            let rest = slice_subrange(bytes, offset, bytes.len());
            assert(rest@ =~= bytes@.skip(offset as int));
            match Chunk::try_from(rest) {
                Ok(chunk) => {
                    proof {
                        lemma_bytes_of_parse(rest@);
                    }
                    let taken = chunk.length() as usize + 12;
                    let ghost before = chunks@.map_values(|chunk: Chunk| chunk@);
                    let ghost tail = parse_chunks(rest@.skip(taken as int));
                    assert(rest@.skip(taken as int) =~= bytes@.skip(offset + taken));
                    chunks.push(chunk);
                    assert(chunks@.map_values(|chunk: Chunk| chunk@) =~= before.push(chunk@));
                    assert(tail is Ok ==> before + (seq![chunk@] + tail->Ok_0) =~= before.push(
                        chunk@,
                    ) + tail->Ok_0);
                    offset = offset + taken;
                },
                Err(ChunkError::TruncatedInput) => {
                    return Err(PngError::TruncatedInput);
                },
                Err(e) => {
                    return Err(PngError::BadChunk(e));
                },
            }
        }
        assert(bytes@.skip(offset as int).len() == 0);
        assert(chunks@.map_values(|chunk: Chunk| chunk@) + Seq::<ChunkView>::empty()
            =~= chunks@.map_values(|chunk: Chunk| chunk@));
        Ok(Png { chunks })
    }
}

impl<'a> TryFromSpecImpl<&'a [u8]> for Png {
    /// Decoding pins the view of the container it gives, not the container as
    /// a value: what it promises is stated on `try_from` itself.
    open spec fn obeys_try_from_spec() -> bool {
        false
    }

    open spec fn try_from_spec(bytes: &'a [u8]) -> Result<Self, PngError> {
        match parse_png(bytes@) {
            Ok(view) => Ok(choose|png: Png| png@ == view),
            Err(e) => Err(e),
        }
    }
}

} // verus!
