//! The four operations on a PNG stream held in memory: hide a message in a
//! new chunk, read a message back, remove a chunk, and list the chunks.
//!
//! Each takes the bytes of the stream and gives back bytes to store or text
//! to show; reading and writing files is left to the caller.

use crate::chunk::{Chunk, ChunkView};
use crate::chunk_type::{is_letter, tag_of_text, ChunkType, ChunkTypeError};
use crate::png::{
    first_of_type, lemma_decoded_round_trip, parse_png, png_bytes, summary, tags_are_ascii,
    tags_are_text, Png, PngError,
};
use crate::text::{all_ascii, ascii_text, lemma_ascii_is_utf8};
use vstd::prelude::*;
use vstd::slice::slice_to_vec;
use vstd::string::StringSliceAdditionalSpecFns;
use vstd::utf8::{decode_utf8, valid_utf8};

verus! {

/// Why an operation failed.
#[derive(Debug, Clone, Copy, PartialEq, Eq, Structural)]
pub enum CommandError {
    /// The bytes are not a well-formed PNG stream.
    Format(PngError),
    /// The chunk type that was asked for is not four ASCII letters.
    Input(ChunkTypeError),
    /// The message is longer than the length field of a chunk can say.
    MessageTooLong,
    /// No chunk has the type that was asked for.
    NotFound,
    /// The payload of the chunk is not valid UTF-8.
    NotText,
}

/// What `encode` gives: the stream with one more chunk at its end, which has
/// the tag `tag` and the payload `message`.
pub open spec fn encoded(data: Seq<u8>, tag: Seq<u8>, message: Seq<u8>) -> Result<
    Seq<u8>,
    CommandError,
> {
    match parse_png(data) {
        Err(e) => Err(CommandError::Format(e)),
        Ok(chunks) => match tag_of_text(tag) {
            Err(e) => Err(CommandError::Input(e)),
            Ok(chunk_type) => if message.len() > u32::MAX {
                Err(CommandError::MessageTooLong)
            } else {
                Ok(png_bytes(chunks.push(ChunkView::built(chunk_type, message))))
            },
        },
    }
}

/// What `decode` gives: the payload of the first chunk with the tag `tag`, as
/// text.
pub open spec fn decoded(data: Seq<u8>, tag: Seq<u8>) -> Result<Seq<char>, CommandError> {
    match parse_png(data) {
        Err(e) => Err(CommandError::Format(e)),
        Ok(chunks) => match first_of_type(chunks, tag) {
            None => Err(CommandError::NotFound),
            Some(i) => if valid_utf8(chunks[i].data) {
                Ok(decode_utf8(chunks[i].data))
            } else {
                Err(CommandError::NotText)
            },
        },
    }
}

/// What `remove` gives: the stream without the first chunk with the tag
/// `tag`.
pub open spec fn removed(data: Seq<u8>, tag: Seq<u8>) -> Result<Seq<u8>, CommandError> {
    match parse_png(data) {
        Err(e) => Err(CommandError::Format(e)),
        Ok(chunks) => match first_of_type(chunks, tag) {
            None => Err(CommandError::NotFound),
            Some(i) => Ok(png_bytes(chunks.remove(i))),
        },
    }
}

/// What `print` gives: the listing of the chunks of the stream.
pub open spec fn printed(data: Seq<u8>) -> Result<Seq<char>, CommandError> {
    match parse_png(data) {
        Err(e) => Err(CommandError::Format(e)),
        Ok(chunks) => Ok(ascii_text(summary(chunks))),
    }
}

/// The tags of a stream that was read are letters, so they are text.
pub proof fn lemma_parsed_tags_are_text(data: Seq<u8>)
    requires
        parse_png(data) is Ok,
    ensures
        tags_are_ascii(parse_png(data)->Ok_0),
        tags_are_text(parse_png(data)->Ok_0),
{
    let chunks = parse_png(data)->Ok_0;
    lemma_decoded_round_trip(data);
    assert forall|i: int| 0 <= i < chunks.len() implies all_ascii((#[trigger] chunks[i]).chunk_type)
        && valid_utf8(chunks[i].chunk_type) by {
        let tag = chunks[i].chunk_type;
        assert(chunks[i].decodable());
        assert forall|j: int| 0 <= j < tag.len() implies #[trigger] tag[j] < 128 by {
            assert(is_letter(tag[j]));
        }
        lemma_ascii_is_utf8(tag);
    }
}

/// Hides `message` in `data`: a chunk of type `chunk_type` that holds the
/// message is added at the end of the stream.
pub fn encode(data: &[u8], chunk_type: &str, message: &str) -> (out: Result<Vec<u8>, CommandError>)
    ensures
        match out {
            Ok(bytes) => encoded(data@, chunk_type.spec_bytes(), message.spec_bytes()) == Ok::<
                Seq<u8>,
                CommandError,
            >(bytes@),
            Err(e) => encoded(data@, chunk_type.spec_bytes(), message.spec_bytes()) == Err::<
                Seq<u8>,
                CommandError,
            >(e),
        },
{
    let mut png = match Png::try_from(data) {
        Ok(png) => png,
        Err(e) => {
            return Err(CommandError::Format(e));
        },
    };
    let chunk_type = match ChunkType::from_str(chunk_type) {
        Ok(chunk_type) => chunk_type,
        Err(e) => {
            return Err(CommandError::Input(e));
        },
    };
    let payload = slice_to_vec(message.as_bytes());
    if payload.len() > u32::MAX as usize {
        return Err(CommandError::MessageTooLong);
    }
    png.append_chunk(Chunk::new(chunk_type, payload));
    Ok(png.as_bytes())
}

/// Reads the message that the first chunk of type `chunk_type` holds.
pub fn decode(data: &[u8], chunk_type: &str) -> (out: Result<String, CommandError>)
    ensures
        match out {
            Ok(text) => decoded(data@, chunk_type.spec_bytes()) == Ok::<Seq<char>, CommandError>(
                text@,
            ),
            Err(e) => decoded(data@, chunk_type.spec_bytes()) == Err::<Seq<char>, CommandError>(e),
        },
{
    let png = match Png::try_from(data) {
        Ok(png) => png,
        Err(e) => {
            return Err(CommandError::Format(e));
        },
    };
    match png.chunk_by_type(chunk_type) {
        Some(chunk) => match chunk.data_as_string() {
            Ok(text) => Ok(text),
            Err(_) => Err(CommandError::NotText),
        },
        None => Err(CommandError::NotFound),
    }
}

/// Takes the first chunk of type `chunk_type` out of the stream.
pub fn remove(data: &[u8], chunk_type: &str) -> (out: Result<Vec<u8>, CommandError>)
    ensures
        match out {
            Ok(bytes) => removed(data@, chunk_type.spec_bytes()) == Ok::<Seq<u8>, CommandError>(
                bytes@,
            ),
            Err(e) => removed(data@, chunk_type.spec_bytes()) == Err::<Seq<u8>, CommandError>(e),
        },
{
    let mut png = match Png::try_from(data) {
        Ok(png) => png,
        Err(e) => {
            return Err(CommandError::Format(e));
        },
    };
    match png.remove_first_chunk(chunk_type) {
        Ok(_) => Ok(png.as_bytes()),
        Err(_) => Err(CommandError::NotFound),
    }
}

/// Lists the chunks of the stream, one line for each.
pub fn print(data: &[u8]) -> (out: Result<String, CommandError>)
    ensures
        match out {
            Ok(text) => printed(data@) == Ok::<Seq<char>, CommandError>(text@),
            Err(e) => printed(data@) == Err::<Seq<char>, CommandError>(e),
        },
{
    let png = match Png::try_from(data) {
        Ok(png) => png,
        Err(e) => {
            return Err(CommandError::Format(e));
        },
    };
    proof {
        lemma_parsed_tags_are_text(data@);
    }
    Ok(png.to_string())
}

} // verus!
