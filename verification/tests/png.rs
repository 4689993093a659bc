use pngpong::chunk::{Chunk, ChunkError};
use pngpong::chunk_type::ChunkType;
use pngpong::png::{Png, PngError, STANDARD_HEADER};
use std::str::FromStr;

fn chunk_from_strings(chunk_type: &str, data: &str) -> Chunk {
    let chunk_type = ChunkType::from_str(chunk_type).unwrap();
    let data: Vec<u8> = data.bytes().collect();
    Chunk::new(chunk_type, data)
}

fn testing_chunks() -> Vec<Chunk> {
    vec![
        chunk_from_strings("FrSt", "I am the first chunk"),
        chunk_from_strings("miDl", "I am another chunk"),
        chunk_from_strings("LASt", "I am the last chunk"),
    ]
}

fn testing_png() -> Png {
    Png::from_chunks(testing_chunks())
}

fn testing_bytes() -> Vec<u8> {
    let mut bytes = STANDARD_HEADER.to_vec();
    for chunk in testing_chunks() {
        bytes.extend_from_slice(&chunk.as_bytes());
    }
    bytes
}

#[test]
pub fn test_standard_header() {
    assert_eq!(STANDARD_HEADER, [0x89, b'P', b'N', b'G', 0x0D, 0x0A, 0x1A, 0x0A]);
    assert_eq!(testing_png().header(), [137, 80, 78, 71, 13, 10, 26, 10]);
}

#[test]
pub fn test_from_chunks() {
    let png = testing_png();
    assert_eq!(png.chunks().len(), 3);
    assert_eq!(png.chunks()[0].chunk_type().to_string(), "FrSt");
    assert_eq!(png.chunks()[1].chunk_type().to_string(), "miDl");
    assert_eq!(png.chunks()[2].chunk_type().to_string(), "LASt");
}

#[test]
pub fn test_valid_from_bytes() {
    let png = Png::try_from(testing_bytes().as_ref()).unwrap();
    assert_eq!(png.chunks().len(), 3);
    assert_eq!(png.chunks()[0].data_as_string().unwrap(), "I am the first chunk");
    assert_eq!(png.chunks()[1].data_as_string().unwrap(), "I am another chunk");
    assert_eq!(png.chunks()[2].data_as_string().unwrap(), "I am the last chunk");
    assert_eq!(png.chunks()[0].crc(), 920434671);
    assert_eq!(png.chunks()[1].crc(), 3346321170);
    assert_eq!(png.chunks()[2].crc(), 313548900);
}

#[test]
pub fn test_signature_alone_is_a_container_without_chunks() {
    let png = Png::try_from(&STANDARD_HEADER[..]).unwrap();
    assert_eq!(png.chunks().len(), 0);
    assert_eq!(png.as_bytes(), STANDARD_HEADER.to_vec());
    assert_eq!(png.to_string(), "");
}

#[test]
pub fn test_invalid_header() {
    let mut bytes = testing_bytes();
    bytes[0] = 13;
    bytes[1] = 80;
    assert_eq!(Png::try_from(bytes.as_ref()).unwrap_err(), PngError::BadSignature);
}

#[test]
pub fn test_each_byte_of_the_header_counts() {
    for at in 0..8 {
        let mut bytes = testing_bytes();
        bytes[at] ^= 0x40;
        assert_eq!(Png::try_from(bytes.as_ref()).unwrap_err(), PngError::BadSignature);
    }
}

#[test]
pub fn test_input_shorter_than_the_header() {
    for len in 0..8 {
        assert_eq!(
            Png::try_from(&STANDARD_HEADER[..len]).unwrap_err(),
            PngError::BadSignature
        );
    }
}

#[test]
pub fn test_invalid_chunk() {
    let mut bytes = testing_bytes();
    let at = bytes.len() - 1;
    bytes[at] ^= 1;
    assert_eq!(
        Png::try_from(bytes.as_ref()).unwrap_err(),
        PngError::BadChunk(ChunkError::InvalidChecksum)
    );
}

#[test]
pub fn test_invalid_chunk_type_in_container() {
    let mut bytes = testing_bytes();
    bytes[8 + 4] = b'1';
    assert_eq!(
        Png::try_from(bytes.as_ref()).unwrap_err(),
        PngError::BadChunk(ChunkError::InvalidChunkType)
    );
}

#[test]
pub fn test_bytes_run_out_inside_a_chunk() {
    let bytes = testing_bytes();
    let first = 8 + 12 + 20;
    let second = first + 12 + 18;
    for len in 9..bytes.len() {
        let parsed = Png::try_from(&bytes[..len]);
        if len == first || len == second {
            assert_eq!(parsed.unwrap().as_bytes(), bytes[..len].to_vec());
        } else {
            assert_eq!(parsed.unwrap_err(), PngError::TruncatedInput);
        }
    }
}

#[test]
pub fn test_declared_length_exceeds_remaining_bytes() {
    let mut bytes = testing_bytes();
    let last = 8 + 12 + 20 + 12 + 18;
    bytes[last + 3] = 20;
    assert_eq!(Png::try_from(bytes.as_ref()).unwrap_err(), PngError::TruncatedInput);
}

#[test]
pub fn test_the_first_bad_chunk_decides_the_error() {
    let mut bytes = testing_bytes();
    bytes[8 + 8] ^= 1; // payload of the first chunk
    bytes.truncate(bytes.len() - 1); // and the last chunk is cut
    assert_eq!(
        Png::try_from(bytes.as_ref()).unwrap_err(),
        PngError::BadChunk(ChunkError::InvalidChecksum)
    );
}

#[test]
pub fn test_list_chunks() {
    let png = testing_png();
    let chunks = png.chunks();
    assert_eq!(chunks.len(), 3);
}

#[test]
pub fn test_chunk_by_type() {
    let png = testing_png();
    let chunk = png.chunk_by_type("FrSt").unwrap();
    assert_eq!(&chunk.chunk_type().to_string(), "FrSt");
    assert_eq!(&chunk.data_as_string().unwrap(), "I am the first chunk");
}

#[test]
pub fn test_chunk_by_type_that_is_absent_or_malformed() {
    let png = testing_png();
    assert!(png.chunk_by_type("TeSt").is_none());
    assert!(png.chunk_by_type("FrS").is_none());
    assert!(png.chunk_by_type("FrSt ").is_none());
    assert!(png.chunk_by_type("").is_none());
    assert!(png.chunk_by_type("frst").is_none());
}

#[test]
pub fn test_chunk_by_type_gives_the_first_of_several() {
    let mut png = testing_png();
    png.append_chunk(chunk_from_strings("miDl", "a second one"));
    assert_eq!(png.chunks().len(), 4);
    let chunk = png.chunk_by_type("miDl").unwrap();
    assert_eq!(chunk.data_as_string().unwrap(), "I am another chunk");
}

#[test]
pub fn test_append_chunk() {
    let mut png = testing_png();
    png.append_chunk(chunk_from_strings("TeSt", "Message"));
    let chunk = png.chunk_by_type("TeSt").unwrap();
    assert_eq!(&chunk.chunk_type().to_string(), "TeSt");
    assert_eq!(&chunk.data_as_string().unwrap(), "Message");
    assert_eq!(png.chunks().len(), 4);
    assert_eq!(png.chunks()[3].data_as_string().unwrap(), "Message");
}

#[test]
pub fn test_append_then_find() {
    let mut png = testing_png();
    let chunk = chunk_from_strings("ruSt", "this is where your secret message will be!");
    let expected = chunk.as_bytes();
    png.append_chunk(chunk);
    let found = png.chunk_by_type("ruSt").unwrap();
    assert_eq!(found.as_bytes(), expected);
    assert_eq!(found.data(), "this is where your secret message will be!".as_bytes());
    assert_eq!(found.length(), 42);
    assert_eq!(found.crc(), 1953975483);
}

#[test]
pub fn test_remove_first_chunk() {
    let mut png = testing_png();
    png.append_chunk(chunk_from_strings("TeSt", "Message"));
    let removed = png.remove_first_chunk("TeSt").unwrap();
    assert_eq!(removed.data_as_string().unwrap(), "Message");
    let chunk = png.chunk_by_type("TeSt");
    assert!(chunk.is_none());
    assert_eq!(png.as_bytes(), testing_bytes());
}

#[test]
pub fn test_remove_then_find() {
    let mut png = testing_png();
    png.append_chunk(chunk_from_strings("ruSt", "this is where your secret message will be!"));
    assert!(png.remove_first_chunk("ruSt").is_ok());
    assert!(png.chunk_by_type("ruSt").is_none());
    assert_eq!(png.remove_first_chunk("ruSt").unwrap_err(), PngError::ChunkNotFound);
    assert_eq!(png.chunks().len(), 3);
}

#[test]
pub fn test_remove_absent_type_changes_nothing() {
    let mut png = testing_png();
    assert_eq!(png.remove_first_chunk("TeSt").unwrap_err(), PngError::ChunkNotFound);
    assert_eq!(png.remove_first_chunk("miD").unwrap_err(), PngError::ChunkNotFound);
    assert_eq!(png.as_bytes(), testing_bytes());
}

#[test]
pub fn test_remove_keeps_the_order_of_the_others() {
    let mut png = testing_png();
    png.append_chunk(chunk_from_strings("miDl", "a second one"));
    let removed = png.remove_first_chunk("miDl").unwrap();
    assert_eq!(removed.data_as_string().unwrap(), "I am another chunk");
    assert_eq!(png.chunks().len(), 3);
    assert_eq!(png.chunks()[0].chunk_type().to_string(), "FrSt");
    assert_eq!(png.chunks()[1].chunk_type().to_string(), "LASt");
    assert_eq!(png.chunks()[2].data_as_string().unwrap(), "a second one");
}

#[test]
pub fn test_png_as_bytes() {
    let png = Png::try_from(testing_bytes().as_ref()).unwrap();
    assert_eq!(png.as_bytes(), testing_bytes());
    assert_eq!(testing_png().as_bytes(), testing_bytes());
    assert_eq!(&testing_bytes()[..8], &[137, 80, 78, 71, 13, 10, 26, 10]);
    assert_eq!(testing_bytes().len(), 8 + 3 * 12 + 20 + 18 + 19);
}

#[test]
pub fn test_png_round_trip() {
    let png = testing_png();
    let back = Png::try_from(png.as_bytes().as_ref()).unwrap();
    assert_eq!(back.chunks().len(), png.chunks().len());
    for (a, b) in back.chunks().iter().zip(png.chunks().iter()) {
        assert_eq!(a.chunk_type(), b.chunk_type());
        assert_eq!(a.data(), b.data());
        assert_eq!(a.crc(), b.crc());
        assert_eq!(a.length(), b.length());
    }
    assert_eq!(back.header(), png.header());
    assert_eq!(back.as_bytes(), png.as_bytes());
}

#[test]
pub fn test_png_to_string() {
    let mut png = testing_png();
    assert_eq!(
        png.to_string(),
        "FrSt: 20 bytes\nmiDl: 18 bytes\nLASt: 19 bytes\n"
    );
    png.append_chunk(Chunk::new(ChunkType::from_str("IEND").unwrap(), Vec::new()));
    assert_eq!(
        png.to_string(),
        "FrSt: 20 bytes\nmiDl: 18 bytes\nLASt: 19 bytes\nIEND: 0 bytes\n"
    );
}

#[test]
pub fn test_png_trait_impls() {
    let chunk_bytes: Vec<u8> = testing_bytes();
    let png: Png = TryFrom::try_from(chunk_bytes.as_ref()).unwrap();
    let _png_string = format!("{}", png.to_string());
}
