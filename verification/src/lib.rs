//! A steganographic PNG chunk editor: chunk types, checksummed chunks and
//! the container that holds them, with exact byte-level encoding and decoding.

pub mod chunk;
pub mod chunk_type;
pub mod cli;
pub mod commands;
pub mod crc;
pub mod endian;
pub mod png;
pub mod text;
