use pngpong::chunk::Chunk;
use pngpong::chunk_type::{ChunkType, ChunkTypeError};
use pngpong::cli::{Commands, Outcome};
use pngpong::commands::{encode, CommandError};
use pngpong::png::{Png, PngError};
use std::path::PathBuf;
use std::str::FromStr;

fn sample() -> Vec<u8> {
    let chunks = vec![Chunk::new(ChunkType::from_str("IEND").unwrap(), Vec::new())];
    Png::from_chunks(chunks).as_bytes()
}

#[test]
pub fn test_run_encode_writes_back_to_the_file() {
    let command = Commands::Encode {
        file_path: PathBuf::from("in.png"),
        chunk_type: String::from("ruSt"),
        message: String::from("hi"),
        output_path: None,
    };
    assert_eq!(command.file_path(), &PathBuf::from("in.png"));
    match command.run(&sample()).unwrap() {
        Outcome::Write { path, bytes } => {
            assert_eq!(path, PathBuf::from("in.png"));
            assert_eq!(bytes, encode(&sample(), "ruSt", "hi").unwrap());
        }
        Outcome::Show { text } => panic!("nothing to show: {}", text),
    }
}

#[test]
pub fn test_run_encode_writes_to_the_output_path() {
    let command = Commands::Encode {
        file_path: PathBuf::from("in.png"),
        chunk_type: String::from("ruSt"),
        message: String::from("hi"),
        output_path: Some(PathBuf::from("out.png")),
    };
    assert_eq!(command.file_path(), &PathBuf::from("in.png"));
    match command.run(&sample()).unwrap() {
        Outcome::Write { path, bytes } => {
            assert_eq!(path, PathBuf::from("out.png"));
            assert_eq!(bytes.len(), sample().len() + 14);
        }
        Outcome::Show { text } => panic!("nothing to show: {}", text),
    }
}

#[test]
pub fn test_run_decode_shows_the_message() {
    let data = encode(&sample(), "ruSt", "a secret").unwrap();
    let command = Commands::Decode {
        file_path: PathBuf::from("in.png"),
        chunk_type: String::from("ruSt"),
    };
    assert_eq!(command.file_path(), &PathBuf::from("in.png"));
    match command.run(&data).unwrap() {
        Outcome::Show { text } => assert_eq!(text, "a secret"),
        Outcome::Write { path, .. } => panic!("nothing to write to {:?}", path),
    }
}

#[test]
pub fn test_run_remove_writes_back_to_the_file() {
    let data = encode(&sample(), "ruSt", "a secret").unwrap();
    let command = Commands::Remove {
        file_path: PathBuf::from("in.png"),
        chunk_type: String::from("ruSt"),
    };
    assert_eq!(command.file_path(), &PathBuf::from("in.png"));
    match command.run(&data).unwrap() {
        Outcome::Write { path, bytes } => {
            assert_eq!(path, PathBuf::from("in.png"));
            assert_eq!(bytes, sample());
        }
        Outcome::Show { text } => panic!("nothing to show: {}", text),
    }
}

#[test]
pub fn test_run_print_shows_the_listing() {
    let command = Commands::Print { file_path: PathBuf::from("in.png") };
    assert_eq!(command.file_path(), &PathBuf::from("in.png"));
    match command.run(&sample()).unwrap() {
        Outcome::Show { text } => assert_eq!(text, "IEND: 0 bytes\n"),
        Outcome::Write { path, .. } => panic!("nothing to write to {:?}", path),
    }
}

#[test]
pub fn test_run_hands_errors_on() {
    let command = Commands::Decode {
        file_path: PathBuf::from("in.png"),
        chunk_type: String::from("ruSt"),
    };
    assert_eq!(command.run(&sample()).unwrap_err(), CommandError::NotFound);
    let command = Commands::Remove {
        file_path: PathBuf::from("in.png"),
        chunk_type: String::from("ruSt"),
    };
    assert_eq!(command.run(&sample()).unwrap_err(), CommandError::NotFound);
    let command = Commands::Encode {
        file_path: PathBuf::from("in.png"),
        chunk_type: String::from("ru5t"),
        message: String::from("hi"),
        output_path: None,
    };
    assert_eq!(
        command.run(&sample()).unwrap_err(),
        CommandError::Input(ChunkTypeError::InvalidByte)
    );
    let command = Commands::Print { file_path: PathBuf::from("in.png") };
    assert_eq!(
        command.run(&[]).unwrap_err(),
        CommandError::Format(PngError::BadSignature)
    );
}
