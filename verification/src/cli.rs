//! The commands of the tool, and what each of them asks its caller to do.
//!
//! A command names the file to work on. The caller reads that file, hands
//! its bytes to `run`, and then stores or shows what comes back.

use crate::commands::{
    decode, decoded, encode, encoded, print, printed, remove, removed, CommandError,
};
use std::path::PathBuf;
use vstd::prelude::*;
use vstd::utf8::encode_utf8;

verus! {

/// A path in the file system. It is carried from the command to the outcome
/// and never looked into.
#[verifier::external_type_specification]
#[verifier::external_body]
pub struct ExPathBuf(PathBuf);

/// What the tool can be asked to do.
#[derive(Debug)]
pub enum Commands {
    /// Hide a message in a PNG file.
    Encode { file_path: PathBuf, chunk_type: String, message: String, output_path: Option<PathBuf> },
    /// Read the message hidden in a PNG file.
    Decode { file_path: PathBuf, chunk_type: String },
    /// Remove the first chunk of a type from a PNG file.
    Remove { file_path: PathBuf, chunk_type: String },
    /// List the chunks of a PNG file.
    Print { file_path: PathBuf },
}

/// What is left for the caller to do once a command has run.
#[derive(Debug)]
pub enum Outcome {
    /// Store `bytes` in the file at `path`.
    Write { path: PathBuf, bytes: Vec<u8> },
    /// Show `text`.
    Show { text: String },
}

/// What an outcome holds, as plain values.
pub enum OutcomeView {
    Write { path: PathBuf, bytes: Seq<u8> },
    Show { text: Seq<char> },
}

impl View for Outcome {
    type V = OutcomeView;

    open spec fn view(&self) -> OutcomeView {
        match *self {
            Outcome::Write { path, bytes } => OutcomeView::Write { path, bytes: bytes@ },
            Outcome::Show { text } => OutcomeView::Show { text: text@ },
        }
    }
}

/// The outcome that stores `bytes` at `path`, where there are bytes.
pub open spec fn written(path: PathBuf, bytes: Result<Seq<u8>, CommandError>) -> Result<
    OutcomeView,
    CommandError,
> {
    match bytes {
        Ok(bytes) => Ok(OutcomeView::Write { path, bytes }),
        Err(e) => Err(e),
    }
}

/// The outcome that shows `text`, where there is text.
pub open spec fn shown(text: Result<Seq<char>, CommandError>) -> Result<OutcomeView, CommandError> {
    match text {
        Ok(text) => Ok(OutcomeView::Show { text }),
        Err(e) => Err(e),
    }
}

impl Commands {
    /// The file whose bytes the command works on.
    pub open spec fn input(self) -> PathBuf {
        match self {
            Commands::Encode { file_path, .. } => file_path,
            Commands::Decode { file_path, .. } => file_path,
            Commands::Remove { file_path, .. } => file_path,
            Commands::Print { file_path } => file_path,
        }
    }

    /// What running the command on the bytes `data` of its file gives.
    /// Encoding stores its result at the output path where one is given, and
    /// in the file itself where none is; removing stores it in the file
    /// itself.
    pub open spec fn outcome(self, data: Seq<u8>) -> Result<OutcomeView, CommandError> {
        match self {
            Commands::Encode { file_path, chunk_type, message, output_path } => written(
                match output_path {
                    Some(path) => path,
                    None => file_path,
                },
                encoded(data, encode_utf8(chunk_type@), encode_utf8(message@)),
            ),
            Commands::Decode { file_path, chunk_type } => shown(
                decoded(data, encode_utf8(chunk_type@)),
            ),
            Commands::Remove { file_path, chunk_type } => written(
                file_path,
                removed(data, encode_utf8(chunk_type@)),
            ),
            Commands::Print { file_path } => shown(printed(data)),
        }
    }

    /// The file whose bytes the command works on.
    pub fn file_path(&self) -> (path: &PathBuf)
        ensures
            *path == self.input(),
    {
        match self {
            Commands::Encode { file_path, .. } => file_path,
            Commands::Decode { file_path, .. } => file_path,
            Commands::Remove { file_path, .. } => file_path,
            Commands::Print { file_path } => file_path,
        }
    }

    /// Runs the command on the bytes `data` of its file.
    pub fn run(self, data: &[u8]) -> (out: Result<Outcome, CommandError>)
        ensures
            match out {
                Ok(outcome) => self.outcome(data@) == Ok::<OutcomeView, CommandError>(outcome@),
                Err(e) => self.outcome(data@) == Err::<OutcomeView, CommandError>(e),
            },
    {
        match self {
            Commands::Encode { file_path, chunk_type, message, output_path } => {
                match encode(data, chunk_type.as_str(), message.as_str()) {
                    Ok(bytes) => Ok(
                        Outcome::Write {
                            path: match output_path {
                                Some(path) => path,
                                None => file_path,
                            },
                            bytes,
                        },
                    ),
                    Err(e) => Err(e),
                }
            },
            Commands::Decode { file_path, chunk_type } => {
                match decode(data, chunk_type.as_str()) {
                    Ok(text) => Ok(Outcome::Show { text }),
                    Err(e) => Err(e),
                }
            },
            Commands::Remove { file_path, chunk_type } => {
                match remove(data, chunk_type.as_str()) {
                    Ok(bytes) => Ok(Outcome::Write { path: file_path, bytes }),
                    Err(e) => Err(e),
                }
            },
            Commands::Print { file_path } => {
                match print(data) {
                    Ok(text) => Ok(Outcome::Show { text }),
                    Err(e) => Err(e),
                }
            },
        }
    }
}

} // verus!
