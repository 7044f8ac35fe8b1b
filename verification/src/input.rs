//! Files that are handed in.

use crate::error;
use crate::error::{LiveError, Refusal};
use crate::text;
use vstd::prelude::*;
use vstd::string::*;

verus! {

/// A file that was named on the command line, as it was found.
#[derive(Debug)]
pub struct InputFile {
    /// The path by which it was named.
    pub path: String,
    /// What it holds, or why it could not be read.
    pub data: Result<Vec<u8>, String>,
}

/// An input file with its parts as sequences.
pub struct InputView {
    pub path: Seq<char>,
    pub data: Result<Seq<u8>, Seq<char>>,
}

impl View for InputFile {
    type V = InputView;

    open spec fn view(&self) -> InputView {
        InputView {
            path: self.path@,
            data: match self.data {
                Ok(data) => Ok(data@),
                Err(reason) => Err(reason@),
            },
        }
    }
}

/// The views of a list of input files.
pub open spec fn input_views(v: Seq<InputFile>) -> Seq<InputView> {
    v.map_values(|f: InputFile| f@)
}

impl InputView {
    /// What the file holds, or the error that stands for why it could not be
    /// read.
    pub open spec fn bytes(self) -> Result<Seq<u8>, Refusal> {
        match self.data {
            Ok(data) => Ok(data),
            Err(reason) => Err(Refusal::ReadFile { path: self.path, reason }),
        }
    }
}

/// The final component of a path, or the error for a path without one.
pub open spec fn named(path: Seq<char>) -> Result<Seq<char>, Refusal> {
    match text::file_name(path) {
        Some(name) => Ok(name),
        None => Err(Refusal::MissingFilename { path }),
    }
}

impl InputFile {
    /// A copy of what the file holds.
    pub fn bytes(&self) -> (r: Result<Vec<u8>, LiveError>)
        ensures
            error::outcome(r) == self@.bytes(),
    {
        match &self.data {
            Ok(data) => {
                let copy = data.clone();
                assert(copy@ =~= data@);
                Ok(copy)
            },
            Err(reason) => Err(
                LiveError::ReadFile { path: self.path.clone(), reason: reason.clone() },
            ),
        }
    }
}

/// The final component of a path.
pub fn filename(path: &str) -> (r: Result<String, LiveError>)
    ensures
        error::outcome(r) == named(path@),
{
    match text::path_file_name(path) {
        Some(name) => Ok(name),
        None => Err(LiveError::MissingFilename { path: path.to_owned() }),
    }
}

} // verus!
