//! The failures of reading, parsing and generating.
use vstd::prelude::*;

verus! {

#[derive(Debug)]
pub enum PtError {
    FileNotFound(String),
    /// Reading the file failed; holds the reason.
    FileReadError(String),
    ParsingError(String),
    IncompleteParsing,
    ProtobufTypeNotFound(String),
}

} // verus!
