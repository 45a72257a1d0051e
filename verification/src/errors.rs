//! The error surface: identifier scanning errors, parse-time (tangle)
//! errors, weave-time errors, and the positioned wrapper that carries the
//! filename, line and column of a failure.

use vstd::prelude::*;

verus! {

/// Failure of the identifier scanner.
#[derive(Debug, PartialEq, Eq, Clone)]
pub enum IdExtractError {
    NoIdFound,
    ReservedCharacterUsed(char),
}

/// Failure of pattern extraction on a pattern line.
#[derive(Debug)]
pub enum PatternExtractError {
    NoPatternFound,
    RegexConstruction(regex::Error),
}

/// Parse-time (tangle) failures.
#[derive(Debug, PartialEq, Eq, Clone)]
pub enum ParseError {
    UnclosedFragment,
    CloseBeforeOpen,
    MissingId,
    IdExtractError,
    HaltWhileOpen,
}

/// Weave-time failures.
#[derive(Debug, PartialEq, Eq, Clone)]
pub enum WeaveError {
    MissingFragment(String),
    MissingId,
    IdExtractError,
    PatternExtractError,
    MetadataParseError,
    BadMetadata(String),
    UnknownProperty(String),
}

/// The mathematical content of a `WeaveError`.
pub enum WeaveErrorV {
    MissingFragment(Seq<char>),
    MissingId,
    IdExtractError,
    PatternExtractError,
    MetadataParseError,
    BadMetadata(Seq<char>),
    UnknownProperty(Seq<char>),
}

impl View for WeaveError {
    type V = WeaveErrorV;

    open spec fn view(&self) -> WeaveErrorV {
        match self {
            WeaveError::MissingFragment(id) => WeaveErrorV::MissingFragment(id@),
            WeaveError::MissingId => WeaveErrorV::MissingId,
            WeaveError::IdExtractError => WeaveErrorV::IdExtractError,
            WeaveError::PatternExtractError => WeaveErrorV::PatternExtractError,
            WeaveError::MetadataParseError => WeaveErrorV::MetadataParseError,
            WeaveError::BadMetadata(w) => WeaveErrorV::BadMetadata(w@),
            WeaveError::UnknownProperty(p) => WeaveErrorV::UnknownProperty(p@),
        }
    }
}

/// A failure positioned in its file: the error kind together with the
/// filename, 1-based line, 0-based column, and an optional human message.
#[derive(Debug, PartialEq, Eq, Clone)]
pub struct FileError<T> {
    pub err_type: T,
    pub filename: String,
    pub line: usize,
    pub col: usize,
    pub message: Option<String>,
}

} // verus!
