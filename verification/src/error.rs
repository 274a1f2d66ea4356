//! The errors the decoding stages return.

use vstd::prelude::*;

verus! {

/// The input text does not have the shape the format requires.
#[derive(Debug, Clone, Copy, PartialEq, Eq, Structural)]
pub enum FormatError {
    /// The URL does not begin with `irealb://`.
    MissingScheme,
    /// A song record has fewer fields than a song needs.
    MissingField,
    /// The tempo field of a song is not a decimal number that fits 32 bits.
    InvalidTempo,
    /// The chart of a song does not begin with the protocol marker.
    MissingMarker,
    /// A character that follows `%` in an escape is not a hexadecimal digit.
    InvalidHexDigit(char),
    /// The text ends inside a `%` escape.
    TruncatedEscape,
    /// No token begins at this character offset of the descrambled chart.
    UnrecognizedInput(usize),
}

/// The tokens do not describe a chart.
#[derive(Debug, Clone, Copy, PartialEq, Eq, Structural)]
pub enum SemanticError {
    /// A one-measure repeat stands where no bar has been closed yet.
    NoPriorBar,
    /// A two-measure repeat stands where fewer than two bars have been closed.
    InsufficientHistory,
}

/// Any error of the decoding pipeline.
#[derive(Debug, Clone, Copy, PartialEq, Eq, Structural)]
pub enum DecodeError {
    Format(FormatError),
    Semantic(SemanticError),
}

} // verus!
