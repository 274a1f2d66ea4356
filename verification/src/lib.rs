//! Decoder and renderer for iReal Pro chord charts carried in `irealb://` URLs.
//!
//! A URL holds a collection of songs as percent-escaped text. Each song has a
//! chart: scrambled text in which notes, chord qualities, bar lines, repeat
//! signs and layout marks are written as short symbols. The library turns
//! such a URL into songs whose music can be asked for its chords, bar by bar
//! and beat by beat, and renders the music as a chart in fixed-width text.
//!
//! The work is done in stages, each a pure function of its input:
//!
//! - [`escape`] decodes the percent escapes of the URL;
//! - [`song`] parts the text into songs and fields;
//! - [`scramble`] undoes the block permutation of a chart;
//! - [`tokenize`] splits the chart into tokens;
//! - [`parse`] assembles the tokens into bars, and [`simplify`] brings tokens
//!   into a normal form that means the same;
//! - [`render`] writes the bars as text.
//!
//! [`types`] and [`chart`] hold the data, [`error`] the errors and [`text`]
//! what the stages share. Every function states what it returns over the
//! mathematical value of its arguments, and is proved to return that.

pub mod chart;
pub mod error;
pub mod escape;
pub mod parse;
pub mod render;
pub mod scramble;
pub mod simplify;
pub mod song;
pub mod text;
pub mod tokenize;
pub mod types;

pub use crate::chart::{
    Bar, BarElement, CountElement, Marker, Music, TimeSignature, WrittenBar, WrittenElement,
};
pub use crate::error::{DecodeError, FormatError, SemanticError};
pub use crate::escape::{hex_digit_value, unescape_percent};
pub use crate::parse::{parse, parse_music, Parser};
pub use crate::render::render;
pub use crate::scramble::{obfusc50, unscramble};
pub use crate::simplify::simplify;
pub use crate::song::{decode_music, parse_url, Collection, Song};
pub use crate::tokenize::{tokenize, Token, Width};
pub use crate::types::{AlteredNotes, Chord, Flavor, Note, Number};
