//! The lexer: from the descrambled text of a chart to its tokens.
//!
//! At each position the rules are tried in a fixed order and the first that
//! matches gives the token; within a rule a longer spelling is tried before
//! a shorter one that begins it. The whole text must be consumed.

use vstd::prelude::*;
use crate::error::FormatError;
use crate::text::{
    all_digits, at, decimal_of_range, decimal_value, digit_of, digit_value, from_char_range,
    is_at, is_digit, is_digit_char, to_chars,
};
use crate::types::{AlteredNotes, Chord, ChordView, Flavor, Note, Number};

verus! {

/// How much room a chord takes on the page: two beat slots or one.
#[derive(Debug, Clone, Copy, PartialEq, Eq, Hash, PartialOrd, Ord, Structural)]
pub enum Width {
    Wide,
    Narrow,
    /// Not decided yet: the chord takes the width in force where it stands.
    Unknown,
}

/// One lexical element of a chart.
#[derive(Debug, PartialEq, Eq, Hash, PartialOrd, Ord)]
pub enum Token {
    /// A chord shown above the regular chords.
    AlternateChord(Chord),
    Bar,
    Blank,
    Chord(Chord, Width),
    Coda,
    Comment(String),
    DoubleBarEnd,
    DoubleBarStart,
    EndingMeasure,
    FinalBar,
    NumberedEnding(String),
    PauseSlash,
    RepeatEnd,
    RepeatMeasure,
    BarAndRepeat,
    RepeatTwoMeasures,
    RepeatStart,
    SectionMarker(String),
    Segno,
    TimeSignature(u32, u32),
    VerticalSpace,
    Fermata,
    Squeeze,
    Unsqueeze,
    Comma,
    Space,
}

/// The mathematical value of a [`Token`].
pub enum TokenView {
    AlternateChord(ChordView),
    Bar,
    Blank,
    Chord(ChordView, Width),
    Coda,
    Comment(Seq<char>),
    DoubleBarEnd,
    DoubleBarStart,
    EndingMeasure,
    FinalBar,
    NumberedEnding(Seq<char>),
    PauseSlash,
    RepeatEnd,
    RepeatMeasure,
    BarAndRepeat,
    RepeatTwoMeasures,
    RepeatStart,
    SectionMarker(Seq<char>),
    Segno,
    TimeSignature(u32, u32),
    VerticalSpace,
    Fermata,
    Squeeze,
    Unsqueeze,
    Comma,
    Space,
}

impl View for Token {
    type V = TokenView;

    open spec fn view(&self) -> TokenView {
        match *self {
            Token::AlternateChord(c) => TokenView::AlternateChord(c@),
            Token::Bar => TokenView::Bar,
            Token::Blank => TokenView::Blank,
            Token::Chord(c, w) => TokenView::Chord(c@, w),
            Token::Coda => TokenView::Coda,
            Token::Comment(s) => TokenView::Comment(s@),
            Token::DoubleBarEnd => TokenView::DoubleBarEnd,
            Token::DoubleBarStart => TokenView::DoubleBarStart,
            Token::EndingMeasure => TokenView::EndingMeasure,
            Token::FinalBar => TokenView::FinalBar,
            Token::NumberedEnding(s) => TokenView::NumberedEnding(s@),
            Token::PauseSlash => TokenView::PauseSlash,
            Token::RepeatEnd => TokenView::RepeatEnd,
            Token::RepeatMeasure => TokenView::RepeatMeasure,
            Token::BarAndRepeat => TokenView::BarAndRepeat,
            Token::RepeatTwoMeasures => TokenView::RepeatTwoMeasures,
            Token::RepeatStart => TokenView::RepeatStart,
            Token::SectionMarker(s) => TokenView::SectionMarker(s@),
            Token::Segno => TokenView::Segno,
            Token::TimeSignature(top, bottom) => TokenView::TimeSignature(top, bottom),
            Token::VerticalSpace => TokenView::VerticalSpace,
            Token::Fermata => TokenView::Fermata,
            Token::Squeeze => TokenView::Squeeze,
            Token::Unsqueeze => TokenView::Unsqueeze,
            Token::Comma => TokenView::Comma,
            Token::Space => TokenView::Space,
        }
    }
}

impl Clone for Token {
    fn clone(&self) -> (r: Self)
        ensures
            r@ == self@,
    {
        match self {
            Token::AlternateChord(c) => Token::AlternateChord(c.clone()),
            Token::Bar => Token::Bar,
            Token::Blank => Token::Blank,
            Token::Chord(c, w) => Token::Chord(c.clone(), *w),
            Token::Coda => Token::Coda,
            Token::Comment(s) => Token::Comment(s.clone()),
            Token::DoubleBarEnd => Token::DoubleBarEnd,
            Token::DoubleBarStart => Token::DoubleBarStart,
            Token::EndingMeasure => Token::EndingMeasure,
            Token::FinalBar => Token::FinalBar,
            Token::NumberedEnding(s) => Token::NumberedEnding(s.clone()),
            Token::PauseSlash => Token::PauseSlash,
            Token::RepeatEnd => Token::RepeatEnd,
            Token::RepeatMeasure => Token::RepeatMeasure,
            Token::BarAndRepeat => Token::BarAndRepeat,
            Token::RepeatTwoMeasures => Token::RepeatTwoMeasures,
            Token::RepeatStart => Token::RepeatStart,
            Token::SectionMarker(s) => Token::SectionMarker(s.clone()),
            Token::Segno => Token::Segno,
            Token::TimeSignature(top, bottom) => Token::TimeSignature(*top, *bottom),
            Token::VerticalSpace => Token::VerticalSpace,
            Token::Fermata => Token::Fermata,
            Token::Squeeze => Token::Squeeze,
            Token::Unsqueeze => Token::Unsqueeze,
            Token::Comma => Token::Comma,
            Token::Space => Token::Space,
        }
    }
}

/// The views of a sequence of tokens, element by element.
pub open spec fn token_views(tokens: Seq<Token>) -> Seq<TokenView> {
    tokens.map_values(|t: Token| t@)
}

/// The note spelled at position `i`, with the position after it. A spelling
/// of two characters is taken before the one-character spelling it begins
/// with.
pub open spec fn note_at(s: Seq<char>, i: int) -> Option<(Note, int)> {
    if at(s, i, 'A') {
        if at(s, i + 1, 'b') {
            Some((Note::AFlat, i + 2))
        } else if at(s, i + 1, '#') {
            Some((Note::ASharp, i + 2))
        } else {
            Some((Note::A, i + 1))
        }
    } else if at(s, i, 'B') {
        if at(s, i + 1, 'b') {
            Some((Note::BFlat, i + 2))
        } else {
            Some((Note::B, i + 1))
        }
    } else if at(s, i, 'C') {
        if at(s, i + 1, 'b') {
            Some((Note::CFlat, i + 2))
        } else if at(s, i + 1, '#') {
            Some((Note::CSharp, i + 2))
        } else {
            Some((Note::C, i + 1))
        }
    } else if at(s, i, 'D') {
        if at(s, i + 1, 'b') {
            Some((Note::DFlat, i + 2))
        } else if at(s, i + 1, '#') {
            Some((Note::DSharp, i + 2))
        } else {
            Some((Note::D, i + 1))
        }
    } else if at(s, i, 'E') {
        if at(s, i + 1, 'b') {
            Some((Note::EFlat, i + 2))
        } else {
            Some((Note::E, i + 1))
        }
    } else if at(s, i, 'F') {
        if at(s, i + 1, '#') {
            Some((Note::FSharp, i + 2))
        } else {
            Some((Note::F, i + 1))
        }
    } else if at(s, i, 'G') {
        if at(s, i + 1, 'b') {
            Some((Note::GFlat, i + 2))
        } else if at(s, i + 1, '#') {
            Some((Note::GSharp, i + 2))
        } else {
            Some((Note::G, i + 1))
        }
    } else if at(s, i, 'W') {
        Some((Note::W, i + 1))
    } else {
        None
    }
}

/// The extension number written at position `i`, with the position after it.
pub open spec fn number_at(s: Seq<char>, i: int) -> Option<(Number, int)> {
    if at(s, i, '2') {
        Some((Number::Two, i + 1))
    } else if at(s, i, '3') {
        Some((Number::Three, i + 1))
    } else if at(s, i, '5') {
        Some((Number::Five, i + 1))
    } else if at(s, i, '6') {
        Some((Number::Six, i + 1))
    } else if at(s, i, '7') {
        Some((Number::Seven, i + 1))
    } else if at(s, i, '9') {
        Some((Number::Nine, i + 1))
    } else if at(s, i, '1') && at(s, i + 1, '1') {
        Some((Number::Eleven, i + 2))
    } else if at(s, i, '1') && at(s, i + 1, '3') {
        Some((Number::Thirteen, i + 2))
    } else {
        None
    }
}

/// The extension number at position `i` if one is written there, and the
/// position after it; otherwise no number and `i` itself.
pub open spec fn extension_at(s: Seq<char>, i: int) -> (Option<Number>, int) {
    match number_at(s, i) {
        Some((n, j)) => (Some(n), j),
        None => (None, i),
    }
}

/// The chord quality written at position `i`, with the position after it.
/// The tags `69` and `-69` come first, then `-^` before `-` and `o^` before
/// `o`; where no tag stands, the quality is dominant with the extension
/// written there, if any. Every position has a quality.
pub open spec fn flavor_at(s: Seq<char>, i: int) -> (Flavor, int) {
    if at(s, i, '6') && at(s, i + 1, '9') {
        (Flavor::SixthNinth, i + 2)
    } else if at(s, i, '-') && at(s, i + 1, '6') && at(s, i + 2, '9') {
        (Flavor::MinorSixthNinth, i + 3)
    } else if at(s, i, '-') && at(s, i + 1, '^') {
        (Flavor::MinorMajor(extension_at(s, i + 2).0), extension_at(s, i + 2).1)
    } else if at(s, i, '-') {
        (Flavor::Minor(extension_at(s, i + 1).0), extension_at(s, i + 1).1)
    } else if at(s, i, '^') {
        (Flavor::Major(extension_at(s, i + 1).0), extension_at(s, i + 1).1)
    } else if at(s, i, 'h') {
        (Flavor::HalfDiminished(extension_at(s, i + 1).0), extension_at(s, i + 1).1)
    } else if at(s, i, 'o') && at(s, i + 1, '^') {
        (Flavor::DiminishedMajor(extension_at(s, i + 2).0), extension_at(s, i + 2).1)
    } else if at(s, i, 'o') {
        (Flavor::Diminished(extension_at(s, i + 1).0), extension_at(s, i + 1).1)
    } else if at(s, i, '+') {
        (Flavor::Augmented(extension_at(s, i + 1).0), extension_at(s, i + 1).1)
    } else {
        (Flavor::Dominant(extension_at(s, i).0), extension_at(s, i).1)
    }
}

/// The alteration written at position `i`, with the position after it:
/// `b`, `#` or `add` before a number, `sus`, or `alt`.
pub open spec fn alteration_at(s: Seq<char>, i: int) -> Option<(AlteredNotes, int)> {
    if at(s, i, 'b') && number_at(s, i + 1) is Some {
        let (n, j) = number_at(s, i + 1).unwrap();
        Some((AlteredNotes::Flat(n), j))
    } else if at(s, i, '#') && number_at(s, i + 1) is Some {
        let (n, j) = number_at(s, i + 1).unwrap();
        Some((AlteredNotes::Sharp(n), j))
    } else if at(s, i, 'a') && at(s, i + 1, 'd') && at(s, i + 2, 'd') && number_at(s, i + 3)
        is Some {
        let (n, j) = number_at(s, i + 3).unwrap();
        Some((AlteredNotes::Add(n), j))
    } else if at(s, i, 's') && at(s, i + 1, 'u') && at(s, i + 2, 's') {
        Some((AlteredNotes::Sus, i + 3))
    } else if at(s, i, 'a') && at(s, i + 1, 'l') && at(s, i + 2, 't') {
        Some((AlteredNotes::Alt, i + 3))
    } else {
        None
    }
}

/// The alterations written one after another from position `i` on, as many
/// as there are, with the position after the last.
pub open spec fn alterations_at(s: Seq<char>, i: int) -> (Seq<AlteredNotes>, int)
    decreases s.len() - i,
{
    match alteration_at(s, i) {
        Some((a, j)) => (seq![a] + alterations_at(s, j).0, alterations_at(s, j).1),
        None => (Seq::empty(), i),
    }
}

/// The bass note written at position `i` after a slash, with the position
/// after it; no bass note and `i` itself where no slash and note stand.
pub open spec fn bass_at(s: Seq<char>, i: int) -> (Option<Note>, int) {
    if at(s, i, '/') && note_at(s, i + 1) is Some {
        let (n, j) = note_at(s, i + 1).unwrap();
        (Some(n), j)
    } else {
        (None, i)
    }
}

/// The chord written at position `i`, with the position after it: `n` for
/// no chord, or a note, a quality, alterations and a bass note.
pub open spec fn chord_at(s: Seq<char>, i: int) -> Option<(ChordView, int)> {
    if at(s, i, 'n') {
        Some((ChordView::NC, i + 1))
    } else {
        match note_at(s, i) {
            None => None,
            Some((root, j)) => {
                let (flavor, k) = flavor_at(s, j);
                let (altered_notes, l) = alterations_at(s, k);
                let (bass_note, m) = bass_at(s, l);
                Some((ChordView::Named { root, flavor, altered_notes, bass_note }, m))
            },
        }
    }
}

/// The bar line written at position `i`, with the position after it.
pub open spec fn bar_line_at(s: Seq<char>, i: int) -> Option<(TokenView, int)> {
    if at(s, i, '|') && at(s, i + 1, '|') {
        Some((TokenView::Bar, i + 2))
    } else if at(s, i, '|') {
        Some((TokenView::Bar, i + 1))
    } else if at(s, i, '[') {
        Some((TokenView::DoubleBarStart, i + 1))
    } else if at(s, i, ']') {
        Some((TokenView::DoubleBarEnd, i + 1))
    } else if at(s, i, 'Z') {
        Some((TokenView::FinalBar, i + 1))
    } else if at(s, i, 'K') && at(s, i + 1, 'c') && at(s, i + 2, 'l') {
        Some((TokenView::BarAndRepeat, i + 3))
    } else if at(s, i, 'L') && at(s, i + 1, 'Z') && at(s, i + 2, '|') {
        Some((TokenView::Bar, i + 3))
    } else if at(s, i, 'L') && at(s, i + 1, 'Z') {
        Some((TokenView::Bar, i + 2))
    } else {
        None
    }
}

/// The control glyph written at position `i`, with the position after it.
pub open spec fn control_at(s: Seq<char>, i: int) -> Option<(TokenView, int)> {
    if at(s, i, '{') {
        Some((TokenView::RepeatStart, i + 1))
    } else if at(s, i, '}') && at(s, i + 1, '|') {
        Some((TokenView::RepeatEnd, i + 2))
    } else if at(s, i, '}') {
        Some((TokenView::RepeatEnd, i + 1))
    } else if at(s, i, ',') {
        Some((TokenView::Comma, i + 1))
    } else if at(s, i, 'X') && at(s, i + 1, 'y') && at(s, i + 2, 'Q') {
        Some((TokenView::Blank, i + 3))
    } else if at(s, i, 'r') && at(s, i + 1, '|') {
        Some((TokenView::RepeatTwoMeasures, i + 2))
    } else if at(s, i, 'x') {
        Some((TokenView::RepeatMeasure, i + 1))
    } else if at(s, i, 's') {
        Some((TokenView::Squeeze, i + 1))
    } else if at(s, i, 'Q') {
        Some((TokenView::Coda, i + 1))
    } else if at(s, i, 'S') {
        Some((TokenView::Segno, i + 1))
    } else if at(s, i, 'Y') {
        Some((TokenView::VerticalSpace, i + 1))
    } else if at(s, i, 'p') {
        Some((TokenView::PauseSlash, i + 1))
    } else if at(s, i, 'U') {
        Some((TokenView::EndingMeasure, i + 1))
    } else if at(s, i, 'l') {
        Some((TokenView::Unsqueeze, i + 1))
    } else if at(s, i, 'f') {
        Some((TokenView::Fermata, i + 1))
    } else if at(s, i, ' ') {
        Some((TokenView::Space, i + 1))
    } else {
        None
    }
}

/// The first position from `i` on that holds `c`.
pub open spec fn find_from(s: Seq<char>, i: int, c: char) -> Option<int>
    decreases s.len() - i,
{
    if i < 0 || i >= s.len() {
        None
    } else if s[i] == c {
        Some(i)
    } else {
        find_from(s, i + 1, c)
    }
}

/// The comment written at position `i`, with the position after it: `<`,
/// the text up to the next `>`, and that `>`.
pub open spec fn comment_at(s: Seq<char>, i: int) -> Option<(TokenView, int)> {
    if at(s, i, '<') {
        match find_from(s, i + 1, '>') {
            Some(j) => Some((TokenView::Comment(s.subrange(i + 1, j)), j + 1)),
            None => None,
        }
    } else {
        None
    }
}

/// The alternate chord written at position `i`, with the position after it:
/// a chord between round brackets.
pub open spec fn alternate_at(s: Seq<char>, i: int) -> Option<(TokenView, int)> {
    if at(s, i, '(') {
        match chord_at(s, i + 1) {
            Some((c, j)) => if at(s, j, ')') {
                Some((TokenView::AlternateChord(c), j + 1))
            } else {
                None
            },
            None => None,
        }
    } else {
        None
    }
}

/// The section marker written at position `i`, with the position after it:
/// `*` and one character, the label.
pub open spec fn section_marker_at(s: Seq<char>, i: int) -> Option<(TokenView, int)> {
    if at(s, i, '*') && i + 1 < s.len() {
        Some((TokenView::SectionMarker(seq![s[i + 1]]), i + 2))
    } else {
        None
    }
}

/// The numbered ending written at position `i`, with the position after it:
/// `N` and one character, the label.
pub open spec fn numbered_ending_at(s: Seq<char>, i: int) -> Option<(TokenView, int)> {
    if at(s, i, 'N') && i + 1 < s.len() {
        Some((TokenView::NumberedEnding(seq![s[i + 1]]), i + 2))
    } else {
        None
    }
}

/// The position after the decimal digits that stand one after another from
/// position `i` on; `i` itself where no digit stands.
pub open spec fn digits_end(s: Seq<char>, i: int) -> int
    decreases s.len() - i,
{
    if 0 <= i < s.len() && is_digit(s[i]) {
        digits_end(s, i + 1)
    } else {
        i
    }
}

/// The time signature written at position `i`, with the position after it:
/// `T` and at least two digits, of which the last is the lower number and
/// those before it write the upper number, which must fit 32 bits.
pub open spec fn time_signature_at(s: Seq<char>, i: int) -> Option<(TokenView, int)> {
    let end = digits_end(s, i + 1);
    if at(s, i, 'T') && end >= i + 3 && decimal_value(s.subrange(i + 1, end - 1)) <= u32::MAX {
        Some(
            (
                TokenView::TimeSignature(
                    decimal_value(s.subrange(i + 1, end - 1)) as u32,
                    digit_value(s[end - 1]) as u32,
                ),
                end,
            ),
        )
    } else {
        None
    }
}

/// The token that begins at position `i`, with the position after it. The
/// rules are tried in this order: chord, bar line, control glyph, comment,
/// alternate chord, section marker, numbered ending, time signature.
pub open spec fn token_at(s: Seq<char>, i: int) -> Option<(TokenView, int)> {
    if chord_at(s, i) is Some {
        let (c, j) = chord_at(s, i).unwrap();
        Some((TokenView::Chord(c, Width::Unknown), j))
    } else if bar_line_at(s, i) is Some {
        bar_line_at(s, i)
    } else if control_at(s, i) is Some {
        control_at(s, i)
    } else if comment_at(s, i) is Some {
        comment_at(s, i)
    } else if alternate_at(s, i) is Some {
        alternate_at(s, i)
    } else if section_marker_at(s, i) is Some {
        section_marker_at(s, i)
    } else if numbered_ending_at(s, i) is Some {
        numbered_ending_at(s, i)
    } else {
        time_signature_at(s, i)
    }
}

/// The tokens that stand one after another from position `i` on, as many as
/// there are, with the position where no further token begins.
pub open spec fn tokens_from(s: Seq<char>, i: int) -> (Seq<TokenView>, int)
    decreases s.len() - i,
{
    match token_at(s, i) {
        Some((t, j)) => {
            proof {
                lemma_token_extent(s, i);
            }
            (seq![t] + tokens_from(s, j).0, tokens_from(s, j).1)
        },
        None => (Seq::empty(), i),
    }
}

/// The tokens of the whole text `s`; where some position is reached at which
/// no token begins, the error that names that position.
pub open spec fn lex(s: Seq<char>) -> Result<Seq<TokenView>, FormatError> {
    let (tokens, end) = tokens_from(s, 0);
    if end == s.len() {
        Ok(tokens)
    } else {
        Err(FormatError::UnrecognizedInput(end as usize))
    }
}


/// The alterations read from any position end inside the text, at or after
/// that position.
pub proof fn lemma_alterations_end(s: Seq<char>, i: int)
    requires
        0 <= i <= s.len(),
    ensures
        i <= alterations_at(s, i).1 <= s.len(),
    decreases s.len() - i,
{
    match alteration_at(s, i) {
        Some((a, j)) => lemma_alterations_end(s, j),
        None => {},
    }
}

/// A character found from `i` on stands at or after `i`, inside the text,
/// and no position between holds it.
pub proof fn lemma_find_from(s: Seq<char>, i: int, c: char)
    requires
        0 <= i,
    ensures
        match find_from(s, i, c) {
            Some(j) => i <= j < s.len() && s[j] == c && forall|k: int| i <= k < j ==> s[k] != c,
            None => forall|k: int| i <= k < s.len() ==> s[k] != c,
        },
    decreases s.len() - i,
{
    if i < s.len() && s[i] != c {
        lemma_find_from(s, i + 1, c);
    }
}

/// The digits that begin at `i` end inside the text, at or after `i`; all
/// the characters between are digits, and the one that follows is not.
pub proof fn lemma_digits_end(s: Seq<char>, i: int)
    requires
        0 <= i <= s.len(),
    ensures
        i <= digits_end(s, i) <= s.len(),
        all_digits(s.subrange(i, digits_end(s, i))),
        digits_end(s, i) < s.len() ==> !is_digit(s[digits_end(s, i)]),
    decreases s.len() - i,
{
    if i < s.len() && is_digit(s[i]) {
        lemma_digits_end(s, i + 1);
        let e = digits_end(s, i);
        assert forall|k: int| 0 <= k < e - i implies is_digit(#[trigger] s.subrange(i, e)[k]) by {
            if k > 0 {
                assert(s.subrange(i, e)[k] == s.subrange(i + 1, e)[k - 1]);
            }
        }
    }
}

/// Every token begins inside the text, is at least one character long and
/// ends inside the text.
pub proof fn lemma_token_extent(s: Seq<char>, i: int)
    ensures
        token_at(s, i) matches Some((t, j)) ==> 0 <= i < j <= s.len(),
{
    if chord_at(s, i) is Some {
        lemma_chord_extent(s, i);
    } else if bar_line_at(s, i) is Some {
    } else if control_at(s, i) is Some {
    } else if comment_at(s, i) is Some {
        lemma_find_from(s, i + 1, '>');
    } else if alternate_at(s, i) is Some {
        lemma_chord_extent(s, i + 1);
    } else if section_marker_at(s, i) is Some {
    } else if numbered_ending_at(s, i) is Some {
    } else if time_signature_at(s, i) is Some {
        lemma_digits_end(s, i + 1);
    }
}

/// Every chord begins inside the text, is at least one character long and
/// ends inside the text.
pub proof fn lemma_chord_extent(s: Seq<char>, i: int)
    ensures
        chord_at(s, i) matches Some((c, j)) ==> 0 <= i < j <= s.len(),
{
    if !at(s, i, 'n') {
        match note_at(s, i) {
            None => {},
            Some((root, j)) => {
                let (flavor, k) = flavor_at(s, j);
                lemma_alterations_end(s, k);
            },
        }
    }
}

/// Reads a note at position `i`.
fn lex_note(s: &Vec<char>, i: usize) -> (r: Option<(Note, usize)>)
    requires
        i <= s.len(),
    ensures
        match r {
            Some((n, j)) => note_at(s@, i as int) == Some((n, j as int)) && i < j <= s.len(),
            None => note_at(s@, i as int) is None,
        },
{
    if is_at(s, i, 'A') {
        if is_at(s, i + 1, 'b') {
            Some((Note::AFlat, i + 2))
        } else if is_at(s, i + 1, '#') {
            Some((Note::ASharp, i + 2))
        } else {
            Some((Note::A, i + 1))
        }
    } else if is_at(s, i, 'B') {
        if is_at(s, i + 1, 'b') {
            Some((Note::BFlat, i + 2))
        } else {
            Some((Note::B, i + 1))
        }
    } else if is_at(s, i, 'C') {
        if is_at(s, i + 1, 'b') {
            Some((Note::CFlat, i + 2))
        } else if is_at(s, i + 1, '#') {
            Some((Note::CSharp, i + 2))
        } else {
            Some((Note::C, i + 1))
        }
    } else if is_at(s, i, 'D') {
        if is_at(s, i + 1, 'b') {
            Some((Note::DFlat, i + 2))
        } else if is_at(s, i + 1, '#') {
            Some((Note::DSharp, i + 2))
        } else {
            Some((Note::D, i + 1))
        }
    } else if is_at(s, i, 'E') {
        if is_at(s, i + 1, 'b') {
            Some((Note::EFlat, i + 2))
        } else {
            Some((Note::E, i + 1))
        }
    } else if is_at(s, i, 'F') {
        if is_at(s, i + 1, '#') {
            Some((Note::FSharp, i + 2))
        } else {
            Some((Note::F, i + 1))
        }
    } else if is_at(s, i, 'G') {
        if is_at(s, i + 1, 'b') {
            Some((Note::GFlat, i + 2))
        } else if is_at(s, i + 1, '#') {
            Some((Note::GSharp, i + 2))
        } else {
            Some((Note::G, i + 1))
        }
    } else if is_at(s, i, 'W') {
        Some((Note::W, i + 1))
    } else {
        None
    }
}

/// Reads an extension number at position `i`.
fn lex_number(s: &Vec<char>, i: usize) -> (r: Option<(Number, usize)>)
    requires
        i <= s.len(),
    ensures
        match r {
            Some((n, j)) => number_at(s@, i as int) == Some((n, j as int)) && i < j <= s.len(),
            None => number_at(s@, i as int) is None,
        },
{
    if is_at(s, i, '2') {
        Some((Number::Two, i + 1))
    } else if is_at(s, i, '3') {
        Some((Number::Three, i + 1))
    } else if is_at(s, i, '5') {
        Some((Number::Five, i + 1))
    } else if is_at(s, i, '6') {
        Some((Number::Six, i + 1))
    } else if is_at(s, i, '7') {
        Some((Number::Seven, i + 1))
    } else if is_at(s, i, '9') {
        Some((Number::Nine, i + 1))
    } else if is_at(s, i, '1') && is_at(s, i + 1, '1') {
        Some((Number::Eleven, i + 2))
    } else if is_at(s, i, '1') && is_at(s, i + 1, '3') {
        Some((Number::Thirteen, i + 2))
    } else {
        None
    }
}

/// Reads an extension number at position `i` if one is written there.
fn lex_extension(s: &Vec<char>, i: usize) -> (r: (Option<Number>, usize))
    requires
        i <= s.len(),
    ensures
        extension_at(s@, i as int) == (r.0, r.1 as int),
        i <= r.1 <= s.len(),
{
    match lex_number(s, i) {
        Some((n, j)) => (Some(n), j),
        None => (None, i),
    }
}

/// Reads the chord quality at position `i`.
fn lex_flavor(s: &Vec<char>, i: usize) -> (r: (Flavor, usize))
    requires
        i <= s.len(),
    ensures
        flavor_at(s@, i as int) == (r.0, r.1 as int),
        i <= r.1 <= s.len(),
{
    if is_at(s, i, '6') && is_at(s, i + 1, '9') {
        (Flavor::SixthNinth, i + 2)
    } else if is_at(s, i, '-') && is_at(s, i + 1, '6') && is_at(s, i + 2, '9') {
        (Flavor::MinorSixthNinth, i + 3)
    } else if is_at(s, i, '-') && is_at(s, i + 1, '^') {
        let (n, j) = lex_extension(s, i + 2);
        (Flavor::MinorMajor(n), j)
    } else if is_at(s, i, '-') {
        let (n, j) = lex_extension(s, i + 1);
        (Flavor::Minor(n), j)
    } else if is_at(s, i, '^') {
        let (n, j) = lex_extension(s, i + 1);
        (Flavor::Major(n), j)
    } else if is_at(s, i, 'h') {
        let (n, j) = lex_extension(s, i + 1);
        (Flavor::HalfDiminished(n), j)
    } else if is_at(s, i, 'o') && is_at(s, i + 1, '^') {
        let (n, j) = lex_extension(s, i + 2);
        (Flavor::DiminishedMajor(n), j)
    } else if is_at(s, i, 'o') {
        let (n, j) = lex_extension(s, i + 1);
        (Flavor::Diminished(n), j)
    } else if is_at(s, i, '+') {
        let (n, j) = lex_extension(s, i + 1);
        (Flavor::Augmented(n), j)
    } else {
        let (n, j) = lex_extension(s, i);
        (Flavor::Dominant(n), j)
    }
}

/// Reads one alteration at position `i`.
fn lex_alteration(s: &Vec<char>, i: usize) -> (r: Option<(AlteredNotes, usize)>)
    requires
        i <= s.len(),
    ensures
        match r {
            Some((a, j)) => alteration_at(s@, i as int) == Some((a, j as int)) && i < j
                <= s.len(),
            None => alteration_at(s@, i as int) is None,
        },
{
    if is_at(s, i, 'b') {
        match lex_number(s, i + 1) {
            Some((n, j)) => Some((AlteredNotes::Flat(n), j)),
            None => None,
        }
    } else if is_at(s, i, '#') {
        match lex_number(s, i + 1) {
            Some((n, j)) => Some((AlteredNotes::Sharp(n), j)),
            None => None,
        }
    } else if is_at(s, i, 'a') && is_at(s, i + 1, 'd') && is_at(s, i + 2, 'd') {
        match lex_number(s, i + 3) {
            Some((n, j)) => Some((AlteredNotes::Add(n), j)),
            None => None,
        }
    } else if is_at(s, i, 's') && is_at(s, i + 1, 'u') && is_at(s, i + 2, 's') {
        Some((AlteredNotes::Sus, i + 3))
    } else if is_at(s, i, 'a') && is_at(s, i + 1, 'l') && is_at(s, i + 2, 't') {
        Some((AlteredNotes::Alt, i + 3))
    } else {
        None
    }
}

/// Reads the alterations that stand one after another from position `i` on.
fn lex_alterations(s: &Vec<char>, i: usize) -> (r: (Vec<AlteredNotes>, usize))
    requires
        i <= s.len(),
    ensures
        alterations_at(s@, i as int) == (r.0@, r.1 as int),
        i <= r.1 <= s.len(),
{
    let mut found: Vec<AlteredNotes> = Vec::new();
    let mut j: usize = i;
    let mut more = true;
    assert(found@ + alterations_at(s@, i as int).0 =~= alterations_at(s@, i as int).0);
    while more
        invariant
            i <= j <= s.len(),
            alterations_at(s@, i as int).0 == found@ + alterations_at(s@, j as int).0,
            alterations_at(s@, i as int).1 == alterations_at(s@, j as int).1,
            !more ==> alteration_at(s@, j as int) is None,
        decreases s.len() - j, more as int,
    {
        match lex_alteration(s, j) {
            Some((a, k)) => {
                let ghost before = found@;
                found.push(a);
                assert(before + (seq![a] + alterations_at(s@, k as int).0) =~= found@
                    + alterations_at(s@, k as int).0);
                j = k;
            },
            None => {
                more = false;
            },
        }
    }
    assert(found@ + Seq::<AlteredNotes>::empty() =~= found@);
    (found, j)
}

/// Reads a slash and a bass note at position `i` if they are written there.
fn lex_bass(s: &Vec<char>, i: usize) -> (r: (Option<Note>, usize))
    requires
        i <= s.len(),
    ensures
        bass_at(s@, i as int) == (r.0, r.1 as int),
        i <= r.1 <= s.len(),
{
    if is_at(s, i, '/') {
        match lex_note(s, i + 1) {
            Some((n, j)) => (Some(n), j),
            None => (None, i),
        }
    } else {
        (None, i)
    }
}

/// Reads a chord at position `i`.
fn lex_chord(s: &Vec<char>, i: usize) -> (r: Option<(Chord, usize)>)
    requires
        i <= s.len(),
    ensures
        match r {
            Some((c, j)) => chord_at(s@, i as int) == Some((c@, j as int)) && i < j <= s.len(),
            None => chord_at(s@, i as int) is None,
        },
{
    if is_at(s, i, 'n') {
        Some((Chord::NC, i + 1))
    } else {
        match lex_note(s, i) {
            None => None,
            Some((root, j)) => {
                let (flavor, k) = lex_flavor(s, j);
                let (altered_notes, l) = lex_alterations(s, k);
                let (bass_note, m) = lex_bass(s, l);
                Some((Chord::Named { root, flavor, altered_notes, bass_note }, m))
            },
        }
    }
}

/// Reads a bar line at position `i`.
fn lex_bar_line(s: &Vec<char>, i: usize) -> (r: Option<(Token, usize)>)
    requires
        i <= s.len(),
    ensures
        match r {
            Some((t, j)) => bar_line_at(s@, i as int) == Some((t@, j as int)) && i < j
                <= s.len(),
            None => bar_line_at(s@, i as int) is None,
        },
{
    if is_at(s, i, '|') && is_at(s, i + 1, '|') {
        Some((Token::Bar, i + 2))
    } else if is_at(s, i, '|') {
        Some((Token::Bar, i + 1))
    } else if is_at(s, i, '[') {
        Some((Token::DoubleBarStart, i + 1))
    } else if is_at(s, i, ']') {
        Some((Token::DoubleBarEnd, i + 1))
    } else if is_at(s, i, 'Z') {
        Some((Token::FinalBar, i + 1))
    } else if is_at(s, i, 'K') && is_at(s, i + 1, 'c') && is_at(s, i + 2, 'l') {
        Some((Token::BarAndRepeat, i + 3))
    } else if is_at(s, i, 'L') && is_at(s, i + 1, 'Z') && is_at(s, i + 2, '|') {
        Some((Token::Bar, i + 3))
    } else if is_at(s, i, 'L') && is_at(s, i + 1, 'Z') {
        Some((Token::Bar, i + 2))
    } else {
        None
    }
}

/// Reads a control glyph at position `i`.
fn lex_control(s: &Vec<char>, i: usize) -> (r: Option<(Token, usize)>)
    requires
        i <= s.len(),
    ensures
        match r {
            Some((t, j)) => control_at(s@, i as int) == Some((t@, j as int)) && i < j
                <= s.len(),
            None => control_at(s@, i as int) is None,
        },
{
    if is_at(s, i, '{') {
        Some((Token::RepeatStart, i + 1))
    } else if is_at(s, i, '}') && is_at(s, i + 1, '|') {
        Some((Token::RepeatEnd, i + 2))
    } else if is_at(s, i, '}') {
        Some((Token::RepeatEnd, i + 1))
    } else if is_at(s, i, ',') {
        Some((Token::Comma, i + 1))
    } else if is_at(s, i, 'X') && is_at(s, i + 1, 'y') && is_at(s, i + 2, 'Q') {
        Some((Token::Blank, i + 3))
    } else if is_at(s, i, 'r') && is_at(s, i + 1, '|') {
        Some((Token::RepeatTwoMeasures, i + 2))
    } else if is_at(s, i, 'x') {
        Some((Token::RepeatMeasure, i + 1))
    } else if is_at(s, i, 's') {
        Some((Token::Squeeze, i + 1))
    } else if is_at(s, i, 'Q') {
        Some((Token::Coda, i + 1))
    } else if is_at(s, i, 'S') {
        Some((Token::Segno, i + 1))
    } else if is_at(s, i, 'Y') {
        Some((Token::VerticalSpace, i + 1))
    } else if is_at(s, i, 'p') {
        Some((Token::PauseSlash, i + 1))
    } else if is_at(s, i, 'U') {
        Some((Token::EndingMeasure, i + 1))
    } else if is_at(s, i, 'l') {
        Some((Token::Unsqueeze, i + 1))
    } else if is_at(s, i, 'f') {
        Some((Token::Fermata, i + 1))
    } else if is_at(s, i, ' ') {
        Some((Token::Space, i + 1))
    } else {
        None
    }
}

/// The first position from `i` on that holds `c`.
fn find_char(s: &Vec<char>, i: usize, c: char) -> (r: Option<usize>)
    requires
        i <= s.len(),
    ensures
        match r {
            Some(j) => find_from(s@, i as int, c) == Some(j as int) && i <= j < s.len(),
            None => find_from(s@, i as int, c) is None,
        },
{
    let mut j: usize = i;
    while j < s.len()
        invariant
            i <= j <= s.len(),
            find_from(s@, i as int, c) == find_from(s@, j as int, c),
        decreases s.len() - j,
    {
        if s[j] == c {
            return Some(j);
        }
        j += 1;
    }
    None
}

/// Reads a comment at position `i`.
fn lex_comment(s: &Vec<char>, i: usize) -> (r: Option<(Token, usize)>)
    requires
        i <= s.len(),
    ensures
        match r {
            Some((t, j)) => comment_at(s@, i as int) == Some((t@, j as int)) && i < j
                <= s.len(),
            None => comment_at(s@, i as int) is None,
        },
{
    if is_at(s, i, '<') {
        match find_char(s, i + 1, '>') {
            Some(j) => Some((Token::Comment(from_char_range(s, i + 1, j)), j + 1)),
            None => None,
        }
    } else {
        None
    }
}

/// Reads an alternate chord at position `i`.
fn lex_alternate(s: &Vec<char>, i: usize) -> (r: Option<(Token, usize)>)
    requires
        i <= s.len(),
    ensures
        match r {
            Some((t, j)) => alternate_at(s@, i as int) == Some((t@, j as int)) && i < j
                <= s.len(),
            None => alternate_at(s@, i as int) is None,
        },
{
    if is_at(s, i, '(') {
        match lex_chord(s, i + 1) {
            Some((c, j)) => {
                if is_at(s, j, ')') {
                    Some((Token::AlternateChord(c), j + 1))
                } else {
                    None
                }
            },
            None => None,
        }
    } else {
        None
    }
}

/// Reads a section marker at position `i`.
fn lex_section_marker(s: &Vec<char>, i: usize) -> (r: Option<(Token, usize)>)
    requires
        i <= s.len(),
    ensures
        match r {
            Some((t, j)) => section_marker_at(s@, i as int) == Some((t@, j as int)) && i < j
                <= s.len(),
            None => section_marker_at(s@, i as int) is None,
        },
{
    if is_at(s, i, '*') && i + 1 < s.len() {
        let label = from_char_range(s, i + 1, i + 2);
        assert(label@ =~= seq![s@[i + 1]]);
        Some((Token::SectionMarker(label), i + 2))
    } else {
        None
    }
}

/// Reads a numbered ending at position `i`.
fn lex_numbered_ending(s: &Vec<char>, i: usize) -> (r: Option<(Token, usize)>)
    requires
        i <= s.len(),
    ensures
        match r {
            Some((t, j)) => numbered_ending_at(s@, i as int) == Some((t@, j as int)) && i < j
                <= s.len(),
            None => numbered_ending_at(s@, i as int) is None,
        },
{
    if is_at(s, i, 'N') && i + 1 < s.len() {
        let label = from_char_range(s, i + 1, i + 2);
        assert(label@ =~= seq![s@[i + 1]]);
        Some((Token::NumberedEnding(label), i + 2))
    } else {
        None
    }
}

/// The position after the digits that begin at position `i`.
fn skip_digits(s: &Vec<char>, i: usize) -> (end: usize)
    requires
        i <= s.len(),
    ensures
        end == digits_end(s@, i as int),
        i <= end <= s.len(),
{
    let mut j: usize = i;
    while j < s.len() && is_digit_char(s[j])
        invariant
            i <= j <= s.len(),
            digits_end(s@, i as int) == digits_end(s@, j as int),
        decreases s.len() - j,
    {
        j += 1;
    }
    j
}

/// Reads a time signature at position `i`.
fn lex_time_signature(s: &Vec<char>, i: usize) -> (r: Option<(Token, usize)>)
    requires
        i <= s.len(),
    ensures
        match r {
            Some((t, j)) => time_signature_at(s@, i as int) == Some((t@, j as int)) && i < j
                <= s.len(),
            None => time_signature_at(s@, i as int) is None,
        },
{
    if !is_at(s, i, 'T') {
        return None;
    }
    let end = skip_digits(s, i + 1);
    if end - i < 3 {
        return None;
    }
    proof {
        lemma_digits_end(s@, i + 1);
        let run = s@.subrange(i + 1, end as int);
        assert(is_digit(run[end - 1 - (i + 1)]));
        assert forall|k: int| 0 <= k < end - 1 - (i + 1) implies is_digit(
            #[trigger] s@.subrange(i + 1, end - 1)[k],
        ) by {
            assert(s@.subrange(i + 1, end - 1)[k] == run[k]);
        }
    }
    match decimal_of_range(s, i + 1, end - 1) {
        Some(top) => Some((Token::TimeSignature(top, digit_of(s[end - 1])), end)),
        None => None,
    }
}

/// Reads the token that begins at position `i`.
fn lex_token(s: &Vec<char>, i: usize) -> (r: Option<(Token, usize)>)
    requires
        i <= s.len(),
    ensures
        match r {
            Some((t, j)) => token_at(s@, i as int) == Some((t@, j as int)) && i < j <= s.len(),
            None => token_at(s@, i as int) is None,
        },
{
    if let Some((c, j)) = lex_chord(s, i) {
        return Some((Token::Chord(c, Width::Unknown), j));
    }
    if let Some(found) = lex_bar_line(s, i) {
        return Some(found);
    }
    if let Some(found) = lex_control(s, i) {
        return Some(found);
    }
    if let Some(found) = lex_comment(s, i) {
        return Some(found);
    }
    if let Some(found) = lex_alternate(s, i) {
        return Some(found);
    }
    if let Some(found) = lex_section_marker(s, i) {
        return Some(found);
    }
    if let Some(found) = lex_numbered_ending(s, i) {
        return Some(found);
    }
    lex_time_signature(s, i)
}

/// Splits the descrambled text of a chart into its tokens. Every character
/// belongs to a token: where a position is reached at which no rule matches,
/// the error names that position, counted in characters from the start.
pub fn tokenize(input: &str) -> (r: Result<Vec<Token>, FormatError>)
    ensures
        match r {
            Ok(tokens) => lex(input@) == Ok::<Seq<TokenView>, FormatError>(token_views(tokens@)),
            Err(e) => lex(input@) == Err::<Seq<TokenView>, FormatError>(e),
        },
{
    let s = to_chars(input);
    tokenize_chars(&s)
}

/// Splits the characters of a descrambled chart into tokens, as [`tokenize`]
/// does.
pub fn tokenize_chars(s: &Vec<char>) -> (r: Result<Vec<Token>, FormatError>)
    ensures
        match r {
            Ok(tokens) => lex(s@) == Ok::<Seq<TokenView>, FormatError>(token_views(tokens@)),
            Err(e) => lex(s@) == Err::<Seq<TokenView>, FormatError>(e),
        },
{
    let mut tokens: Vec<Token> = Vec::new();
    let mut i: usize = 0;
    let mut more = true;
    assert(token_views(tokens@) + tokens_from(s@, 0).0 =~= tokens_from(s@, 0).0);
    while more
        invariant
            i <= s.len(),
            tokens_from(s@, 0).0 == token_views(tokens@) + tokens_from(s@, i as int).0,
            tokens_from(s@, 0).1 == tokens_from(s@, i as int).1,
            !more ==> token_at(s@, i as int) is None,
        decreases s.len() - i, more as int,
    {
        match lex_token(s, i) {
            Some((t, j)) => {
                let ghost before = tokens@;
                let ghost tv = t@;
                tokens.push(t);
                assert(token_views(tokens@) =~= token_views(before).push(tv));
                assert(token_views(before) + (seq![tv] + tokens_from(s@, j as int).0)
                    =~= token_views(tokens@) + tokens_from(s@, j as int).0);
                i = j;
            },
            None => {
                more = false;
            },
        }
    }
    assert(token_views(tokens@) + Seq::<TokenView>::empty() =~= token_views(tokens@));
    if i == s.len() {
        Ok(tokens)
    } else {
        Err(FormatError::UnrecognizedInput(i))
    }
}


/// Whether reading tokens one after another from position `i` arrives at
/// position `j`, so that a token ends, or the text begins, at `j`.
pub open spec fn reaches(s: Seq<char>, i: int, j: int) -> bool
    decreases s.len() - i,
{
    i == j || match token_at(s, i) {
        Some((t, k)) => {
            proof {
                lemma_token_extent(s, i);
            }
            reaches(s, k, j)
        },
        None => false,
    }
}

/// Reading tokens from a position `i` stops at the first position it
/// arrives at where no token begins.
pub proof fn lemma_tokens_stop(s: Seq<char>, i: int, j: int)
    requires
        0 <= i <= s.len(),
        reaches(s, i, j),
        token_at(s, j) is None,
    ensures
        tokens_from(s, i).1 == j,
    decreases s.len() - i,
{
    if i != j {
        lemma_token_extent(s, i);
        match token_at(s, i) {
            Some((t, k)) => lemma_tokens_stop(s, k, j),
            None => {},
        }
    }
}

/// Reading tokens from a position `i` arrives at the position where it
/// stops, which lies inside the text or at its end, and stops there because
/// no token begins there.
pub proof fn lemma_tokens_end(s: Seq<char>, i: int)
    requires
        0 <= i <= s.len(),
    ensures
        reaches(s, i, tokens_from(s, i).1),
        i <= tokens_from(s, i).1 <= s.len(),
        token_at(s, tokens_from(s, i).1) is None,
    decreases s.len() - i,
{
    lemma_token_extent(s, i);
    match token_at(s, i) {
        Some((t, k)) => lemma_tokens_end(s, k),
        None => {},
    }
}

/// Text in which a position is arrived at where no rule matches is refused,
/// and the error names that position: no character is passed over.
pub proof fn lemma_unknown_symbol(s: Seq<char>, p: int)
    requires
        reaches(s, 0, p),
        0 <= p < s.len() <= usize::MAX,
        token_at(s, p) is None,
    ensures
        lex(s) == Err::<Seq<TokenView>, FormatError>(FormatError::UnrecognizedInput(p as usize)),
{
    lemma_tokens_stop(s, 0, p);
}

/// Text is refused only for a position inside it that the tokens before it
/// lead to and at which no rule matches; text that is accepted is covered
/// by its tokens from the first character to the last.
pub proof fn lemma_lex_outcome(s: Seq<char>)
    requires
        s.len() <= usize::MAX,
    ensures
        match lex(s) {
            Ok(tokens) => reaches(s, 0, s.len() as int) && tokens == tokens_from(s, 0).0,
            Err(e) => exists|p: int|
                0 <= p < s.len() && e == FormatError::UnrecognizedInput(p as usize) && reaches(
                    s,
                    0,
                    p,
                ) && #[trigger] token_at(s, p) is None,
        },
{
    lemma_tokens_end(s, 0);
    let end = tokens_from(s, 0).1;
    if end != s.len() {
        assert(token_at(s, end) is None);
    }
}

/// The alterations read from a position are the same in the text cut off
/// at or after their end.
proof fn lemma_alterations_local(s: Seq<char>, p: int, i: int)
    requires
        0 <= i,
        alterations_at(s, i).1 <= p <= s.len(),
    ensures
        alterations_at(s.take(p), i) == alterations_at(s, i),
    decreases s.len() - i,
{
    lemma_alterations_end_at_least(s, i);
    match alteration_at(s, i) {
        Some((a, j)) => {
            lemma_alterations_end_at_least(s, j);
            lemma_alterations_local(s, p, j);
        },
        None => {},
    }
}

/// The alterations read from a position end at or after that position.
proof fn lemma_alterations_end_at_least(s: Seq<char>, i: int)
    ensures
        i <= alterations_at(s, i).1,
    decreases s.len() - i,
{
    match alteration_at(s, i) {
        Some((a, j)) => lemma_alterations_end_at_least(s, j),
        None => {},
    }
}

/// A character found before a cut is found at the same place in the text
/// cut off there.
proof fn lemma_find_local(s: Seq<char>, p: int, i: int, c: char)
    requires
        0 <= i,
        p <= s.len(),
        find_from(s, i, c) matches Some(j) && j < p,
    ensures
        find_from(s.take(p), i, c) == find_from(s, i, c),
    decreases s.len() - i,
{
    lemma_find_from(s, i, c);
    if s[i] != c {
        lemma_find_local(s, p, i + 1, c);
    }
}

/// Digits that end at or before a cut end at the same place in the text cut
/// off there.
proof fn lemma_digits_local(s: Seq<char>, p: int, i: int)
    requires
        0 <= i,
        digits_end(s, i) <= p <= s.len(),
    ensures
        digits_end(s.take(p), i) == digits_end(s, i),
    decreases s.len() - i,
{
    if i < s.len() && is_digit(s[i]) {
        lemma_digits_end(s, i + 1);
        lemma_digits_local(s, p, i + 1);
    }
}

/// A note that ends at or before a cut is the same note in the text cut off
/// there.
proof fn lemma_note_local(s: Seq<char>, p: int, i: int)
    requires
        p <= s.len(),
        note_at(s, i) matches Some((n, j)) && j <= p,
    ensures
        note_at(s.take(p), i) == note_at(s, i),
{
}

/// An extension number that ends at or before a cut, or is missing, is the
/// same in the text cut off there.
proof fn lemma_extension_local(s: Seq<char>, p: int, i: int)
    requires
        p <= s.len(),
        extension_at(s, i).1 <= p,
    ensures
        extension_at(s.take(p), i) == extension_at(s, i),
{
}

/// A chord quality that ends at or before a cut is the same quality in the
/// text cut off there.
proof fn lemma_flavor_local(s: Seq<char>, p: int, i: int)
    requires
        p <= s.len(),
        flavor_at(s, i).1 <= p,
    ensures
        flavor_at(s.take(p), i) == flavor_at(s, i),
{
    lemma_extension_local(s, p, i);
    if i + 1 <= p {
        if extension_at(s, i + 1).1 <= p {
            lemma_extension_local(s, p, i + 1);
        }
    }
    if i + 2 <= p {
        if extension_at(s, i + 2).1 <= p {
            lemma_extension_local(s, p, i + 2);
        }
    }
}

/// A bass note that ends at or before a cut, or is missing, is the same in
/// the text cut off there.
proof fn lemma_bass_local(s: Seq<char>, p: int, i: int)
    requires
        p <= s.len(),
        bass_at(s, i).1 <= p,
    ensures
        bass_at(s.take(p), i) == bass_at(s, i),
{
    if at(s, i, '/') && note_at(s, i + 1) is Some {
        lemma_note_local(s, p, i + 1);
    }
}

/// A chord that ends at or before a cut is the same chord in the text cut
/// off there.
proof fn lemma_chord_local(s: Seq<char>, p: int, i: int)
    requires
        p <= s.len(),
        chord_at(s, i) matches Some((c, j)) && j <= p,
    ensures
        chord_at(s.take(p), i) == chord_at(s, i),
{
    lemma_chord_extent(s, i);
    let cut = s.take(p);
    assert(at(cut, i, 'n') == at(s, i, 'n'));
    if !at(s, i, 'n') {
        let (root, j) = note_at(s, i).unwrap();
        let (flavor, k) = flavor_at(s, j);
        let (altered_notes, l) = alterations_at(s, k);
        let (bass_note, m) = bass_at(s, l);
        assert(j <= k) by {
            lemma_flavor_end_at_least(s, j);
        }
        assert(k <= l) by {
            lemma_alterations_end_at_least(s, k);
        }
        assert(l <= m);
        lemma_note_local(s, p, i);
        lemma_flavor_local(s, p, j);
        lemma_alterations_local(s, p, k);
        lemma_bass_local(s, p, l);
    }
}

/// A chord quality ends at or after the position it is read from.
proof fn lemma_flavor_end_at_least(s: Seq<char>, i: int)
    ensures
        i <= flavor_at(s, i).1,
{
}

/// A token that ends at or before a cut is the same token in the text cut
/// off there.
pub proof fn lemma_token_local(s: Seq<char>, p: int, i: int)
    requires
        p <= s.len(),
        token_at(s, i) matches Some((t, j)) && j <= p,
    ensures
        token_at(s.take(p), i) == token_at(s, i),
{
    lemma_token_extent(s, i);
    let cut = s.take(p);
    if chord_at(s, i) is Some {
        lemma_chord_local(s, p, i);
    } else if bar_line_at(s, i) is Some {
    } else if control_at(s, i) is Some {
    } else if comment_at(s, i) is Some {
        lemma_find_from(s, i + 1, '>');
        lemma_find_local(s, p, i + 1, '>');
        let j = find_from(s, i + 1, '>').unwrap();
        assert(cut.subrange(i + 1, j) =~= s.subrange(i + 1, j));
    } else if alternate_at(s, i) is Some {
        lemma_chord_local(s, p, i + 1);
    } else if section_marker_at(s, i) is Some {
    } else if numbered_ending_at(s, i) is Some {
    } else {
        lemma_digits_end(s, i + 1);
        lemma_digits_local(s, p, i + 1);
        let end = digits_end(s, i + 1);
        assert(cut.subrange(i + 1, end - 1) =~= s.subrange(i + 1, end - 1));
    }
}

/// The text before a position that the tokens lead to tokenizes on its own,
/// into the tokens that stand before that position.
pub proof fn lemma_prefix_tokenizes(s: Seq<char>, i: int, p: int)
    requires
        0 <= i <= p <= s.len(),
        reaches(s, i, p),
    ensures
        tokens_from(s.take(p), i).1 == p,
        reaches(s.take(p), i, p),
    decreases s.len() - i,
{
    let cut = s.take(p);
    if i == p {
        lemma_token_extent(cut, p);
    } else {
        lemma_token_extent(s, i);
        let (t, k) = token_at(s, i).unwrap();
        lemma_reaches_order(s, k, p);
        lemma_token_local(s, p, i);
        lemma_prefix_tokenizes(s, k, p);
    }
}

/// A position that the tokens lead to lies at or after the position they
/// are read from.
proof fn lemma_reaches_order(s: Seq<char>, i: int, j: int)
    requires
        reaches(s, i, j),
    ensures
        i <= j,
    decreases s.len() - i,
{
    if i != j {
        lemma_token_extent(s, i);
        let (t, k) = token_at(s, i).unwrap();
        lemma_reaches_order(s, k, j);
    }
}

/// Where text is refused at a position, the text before that position is
/// accepted on its own: the error names the first character that no token
/// takes in.
pub proof fn lemma_error_after_tokens(s: Seq<char>)
    requires
        s.len() <= usize::MAX,
    ensures
        lex(s) matches Err(FormatError::UnrecognizedInput(p)) ==> p < s.len() && lex(
            s.take(p as int),
        ) is Ok,
{
    lemma_tokens_end(s, 0);
    let end = tokens_from(s, 0).1;
    if end != s.len() {
        lemma_prefix_tokenizes(s, 0, end);
    }
}

} // verus!
