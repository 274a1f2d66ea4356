//! The chord model: pitches, extension numbers, chord qualities, alterations
//! and chords, with the text each one is written as in a chart.

use vstd::prelude::*;
use crate::text::{from_chars, write_str};

verus! {

/// A pitch class in the spelling the chart format uses for it.
#[derive(Debug, Clone, Copy, PartialEq, Eq, Hash, PartialOrd, Ord, Structural)]
pub enum Note {
    AFlat,
    A,
    ASharp,
    BFlat,
    B,
    CFlat,
    C,
    CSharp,
    DFlat,
    D,
    DSharp,
    EFlat,
    E,
    F,
    FSharp,
    GFlat,
    G,
    GSharp,
    /// No root: written `W`, it stands before a slash and a bass note.
    W,
}

/// An extension or scale degree that a chord symbol can name.
#[derive(Debug, Clone, Copy, PartialEq, Eq, Hash, PartialOrd, Ord, Structural)]
pub enum Number {
    Two,
    Three,
    Five,
    Six,
    Seven,
    Nine,
    Eleven,
    Thirteen,
}

/// The quality of a chord, with its extension where the quality takes one.
#[derive(Debug, Clone, Copy, PartialEq, Eq, Hash, PartialOrd, Ord, Structural)]
pub enum Flavor {
    Augmented(Option<Number>),
    Diminished(Option<Number>),
    DiminishedMajor(Option<Number>),
    HalfDiminished(Option<Number>),
    Minor(Option<Number>),
    MinorMajor(Option<Number>),
    Dominant(Option<Number>),
    Major(Option<Number>),
    SixthNinth,
    MinorSixthNinth,
}

/// One alteration written after the quality of a chord.
#[derive(Debug, Clone, Copy, PartialEq, Eq, Hash, PartialOrd, Ord, Structural)]
pub enum AlteredNotes {
    Flat(Number),
    Sharp(Number),
    Add(Number),
    Sus,
    Alt,
}

/// A chord symbol, or the explicit marker that no chord sounds.
#[derive(Debug, PartialEq, Eq, Hash, PartialOrd, Ord)]
pub enum Chord {
    NC,
    Named { root: Note, flavor: Flavor, altered_notes: Vec<AlteredNotes>, bass_note: Option<Note> },
}

/// The mathematical value of a [`Chord`]: its alterations as a sequence.
pub enum ChordView {
    NC,
    Named { root: Note, flavor: Flavor, altered_notes: Seq<AlteredNotes>, bass_note: Option<Note> },
}

impl View for Chord {
    type V = ChordView;

    open spec fn view(&self) -> ChordView {
        match *self {
            Chord::NC => ChordView::NC,
            Chord::Named { root, flavor, altered_notes, bass_note } => ChordView::Named {
                root,
                flavor,
                altered_notes: altered_notes@,
                bass_note,
            },
        }
    }
}

/// The views of a sequence of chords, element by element.
pub open spec fn chord_views(chords: Seq<Chord>) -> Seq<ChordView> {
    chords.map_values(|c: Chord| c@)
}

impl Clone for Chord {
    fn clone(&self) -> (r: Self)
        ensures
            r@ == self@,
    {
        match self {
            Chord::NC => Chord::NC,
            Chord::Named { root, flavor, altered_notes, bass_note } => {
                let mut notes: Vec<AlteredNotes> = Vec::new();
                let mut i: usize = 0;
                while i < altered_notes.len()
                    invariant
                        i <= altered_notes.len(),
                        notes@ == altered_notes@.take(i as int),
                    decreases altered_notes.len() - i,
                {
                    notes.push(altered_notes[i]);
                    i += 1;
                }
                assert(altered_notes@.take(altered_notes@.len() as int) == altered_notes@);
                Chord::Named { root: *root, flavor: *flavor, altered_notes: notes, bass_note: *bass_note }
            },
        }
    }
}

/// A copy of each chord of `chords`, in order.
pub fn clone_chords(chords: &Vec<Chord>) -> (r: Vec<Chord>)
    ensures
        chord_views(r@) == chord_views(chords@),
{
    let mut r: Vec<Chord> = Vec::new();
    let mut i: usize = 0;
    while i < chords.len()
        invariant
            i <= chords.len(),
            chord_views(r@) == chord_views(chords@.take(i as int)),
        decreases chords.len() - i,
    {
        let ghost before = r@;
        let c = chords[i].clone();
        r.push(c);
        assert(chord_views(r@) == chord_views(before).push(c@));
        assert(chords@.take(i + 1) == chords@.take(i as int).push(chords@[i as int]));
        assert(chord_views(chords@.take(i + 1)) == chord_views(chords@.take(i as int)).push(
            chords@[i as int]@,
        ));
        i += 1;
    }
    assert(chords@.take(chords@.len() as int) == chords@);
    r
}

/// The spelling of a note.
pub open spec fn note_text(n: Note) -> Seq<char> {
    match n {
        Note::AFlat => "Ab"@,
        Note::A => "A"@,
        Note::ASharp => "A#"@,
        Note::BFlat => "Bb"@,
        Note::B => "B"@,
        Note::CFlat => "Cb"@,
        Note::C => "C"@,
        Note::CSharp => "C#"@,
        Note::DFlat => "Db"@,
        Note::D => "D"@,
        Note::DSharp => "D#"@,
        Note::EFlat => "Eb"@,
        Note::E => "E"@,
        Note::F => "F"@,
        Note::FSharp => "F#"@,
        Note::GFlat => "Gb"@,
        Note::G => "G"@,
        Note::GSharp => "G#"@,
        Note::W => "W"@,
    }
}

/// The digits of an extension number.
pub open spec fn number_text(n: Number) -> Seq<char> {
    match n {
        Number::Two => "2"@,
        Number::Three => "3"@,
        Number::Five => "5"@,
        Number::Six => "6"@,
        Number::Seven => "7"@,
        Number::Nine => "9"@,
        Number::Eleven => "11"@,
        Number::Thirteen => "13"@,
    }
}

/// The digits of an extension, or nothing where there is none.
pub open spec fn extension_text(n: Option<Number>) -> Seq<char> {
    match n {
        Some(n) => number_text(n),
        None => Seq::empty(),
    }
}

/// The symbol of a chord quality: `^` for major, `-` for minor, `o` for
/// diminished, `h` for half-diminished, `+` for augmented, nothing for
/// dominant; `69` and `-69` stand for themselves.
pub open spec fn flavor_symbol(f: Flavor) -> Seq<char> {
    match f {
        Flavor::Augmented(_) => "+"@,
        Flavor::Diminished(_) => "o"@,
        Flavor::DiminishedMajor(_) => "o^"@,
        Flavor::HalfDiminished(_) => "h"@,
        Flavor::Minor(_) => "-"@,
        Flavor::MinorMajor(_) => "-^"@,
        Flavor::Dominant(_) => Seq::empty(),
        Flavor::Major(_) => "^"@,
        Flavor::SixthNinth => "69"@,
        Flavor::MinorSixthNinth => "-69"@,
    }
}

/// The extension a chord quality carries, if it carries one.
pub open spec fn flavor_extension(f: Flavor) -> Option<Number> {
    match f {
        Flavor::Augmented(n) => n,
        Flavor::Diminished(n) => n,
        Flavor::DiminishedMajor(n) => n,
        Flavor::HalfDiminished(n) => n,
        Flavor::Minor(n) => n,
        Flavor::MinorMajor(n) => n,
        Flavor::Dominant(n) => n,
        Flavor::Major(n) => n,
        Flavor::SixthNinth => None,
        Flavor::MinorSixthNinth => None,
    }
}

/// The text of a chord quality: its symbol, then its extension.
pub open spec fn flavor_text(f: Flavor) -> Seq<char> {
    flavor_symbol(f) + extension_text(flavor_extension(f))
}

/// The text of one alteration.
pub open spec fn alteration_text(a: AlteredNotes) -> Seq<char> {
    match a {
        AlteredNotes::Flat(n) => "b"@ + number_text(n),
        AlteredNotes::Sharp(n) => "#"@ + number_text(n),
        AlteredNotes::Add(n) => "add"@ + number_text(n),
        AlteredNotes::Sus => "sus"@,
        AlteredNotes::Alt => "alt"@,
    }
}

/// The texts of the alterations, one after another in the order given.
pub open spec fn alterations_text(a: Seq<AlteredNotes>) -> Seq<char>
    decreases a.len(),
{
    if a.len() == 0 {
        Seq::empty()
    } else {
        alterations_text(a.drop_last()) + alteration_text(a.last())
    }
}

/// A slash and the bass note, or nothing where there is none.
pub open spec fn bass_text(b: Option<Note>) -> Seq<char> {
    match b {
        Some(n) => "/"@ + note_text(n),
        None => Seq::empty(),
    }
}

/// The text of a chord: `N.C.`, or root, quality, alterations and bass.
pub open spec fn chord_text(c: ChordView) -> Seq<char> {
    match c {
        ChordView::NC => "N.C."@,
        ChordView::Named { root, flavor, altered_notes, bass_note } => note_text(root)
            + flavor_text(flavor) + alterations_text(altered_notes) + bass_text(bass_note),
    }
}

/// Appends the spelling of `n` to `out`.
pub fn write_note(out: &mut Vec<char>, n: Note)
    ensures
        final(out)@ == old(out)@ + note_text(n),
{
    match n {
        Note::AFlat => write_str(out, "Ab"),
        Note::A => write_str(out, "A"),
        Note::ASharp => write_str(out, "A#"),
        Note::BFlat => write_str(out, "Bb"),
        Note::B => write_str(out, "B"),
        Note::CFlat => write_str(out, "Cb"),
        Note::C => write_str(out, "C"),
        Note::CSharp => write_str(out, "C#"),
        Note::DFlat => write_str(out, "Db"),
        Note::D => write_str(out, "D"),
        Note::DSharp => write_str(out, "D#"),
        Note::EFlat => write_str(out, "Eb"),
        Note::E => write_str(out, "E"),
        Note::F => write_str(out, "F"),
        Note::FSharp => write_str(out, "F#"),
        Note::GFlat => write_str(out, "Gb"),
        Note::G => write_str(out, "G"),
        Note::GSharp => write_str(out, "G#"),
        Note::W => write_str(out, "W"),
    }
}

/// Appends the digits of `n` to `out`.
pub fn write_number(out: &mut Vec<char>, n: Number)
    ensures
        final(out)@ == old(out)@ + number_text(n),
{
    match n {
        Number::Two => write_str(out, "2"),
        Number::Three => write_str(out, "3"),
        Number::Five => write_str(out, "5"),
        Number::Six => write_str(out, "6"),
        Number::Seven => write_str(out, "7"),
        Number::Nine => write_str(out, "9"),
        Number::Eleven => write_str(out, "11"),
        Number::Thirteen => write_str(out, "13"),
    }
}

/// Appends the digits of an extension to `out`, if there is one.
fn write_extension(out: &mut Vec<char>, n: Option<Number>)
    ensures
        final(out)@ == old(out)@ + extension_text(n),
{
    match n {
        Some(n) => write_number(out, n),
        None => {},
    }
}

/// Appends the text of the chord quality `f` to `out`.
pub fn write_flavor(out: &mut Vec<char>, f: Flavor)
    ensures
        final(out)@ == old(out)@ + flavor_text(f),
{
    match f {
        Flavor::Augmented(n) => {
            write_str(out, "+");
            write_extension(out, n);
        },
        Flavor::Diminished(n) => {
            write_str(out, "o");
            write_extension(out, n);
        },
        Flavor::DiminishedMajor(n) => {
            write_str(out, "o^");
            write_extension(out, n);
        },
        Flavor::HalfDiminished(n) => {
            write_str(out, "h");
            write_extension(out, n);
        },
        Flavor::Minor(n) => {
            write_str(out, "-");
            write_extension(out, n);
        },
        Flavor::MinorMajor(n) => {
            write_str(out, "-^");
            write_extension(out, n);
        },
        Flavor::Dominant(n) => write_extension(out, n),
        Flavor::Major(n) => {
            write_str(out, "^");
            write_extension(out, n);
        },
        Flavor::SixthNinth => write_str(out, "69"),
        Flavor::MinorSixthNinth => write_str(out, "-69"),
    }
}

/// Appends the text of the alteration `a` to `out`.
pub fn write_alteration(out: &mut Vec<char>, a: AlteredNotes)
    ensures
        final(out)@ == old(out)@ + alteration_text(a),
{
    match a {
        AlteredNotes::Flat(n) => {
            write_str(out, "b");
            write_number(out, n);
        },
        AlteredNotes::Sharp(n) => {
            write_str(out, "#");
            write_number(out, n);
        },
        AlteredNotes::Add(n) => {
            write_str(out, "add");
            write_number(out, n);
        },
        AlteredNotes::Sus => write_str(out, "sus"),
        AlteredNotes::Alt => write_str(out, "alt"),
    }
}

/// Appends the text of the chord `c` to `out`.
pub fn write_chord(out: &mut Vec<char>, c: &Chord)
    ensures
        final(out)@ == old(out)@ + chord_text(c@),
{
    match c {
        Chord::NC => write_str(out, "N.C."),
        Chord::Named { root, flavor, altered_notes, bass_note } => {
            write_note(out, *root);
            write_flavor(out, *flavor);
            let ghost head = out@;
            let mut i: usize = 0;
            while i < altered_notes.len()
                invariant
                    i <= altered_notes.len(),
                    out@ == head + alterations_text(altered_notes@.take(i as int)),
                decreases altered_notes.len() - i,
            {
                write_alteration(out, altered_notes[i]);
                proof {
                    let next = altered_notes@.take(i + 1);
                    assert(next.drop_last() == altered_notes@.take(i as int));
                    assert(next.last() == altered_notes@[i as int]);
                }
                i += 1;
            }
            assert(altered_notes@.take(altered_notes@.len() as int) == altered_notes@);
            match bass_note {
                Some(n) => {
                    write_str(out, "/");
                    write_note(out, *n);
                },
                None => {},
            }
        },
    }
}

impl Note {
    /// The spelling of the note.
    pub fn to_text(&self) -> (s: String)
        ensures
            s@ == note_text(*self),
    {
        let mut out: Vec<char> = Vec::new();
        write_note(&mut out, *self);
        from_chars(&out)
    }
}

impl Number {
    /// The digits of the number.
    pub fn to_text(&self) -> (s: String)
        ensures
            s@ == number_text(*self),
    {
        let mut out: Vec<char> = Vec::new();
        write_number(&mut out, *self);
        from_chars(&out)
    }
}

impl Flavor {
    /// The symbol of the quality followed by its extension.
    pub fn to_text(&self) -> (s: String)
        ensures
            s@ == flavor_text(*self),
    {
        let mut out: Vec<char> = Vec::new();
        write_flavor(&mut out, *self);
        from_chars(&out)
    }
}

impl AlteredNotes {
    /// The text of the alteration.
    pub fn to_text(&self) -> (s: String)
        ensures
            s@ == alteration_text(*self),
    {
        let mut out: Vec<char> = Vec::new();
        write_alteration(&mut out, *self);
        from_chars(&out)
    }
}

impl Chord {
    /// The chord on `root` of quality `flavor`, without alterations or bass.
    pub fn basic(root: Note, flavor: Flavor) -> (c: Chord)
        ensures
            c@ == (ChordView::Named { root, flavor, altered_notes: Seq::empty(), bass_note: None }),
    {
        Chord::Named { root, flavor, altered_notes: Vec::new(), bass_note: None }
    }

    /// The text of the chord as a chart shows it.
    pub fn to_text(&self) -> (s: String)
        ensures
            s@ == chord_text(self@),
    {
        let mut out: Vec<char> = Vec::new();
        write_chord(&mut out, self);
        from_chars(&out)
    }
}

} // verus!
