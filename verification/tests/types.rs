use ireal::{AlteredNotes, BarElement, Chord, Flavor, Note, Number, TimeSignature};

fn chord(root: Note, flavor: Flavor, altered: Vec<AlteredNotes>, bass: Option<Note>) -> Chord {
    Chord::Named { root, flavor, altered_notes: altered, bass_note: bass }
}

#[test]
fn notes_have_their_spelling() {
    let all = [
        (Note::AFlat, "Ab"), (Note::A, "A"), (Note::ASharp, "A#"), (Note::BFlat, "Bb"),
        (Note::B, "B"), (Note::CFlat, "Cb"), (Note::C, "C"), (Note::CSharp, "C#"),
        (Note::DFlat, "Db"), (Note::D, "D"), (Note::DSharp, "D#"), (Note::EFlat, "Eb"),
        (Note::E, "E"), (Note::F, "F"), (Note::FSharp, "F#"), (Note::GFlat, "Gb"),
        (Note::G, "G"), (Note::GSharp, "G#"), (Note::W, "W"),
    ];
    for (note, text) in all {
        assert_eq!(note.to_text(), text.to_string());
    }
}

#[test]
fn numbers_have_their_digits() {
    let all = [
        (Number::Two, "2"), (Number::Three, "3"), (Number::Five, "5"), (Number::Six, "6"),
        (Number::Seven, "7"), (Number::Nine, "9"), (Number::Eleven, "11"),
        (Number::Thirteen, "13"),
    ];
    for (number, text) in all {
        assert_eq!(number.to_text(), text.to_string());
    }
}

#[test]
fn flavors_use_the_symbols_of_the_format() {
    assert_eq!(Flavor::Major(None).to_text(), "^".to_string());
    assert_eq!(Flavor::Major(Some(Number::Seven)).to_text(), "^7".to_string());
    assert_eq!(Flavor::Minor(None).to_text(), "-".to_string());
    assert_eq!(Flavor::Minor(Some(Number::Nine)).to_text(), "-9".to_string());
    assert_eq!(Flavor::MinorMajor(Some(Number::Seven)).to_text(), "-^7".to_string());
    assert_eq!(Flavor::Diminished(None).to_text(), "o".to_string());
    assert_eq!(Flavor::Diminished(Some(Number::Seven)).to_text(), "o7".to_string());
    assert_eq!(Flavor::DiminishedMajor(Some(Number::Seven)).to_text(), "o^7".to_string());
    assert_eq!(Flavor::HalfDiminished(Some(Number::Seven)).to_text(), "h7".to_string());
    assert_eq!(Flavor::Augmented(None).to_text(), "+".to_string());
    assert_eq!(Flavor::Augmented(Some(Number::Seven)).to_text(), "+7".to_string());
    assert_eq!(Flavor::Dominant(None).to_text(), String::new());
    assert_eq!(Flavor::Dominant(Some(Number::Thirteen)).to_text(), "13".to_string());
    assert_eq!(Flavor::SixthNinth.to_text(), "69".to_string());
    assert_eq!(Flavor::MinorSixthNinth.to_text(), "-69".to_string());
}

#[test]
fn alterations_have_their_text() {
    assert_eq!(AlteredNotes::Flat(Number::Nine).to_text(), "b9".to_string());
    assert_eq!(AlteredNotes::Sharp(Number::Eleven).to_text(), "#11".to_string());
    assert_eq!(AlteredNotes::Add(Number::Two).to_text(), "add2".to_string());
    assert_eq!(AlteredNotes::Sus.to_text(), "sus".to_string());
    assert_eq!(AlteredNotes::Alt.to_text(), "alt".to_string());
}

#[test]
fn basic_chord_has_no_alterations_and_no_bass() {
    let c = Chord::basic(Note::DFlat, Flavor::Dominant(Some(Number::Seven)));
    assert_eq!(c, chord(Note::DFlat, Flavor::Dominant(Some(Number::Seven)), vec![], None));
    assert_eq!(c.to_text(), "Db7".to_string());
    assert_eq!(Chord::basic(Note::G, Flavor::Dominant(None)).to_text(), "G".to_string());
}

#[test]
fn chord_text_keeps_the_order_of_alterations() {
    let c = chord(
        Note::AFlat,
        Flavor::Dominant(Some(Number::Seven)),
        vec![AlteredNotes::Flat(Number::Nine), AlteredNotes::Sharp(Number::Five)],
        None,
    );
    assert_eq!(c.to_text(), "Ab7b9#5".to_string());
    let d = chord(
        Note::AFlat,
        Flavor::Dominant(Some(Number::Seven)),
        vec![AlteredNotes::Sharp(Number::Five), AlteredNotes::Flat(Number::Nine)],
        None,
    );
    assert_eq!(d.to_text(), "Ab7#5b9".to_string());
    assert_ne!(c, d);
}

#[test]
fn chord_text_has_bass_after_a_slash() {
    let c = chord(Note::C, Flavor::Minor(Some(Number::Seven)), vec![], Some(Note::BFlat));
    assert_eq!(c.to_text(), "C-7/Bb".to_string());
    let w = chord(Note::W, Flavor::Dominant(None), vec![], Some(Note::C));
    assert_eq!(w.to_text(), "W/C".to_string());
    let s = chord(Note::D, Flavor::Dominant(Some(Number::Seven)), vec![AlteredNotes::Sus], None);
    assert_eq!(s.to_text(), "D7sus".to_string());
}

#[test]
fn no_chord_has_its_own_text() {
    assert_eq!(Chord::NC.to_text(), "N.C.".to_string());
}

#[test]
fn chord_clone_is_equal() {
    let c = chord(
        Note::FSharp,
        Flavor::HalfDiminished(Some(Number::Seven)),
        vec![AlteredNotes::Add(Number::Eleven), AlteredNotes::Alt],
        Some(Note::E),
    );
    assert_eq!(c.clone(), c);
}

#[test]
fn time_signature_text_has_a_slash() {
    assert_eq!(TimeSignature { top: 4, bottom: 4 }.to_text(), "4/4".to_string());
    assert_eq!(TimeSignature { top: 12, bottom: 8 }.to_text(), "12/8".to_string());
    assert_eq!(TimeSignature { top: 0, bottom: 0 }.to_text(), "0/0".to_string());
    assert_eq!(
        TimeSignature { top: 4294967295, bottom: 10 }.to_text(),
        "4294967295/10".to_string()
    );
}

#[test]
fn bar_elements_have_their_text() {
    assert_eq!(BarElement::SectionMarker("A".to_string()).to_text(), "A".to_string());
    assert_eq!(
        BarElement::TimeSignature(TimeSignature { top: 3, bottom: 4 }).to_text(),
        "3/4".to_string()
    );
    let c = Chord::basic(Note::E, Flavor::Dominant(Some(Number::Seven)));
    assert_eq!(BarElement::Chord(c.clone()).to_text(), "E7".to_string());
    assert_eq!(BarElement::AlternateChord(c).to_text(), "(E7)".to_string());
}
