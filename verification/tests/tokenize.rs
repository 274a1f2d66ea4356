use ireal::{tokenize, AlteredNotes, Chord, Flavor, FormatError, Note, Number, Token, Width};

fn named(root: Note, flavor: Flavor, altered: Vec<AlteredNotes>, bass: Option<Note>) -> Token {
    Token::Chord(
        Chord::Named { root, flavor, altered_notes: altered, bass_note: bass },
        Width::Unknown,
    )
}

fn plain(root: Note, flavor: Flavor) -> Token {
    named(root, flavor, vec![], None)
}

fn seventh(root: Note) -> Token {
    plain(root, Flavor::Dominant(Some(Number::Seven)))
}

#[test]
fn empty_text_has_no_tokens() {
    assert_eq!(tokenize(""), Ok(vec![]));
}

#[test]
fn notes_prefer_the_longer_spelling() {
    assert_eq!(tokenize("A"), Ok(vec![plain(Note::A, Flavor::Dominant(None))]));
    assert_eq!(tokenize("Ab"), Ok(vec![plain(Note::AFlat, Flavor::Dominant(None))]));
    assert_eq!(tokenize("A#"), Ok(vec![plain(Note::ASharp, Flavor::Dominant(None))]));
    assert_eq!(tokenize("Bb"), Ok(vec![plain(Note::BFlat, Flavor::Dominant(None))]));
    assert_eq!(tokenize("Cb"), Ok(vec![plain(Note::CFlat, Flavor::Dominant(None))]));
    assert_eq!(tokenize("C#"), Ok(vec![plain(Note::CSharp, Flavor::Dominant(None))]));
    assert_eq!(tokenize("Db"), Ok(vec![plain(Note::DFlat, Flavor::Dominant(None))]));
    assert_eq!(tokenize("D#"), Ok(vec![plain(Note::DSharp, Flavor::Dominant(None))]));
    assert_eq!(tokenize("Eb"), Ok(vec![plain(Note::EFlat, Flavor::Dominant(None))]));
    assert_eq!(tokenize("F#"), Ok(vec![plain(Note::FSharp, Flavor::Dominant(None))]));
    assert_eq!(tokenize("Gb"), Ok(vec![plain(Note::GFlat, Flavor::Dominant(None))]));
    assert_eq!(tokenize("G#"), Ok(vec![plain(Note::GSharp, Flavor::Dominant(None))]));
    assert_eq!(tokenize("W"), Ok(vec![plain(Note::W, Flavor::Dominant(None))]));
    assert_eq!(
        tokenize("BCDEFG"),
        Ok(vec![
            plain(Note::B, Flavor::Dominant(None)),
            plain(Note::C, Flavor::Dominant(None)),
            plain(Note::D, Flavor::Dominant(None)),
            plain(Note::E, Flavor::Dominant(None)),
            plain(Note::F, Flavor::Dominant(None)),
            plain(Note::G, Flavor::Dominant(None)),
        ])
    );
}

#[test]
fn a_flat_after_a_note_is_part_of_the_note() {
    assert_eq!(
        tokenize("Cb9"),
        Ok(vec![plain(Note::CFlat, Flavor::Dominant(Some(Number::Nine)))])
    );
    assert_eq!(
        tokenize("Fb9"),
        Ok(vec![named(
            Note::F,
            Flavor::Dominant(None),
            vec![AlteredNotes::Flat(Number::Nine)],
            None
        )])
    );
}

#[test]
fn flavors_prefer_the_longer_tag() {
    assert_eq!(tokenize("C69"), Ok(vec![plain(Note::C, Flavor::SixthNinth)]));
    assert_eq!(tokenize("C-69"), Ok(vec![plain(Note::C, Flavor::MinorSixthNinth)]));
    assert_eq!(tokenize("C6"), Ok(vec![plain(Note::C, Flavor::Dominant(Some(Number::Six)))]));
    assert_eq!(tokenize("C-6"), Ok(vec![plain(Note::C, Flavor::Minor(Some(Number::Six)))]));
    assert_eq!(tokenize("C-"), Ok(vec![plain(Note::C, Flavor::Minor(None))]));
    assert_eq!(tokenize("C-7"), Ok(vec![plain(Note::C, Flavor::Minor(Some(Number::Seven)))]));
    assert_eq!(tokenize("C-^"), Ok(vec![plain(Note::C, Flavor::MinorMajor(None))]));
    assert_eq!(
        tokenize("C-^7"),
        Ok(vec![plain(Note::C, Flavor::MinorMajor(Some(Number::Seven)))])
    );
    assert_eq!(tokenize("C^"), Ok(vec![plain(Note::C, Flavor::Major(None))]));
    assert_eq!(tokenize("C^9"), Ok(vec![plain(Note::C, Flavor::Major(Some(Number::Nine)))]));
    assert_eq!(tokenize("Co"), Ok(vec![plain(Note::C, Flavor::Diminished(None))]));
    assert_eq!(tokenize("Co7"), Ok(vec![plain(Note::C, Flavor::Diminished(Some(Number::Seven)))]));
    assert_eq!(tokenize("Co^"), Ok(vec![plain(Note::C, Flavor::DiminishedMajor(None))]));
    assert_eq!(
        tokenize("Co^7"),
        Ok(vec![plain(Note::C, Flavor::DiminishedMajor(Some(Number::Seven)))])
    );
    assert_eq!(
        tokenize("Ch7"),
        Ok(vec![plain(Note::C, Flavor::HalfDiminished(Some(Number::Seven)))])
    );
    assert_eq!(tokenize("Ch"), Ok(vec![plain(Note::C, Flavor::HalfDiminished(None))]));
    assert_eq!(tokenize("C+"), Ok(vec![plain(Note::C, Flavor::Augmented(None))]));
    assert_eq!(tokenize("C+7"), Ok(vec![plain(Note::C, Flavor::Augmented(Some(Number::Seven)))]));
}

#[test]
fn extensions_are_read() {
    let all = [
        ("C2", Number::Two), ("C3", Number::Three), ("C5", Number::Five), ("C6", Number::Six),
        ("C7", Number::Seven), ("C9", Number::Nine), ("C11", Number::Eleven),
        ("C13", Number::Thirteen),
    ];
    for (text, number) in all {
        assert_eq!(tokenize(text), Ok(vec![plain(Note::C, Flavor::Dominant(Some(number)))]));
    }
    assert_eq!(tokenize("C1"), Err(FormatError::UnrecognizedInput(1)));
    assert_eq!(tokenize("C4"), Err(FormatError::UnrecognizedInput(1)));
    assert_eq!(tokenize("C8"), Err(FormatError::UnrecognizedInput(1)));
    assert_eq!(tokenize("C12"), Err(FormatError::UnrecognizedInput(1)));
}

#[test]
fn alterations_are_read_in_order() {
    assert_eq!(
        tokenize("Ab7b9#5"),
        Ok(vec![named(
            Note::AFlat,
            Flavor::Dominant(Some(Number::Seven)),
            vec![AlteredNotes::Flat(Number::Nine), AlteredNotes::Sharp(Number::Five)],
            None
        )])
    );
    assert_eq!(
        tokenize("D7sus"),
        Ok(vec![named(
            Note::D,
            Flavor::Dominant(Some(Number::Seven)),
            vec![AlteredNotes::Sus],
            None
        )])
    );
    assert_eq!(
        tokenize("G7alt"),
        Ok(vec![named(
            Note::G,
            Flavor::Dominant(Some(Number::Seven)),
            vec![AlteredNotes::Alt],
            None
        )])
    );
    assert_eq!(
        tokenize("Cadd9"),
        Ok(vec![named(
            Note::C,
            Flavor::Dominant(None),
            vec![AlteredNotes::Add(Number::Nine)],
            None
        )])
    );
    assert_eq!(
        tokenize("C7#11b13susaltadd2"),
        Ok(vec![named(
            Note::C,
            Flavor::Dominant(Some(Number::Seven)),
            vec![
                AlteredNotes::Sharp(Number::Eleven),
                AlteredNotes::Flat(Number::Thirteen),
                AlteredNotes::Sus,
                AlteredNotes::Alt,
                AlteredNotes::Add(Number::Two),
            ],
            None
        )])
    );
}

#[test]
fn an_s_that_begins_no_sus_is_a_squeeze() {
    assert_eq!(
        tokenize("Cs"),
        Ok(vec![plain(Note::C, Flavor::Dominant(None)), Token::Squeeze])
    );
    assert_eq!(
        tokenize("CsD"),
        Ok(vec![
            plain(Note::C, Flavor::Dominant(None)),
            Token::Squeeze,
            plain(Note::D, Flavor::Dominant(None)),
        ])
    );
}

#[test]
fn bass_note_follows_a_slash() {
    assert_eq!(
        tokenize("C-7/Bb"),
        Ok(vec![named(
            Note::C,
            Flavor::Minor(Some(Number::Seven)),
            vec![],
            Some(Note::BFlat)
        )])
    );
    assert_eq!(
        tokenize("W/C"),
        Ok(vec![named(Note::W, Flavor::Dominant(None), vec![], Some(Note::C))])
    );
    assert_eq!(tokenize("C/"), Err(FormatError::UnrecognizedInput(1)));
    assert_eq!(tokenize("C/x"), Err(FormatError::UnrecognizedInput(1)));
}

#[test]
fn n_is_no_chord() {
    assert_eq!(tokenize("n"), Ok(vec![Token::Chord(Chord::NC, Width::Unknown)]));
    assert_eq!(
        tokenize("nC7"),
        Ok(vec![Token::Chord(Chord::NC, Width::Unknown), seventh(Note::C)])
    );
}

#[test]
fn bar_lines_are_read() {
    assert_eq!(tokenize("|"), Ok(vec![Token::Bar]));
    assert_eq!(tokenize("||"), Ok(vec![Token::Bar]));
    assert_eq!(tokenize("|||"), Ok(vec![Token::Bar, Token::Bar]));
    assert_eq!(tokenize("["), Ok(vec![Token::DoubleBarStart]));
    assert_eq!(tokenize("]"), Ok(vec![Token::DoubleBarEnd]));
    assert_eq!(tokenize("Z"), Ok(vec![Token::FinalBar]));
    assert_eq!(tokenize("Kcl"), Ok(vec![Token::BarAndRepeat]));
    assert_eq!(tokenize("LZ"), Ok(vec![Token::Bar]));
    assert_eq!(tokenize("LZ|"), Ok(vec![Token::Bar]));
    assert_eq!(tokenize("LZ||"), Ok(vec![Token::Bar, Token::Bar]));
    assert_eq!(tokenize("K"), Err(FormatError::UnrecognizedInput(0)));
    assert_eq!(tokenize("Kc"), Err(FormatError::UnrecognizedInput(0)));
    assert_eq!(tokenize("L"), Err(FormatError::UnrecognizedInput(0)));
}

#[test]
fn control_glyphs_are_read() {
    assert_eq!(tokenize("{"), Ok(vec![Token::RepeatStart]));
    assert_eq!(tokenize("}"), Ok(vec![Token::RepeatEnd]));
    assert_eq!(tokenize("}|"), Ok(vec![Token::RepeatEnd]));
    assert_eq!(tokenize(","), Ok(vec![Token::Comma]));
    assert_eq!(tokenize("XyQ"), Ok(vec![Token::Blank]));
    assert_eq!(tokenize("r|"), Ok(vec![Token::RepeatTwoMeasures]));
    assert_eq!(tokenize("x"), Ok(vec![Token::RepeatMeasure]));
    assert_eq!(tokenize("s"), Ok(vec![Token::Squeeze]));
    assert_eq!(tokenize("Q"), Ok(vec![Token::Coda]));
    assert_eq!(tokenize("S"), Ok(vec![Token::Segno]));
    assert_eq!(tokenize("Y"), Ok(vec![Token::VerticalSpace]));
    assert_eq!(tokenize("p"), Ok(vec![Token::PauseSlash]));
    assert_eq!(tokenize("U"), Ok(vec![Token::EndingMeasure]));
    assert_eq!(tokenize("l"), Ok(vec![Token::Unsqueeze]));
    assert_eq!(tokenize("f"), Ok(vec![Token::Fermata]));
    assert_eq!(tokenize(" "), Ok(vec![Token::Space]));
    assert_eq!(tokenize("X"), Err(FormatError::UnrecognizedInput(0)));
    assert_eq!(tokenize("r"), Err(FormatError::UnrecognizedInput(0)));
}

#[test]
fn annotations_are_read() {
    assert_eq!(tokenize("*A"), Ok(vec![Token::SectionMarker("A".to_string())]));
    assert_eq!(tokenize("*i"), Ok(vec![Token::SectionMarker("i".to_string())]));
    assert_eq!(tokenize("**"), Ok(vec![Token::SectionMarker("*".to_string())]));
    assert_eq!(tokenize("N1"), Ok(vec![Token::NumberedEnding("1".to_string())]));
    assert_eq!(tokenize("Nx"), Ok(vec![Token::NumberedEnding("x".to_string())]));
    assert_eq!(tokenize("<D.C. al Coda>"), Ok(vec![Token::Comment("D.C. al Coda".to_string())]));
    assert_eq!(tokenize("<>"), Ok(vec![Token::Comment(String::new())]));
    assert_eq!(
        tokenize("<a>b>"),
        Err(FormatError::UnrecognizedInput(3))
    );
    assert_eq!(
        tokenize("(Db7)"),
        Ok(vec![Token::AlternateChord(Chord::basic(
            Note::DFlat,
            Flavor::Dominant(Some(Number::Seven))
        ))])
    );
    assert_eq!(tokenize("(n)"), Ok(vec![Token::AlternateChord(Chord::NC)]));
    assert_eq!(tokenize("*"), Err(FormatError::UnrecognizedInput(0)));
    assert_eq!(tokenize("N"), Err(FormatError::UnrecognizedInput(0)));
    assert_eq!(tokenize("<abc"), Err(FormatError::UnrecognizedInput(0)));
    assert_eq!(tokenize("(C7"), Err(FormatError::UnrecognizedInput(0)));
    assert_eq!(tokenize("()"), Err(FormatError::UnrecognizedInput(0)));
    assert_eq!(tokenize("(x)"), Err(FormatError::UnrecognizedInput(0)));
}

#[test]
fn time_signature_takes_the_last_digit_as_the_lower_number() {
    assert_eq!(tokenize("T44"), Ok(vec![Token::TimeSignature(4, 4)]));
    assert_eq!(tokenize("T34"), Ok(vec![Token::TimeSignature(3, 4)]));
    assert_eq!(tokenize("T128"), Ok(vec![Token::TimeSignature(12, 8)]));
    assert_eq!(tokenize("T12"), Ok(vec![Token::TimeSignature(1, 2)]));
    assert_eq!(tokenize("T0044"), Ok(vec![Token::TimeSignature(4, 4)]));
    assert_eq!(tokenize("T42949672958"), Ok(vec![Token::TimeSignature(4294967295, 8)]));
    assert_eq!(
        tokenize("T44C7"),
        Ok(vec![Token::TimeSignature(4, 4), seventh(Note::C)])
    );
}

#[test]
fn time_signature_needs_two_digits_and_a_number_that_fits() {
    assert_eq!(tokenize("T"), Err(FormatError::UnrecognizedInput(0)));
    assert_eq!(tokenize("T4"), Err(FormatError::UnrecognizedInput(0)));
    assert_eq!(tokenize("T4C"), Err(FormatError::UnrecognizedInput(0)));
    assert_eq!(tokenize("Tx"), Err(FormatError::UnrecognizedInput(0)));
    assert_eq!(tokenize("T42949672968"), Err(FormatError::UnrecognizedInput(0)));
    assert_eq!(tokenize("C7T99999999999"), Err(FormatError::UnrecognizedInput(2)));
}

#[test]
fn unknown_symbol_is_reported_at_its_offset() {
    assert_eq!(tokenize("?"), Err(FormatError::UnrecognizedInput(0)));
    assert_eq!(tokenize("C7?"), Err(FormatError::UnrecognizedInput(2)));
    assert_eq!(tokenize("C7|D7 @E7"), Err(FormatError::UnrecognizedInput(6)));
    assert_eq!(tokenize("C7XyQ|b"), Err(FormatError::UnrecognizedInput(6)));
    assert_eq!(tokenize("{*AT44Db7XyQKcl LZ&"), Err(FormatError::UnrecognizedInput(18)));
    assert_eq!(tokenize("a"), Err(FormatError::UnrecognizedInput(0)));
    assert_eq!(tokenize("C7\n"), Err(FormatError::UnrecognizedInput(2)));
}

#[test]
fn offset_counts_characters() {
    assert_eq!(tokenize("\u{e9}"), Err(FormatError::UnrecognizedInput(0)));
    assert_eq!(tokenize("<\u{e9}\u{1d10c}>?"), Err(FormatError::UnrecognizedInput(4)));
    assert_eq!(tokenize("*\u{e9}C7\u{e9}"), Err(FormatError::UnrecognizedInput(4)));
}

#[test]
fn a_line_of_a_chart_is_read() {
    assert_eq!(
        tokenize("{*AT44Db7XyQKcl LZF7 E7|"),
        Ok(vec![
            Token::RepeatStart,
            Token::SectionMarker("A".to_string()),
            Token::TimeSignature(4, 4),
            seventh(Note::DFlat),
            Token::Blank,
            Token::BarAndRepeat,
            Token::Space,
            Token::Bar,
            seventh(Note::F),
            Token::Space,
            seventh(Note::E),
            Token::Bar,
        ])
    );
}

#[test]
fn token_clone_is_equal() {
    let tokens = tokenize("{*AT44Db7b9/C(n)<hi>N1Kcl r|Z").unwrap();
    let copies: Vec<Token> = tokens.iter().map(|t| t.clone()).collect();
    assert_eq!(copies, tokens);
}
