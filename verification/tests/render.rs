use ireal::{
    parse_music, render, Chord, Flavor, Music, Note, Number, TimeSignature, Width, WrittenBar,
    WrittenElement,
};

fn chart(text: &str) -> String {
    render(&parse_music(text).unwrap())
}

fn spaces(n: usize) -> String {
    " ".repeat(n)
}

#[test]
fn no_bars_give_no_text() {
    assert_eq!(chart(""), String::new());
    assert_eq!(chart("|*A"), String::new());
}

#[test]
fn wide_chord_is_flush_right_in_six_columns_with_six_after() {
    assert_eq!(chart("C7|"), format!("|     C7{}|\n", spaces(18)));
    assert_eq!(chart("C7|"), "|     C7                  |\n".to_string());
    assert_eq!(chart("C7 D7|"), "|     C7           D7      |\n".to_string());
}

#[test]
fn narrow_chord_has_six_columns() {
    assert_eq!(chart("sC7|"), format!("|     C7{}|\n", spaces(18)));
    assert_eq!(chart("sC7D7|"), format!("|     C7     D7{}|\n", spaces(12)));
    assert_eq!(chart("sC7D7E7F7|"), "|     C7     D7     E7     F7|\n".to_string());
}

#[test]
fn chord_wider_than_its_cell_is_not_cut() {
    assert_eq!(chart("Ab7b9#5|"), format!("| Ab7b9#5{}|\n", spaces(18)));
    assert_eq!(chart("C7b9#5|"), format!("| C7b9#5{}|\n", spaces(18)));
    assert_eq!(chart("sAb7b9#11|"), format!("| Ab7b9#11{}|\n", spaces(18)));
}

#[test]
fn bar_is_padded_to_four_slots() {
    let bar = WrittenBar::new();
    assert_eq!(bar.to_text(), format!("| {}", spaces(24)));
    let mut marked = WrittenBar::new();
    marked.elements.push(WrittenElement::SectionMarker("A".to_string()));
    assert_eq!(marked.to_text(), format!("| [A]{}", spaces(24)));
}

#[test]
fn repeat_sign_fills_the_bar() {
    assert_eq!(WrittenBar::repeat().to_text(), format!("| {}%{}", spaces(12), spaces(11)));
    assert_eq!(
        chart("C7|x|"),
        format!("|     C7{}|{}%{}|\n", spaces(18), spaces(13), spaces(11))
    );
}

#[test]
fn two_measure_repeat_has_the_sign_in_both_bars() {
    let sign = format!("|{}%{}", spaces(13), spaces(11));
    assert_eq!(
        chart("C7|D7|r| |"),
        format!("|     C7{}|     D7{}{}{}|\n", spaces(18), spaces(18), sign, sign)
    );
}

#[test]
fn flags_are_written_at_the_bar_lines() {
    assert_eq!(chart("{C7}"), format!("|:     C7{}:|\n", spaces(18)));
    assert_eq!(chart("[C7]"), format!("||     C7{}||\n", spaces(18)));
    assert_eq!(chart("[{C7}"), format!("||:     C7{}:|\n", spaces(18)));
    assert_eq!(chart("C7Z"), format!("|     C7{}|\n", spaces(18)));
    let mut bar = WrittenBar::new();
    bar.repeat_end = true;
    bar.double_end = true;
    assert_eq!(bar.to_text(), format!("| {}:|", spaces(24)));
}

#[test]
fn marks_are_written_before_the_chords() {
    assert_eq!(
        chart("*AT44Db7|"),
        "| [A] 4/4    Db7                  |\n".to_string()
    );
    assert_eq!(chart("N1C7|"), format!("| N1     C7{}|\n", spaces(18)));
    assert_eq!(chart("T128C7|"), format!("| 12/8     C7{}|\n", spaces(18)));
}

#[test]
fn signs_have_their_glyphs() {
    assert_eq!(chart("QC7|"), format!("| \u{f8ff}\u{f9}\u{d1}\u{e5}     C7{}|\n", spaces(18)));
    assert_eq!(chart("SC7|"), format!("| \u{1d10b}     C7{}|\n", spaces(18)));
    assert_eq!(chart("fC7|"), format!("| \u{1d110}     C7{}|\n", spaces(18)));
}

#[test]
fn no_chord_is_written() {
    assert_eq!(chart("n|"), format!("|   N.C.{}|\n", spaces(18)));
}

#[test]
fn lines_hold_four_bars() {
    let bar = format!("|     C7{}", spaces(18));
    assert_eq!(chart("C7|C7|C7|C7|"), format!("{}{}{}{}|\n", bar, bar, bar, bar));
    assert_eq!(
        chart("C7|C7|C7|C7|C7|"),
        format!("{}{}{}{}|\n{}|\n", bar, bar, bar, bar, bar)
    );
    let nine = chart("C7|C7|C7|C7|C7|C7|C7|C7|C7|");
    assert_eq!(nine.lines().count(), 3);
    assert_eq!(
        nine,
        format!("{0}{0}{0}{0}|\n{0}{0}{0}{0}|\n{0}|\n", bar)
    );
}

#[test]
fn rendering_twice_gives_the_same_text() {
    let music = parse_music("{*AT44Db7XyQKcl LZGb7XyQKcl LZF7 E7LZEb7XyQ|D7XyQKcl  }").unwrap();
    let first = render(&music);
    let second = render(&music);
    assert_eq!(first, second);
    assert_eq!(music.to_text(), first);
    assert_eq!(render(&music.clone()), first);
}

#[test]
fn chart_depends_on_the_written_bars_only() {
    let written = vec![
        WrittenBar {
            repeat_start: true,
            repeat_end: false,
            double_start: false,
            double_end: false,
            elements: vec![
                WrittenElement::TimeSignature(TimeSignature { top: 3, bottom: 4 }),
                WrittenElement::Chord(
                    Chord::basic(Note::C, Flavor::Major(Some(Number::Seven))),
                    Width::Narrow,
                ),
                WrittenElement::Chord(Chord::basic(Note::G, Flavor::Dominant(None)), Width::Unknown),
            ],
        },
    ];
    let music =
        Music { raw: "anything".to_string(), bars: vec![], written_bars: written, repeat_start: None };
    assert_eq!(render(&music), format!("|: 3/4    C^7      G{}{}|\n", spaces(6), spaces(6)));
}
