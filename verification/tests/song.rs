use ireal::{
    decode_music, parse_url, render, unscramble, DecodeError, FormatError, SemanticError, Song,
};

const MARKER: &str = "1r34LbKcu7";

fn record(title: &str, chart: &str, tempo: &str) -> String {
    format!("{}=Composer==Style=C=t={}{}=comp={}=3", title, MARKER, chart, tempo)
}

#[test]
fn scheme_is_required() {
    assert_eq!(parse_url(""), Err(DecodeError::Format(FormatError::MissingScheme)));
    assert_eq!(
        parse_url("http://example.com"),
        Err(DecodeError::Format(FormatError::MissingScheme))
    );
    assert_eq!(
        parse_url("irealbook://Work"),
        Err(DecodeError::Format(FormatError::MissingScheme))
    );
    assert_eq!(parse_url("irealb:/"), Err(DecodeError::Format(FormatError::MissingScheme)));
}

#[test]
fn white_space_around_the_url_is_ignored() {
    let url = format!(" \t\n\u{a0}irealb://{}===Set\r\n\u{3000} ", record("One", "C7|", "120"));
    let collection = parse_url(&url).unwrap();
    assert_eq!(collection.title, "Set".to_string());
    assert_eq!(collection.songs.len(), 1);
    assert_eq!(collection.songs[0].title, "One".to_string());
}

#[test]
fn fields_are_taken_by_position() {
    let url = format!("irealb://{}===Set", record("One", "C7|", "120"));
    let collection = parse_url(&url).unwrap();
    let song = &collection.songs[0];
    assert_eq!(song.title, "One".to_string());
    assert_eq!(song.composer, "Composer".to_string());
    assert_eq!(song.style, "Style".to_string());
    assert_eq!(song.key, "C".to_string());
    assert_eq!(song.transpose, "t".to_string());
    assert_eq!(song.comp_style, "comp".to_string());
    assert_eq!(song.bpm, 120);
    assert_eq!(song.repeats, "3".to_string());
    assert_eq!(song.music.raw, "C7|".to_string());
    assert_eq!(song.music.bars.len(), 1);
}

#[test]
fn last_part_is_the_title() {
    let url = format!(
        "irealb://{}==={}===My%20Songs",
        record("One", "C7|", "100"),
        record("Two", "D7|E7|", "0")
    );
    let collection = parse_url(&url).unwrap();
    assert_eq!(collection.title, "My Songs".to_string());
    assert_eq!(collection.songs.len(), 2);
    assert_eq!(collection.songs[0].title, "One".to_string());
    assert_eq!(collection.songs[1].title, "Two".to_string());
    assert_eq!(collection.songs[1].music.bars.len(), 2);
}

#[test]
fn single_part_is_a_song_without_a_title_for_the_collection() {
    let url = format!("irealb://{}", record("One", "C7|", "100"));
    let collection = parse_url(&url).unwrap();
    assert_eq!(collection.title, "No Title".to_string());
    assert_eq!(collection.songs.len(), 1);
    assert_eq!(collection.songs[0].title, "One".to_string());
}

#[test]
fn record_with_too_few_fields_is_rejected() {
    assert_eq!(parse_url("irealb://"), Err(DecodeError::Format(FormatError::MissingField)));
    assert_eq!(
        parse_url("irealb://Work=Monk==Swing=Db==1r34LbKcu7C7==0"),
        Err(DecodeError::Format(FormatError::MissingField))
    );
    assert_eq!(
        parse_url("irealb://===Title"),
        Err(DecodeError::Format(FormatError::MissingField))
    );
    assert_eq!(Song::from_text("a=b"), Err(DecodeError::Format(FormatError::MissingField)));
}

#[test]
fn fields_beyond_the_tenth_are_ignored() {
    let text = format!("{}=more=fields", record("One", "C7|", "90"));
    let song = Song::from_text(&text).unwrap();
    assert_eq!(song.repeats, "3".to_string());
    assert_eq!(song.bpm, 90);
}

#[test]
fn tempo_must_be_a_number() {
    for tempo in ["", "abc", "12a", "-1", "+", "1.5", " 1", "4294967296"] {
        assert_eq!(
            Song::from_text(&record("One", "C7|", tempo)),
            Err(DecodeError::Format(FormatError::InvalidTempo)),
            "tempo {:?}",
            tempo
        );
    }
    assert_eq!(Song::from_text(&record("One", "C7|", "0")).unwrap().bpm, 0);
    assert_eq!(Song::from_text(&record("One", "C7|", "007")).unwrap().bpm, 7);
    assert_eq!(Song::from_text(&record("One", "C7|", "+120")).unwrap().bpm, 120);
    assert_eq!(Song::from_text(&record("One", "C7|", "4294967295")).unwrap().bpm, 4294967295);
}

#[test]
fn chart_error_comes_before_tempo_error() {
    assert_eq!(
        Song::from_text("One=Composer==Style=C=t=C7|=comp=abc=3"),
        Err(DecodeError::Format(FormatError::MissingMarker))
    );
    assert_eq!(
        Song::from_text(&record("One", "x", "abc")),
        Err(DecodeError::Semantic(SemanticError::NoPriorBar))
    );
}

#[test]
fn error_of_the_first_bad_song_is_returned() {
    let url = format!(
        "irealb://{}==={}==={}===Set",
        record("One", "C7|", "100"),
        record("Two", "r|", "100"),
        record("Three", "?", "100")
    );
    assert_eq!(
        parse_url(&url),
        Err(DecodeError::Semantic(SemanticError::InsufficientHistory))
    );
}

#[test]
fn escape_errors_are_returned() {
    assert_eq!(
        parse_url("irealb://Work%zz"),
        Err(DecodeError::Format(FormatError::InvalidHexDigit('z')))
    );
    assert_eq!(
        parse_url("irealb://Work%2"),
        Err(DecodeError::Format(FormatError::TruncatedEscape))
    );
}

#[test]
fn marker_is_required() {
    assert_eq!(decode_music(""), Err(DecodeError::Format(FormatError::MissingMarker)));
    assert_eq!(decode_music("C7|"), Err(DecodeError::Format(FormatError::MissingMarker)));
    assert_eq!(decode_music("1r34LbKcu"), Err(DecodeError::Format(FormatError::MissingMarker)));
    assert_eq!(
        decode_music("1r34LbKcu8C7|"),
        Err(DecodeError::Format(FormatError::MissingMarker))
    );
    assert_eq!(decode_music(MARKER).unwrap().bars.len(), 0);
}

#[test]
fn chart_is_descrambled_after_the_marker() {
    let plain = "{*AT44Db7XyQKcl LZGb7XyQKcl LZF7 E7LZEb7XyQ|D7XyQKcl  }[*BD7sus G7b5LZ";
    assert!(plain.chars().count() > 50);
    let scrambled = unscramble(plain);
    assert_ne!(scrambled, plain.to_string());
    let music = decode_music(&format!("{}{}", MARKER, scrambled)).unwrap();
    assert_eq!(music.raw, plain.to_string());
    assert_eq!(music.bars.len(), 9);
}

#[test]
fn unrecognized_input_is_located_in_the_descrambled_text() {
    let plain = format!("{}?{}", "C7|".repeat(20), "D7|".repeat(5));
    let scrambled = unscramble(&plain);
    assert_eq!(
        decode_music(&format!("{}{}", MARKER, scrambled)),
        Err(DecodeError::Format(FormatError::UnrecognizedInput(60)))
    );
}

#[test]
fn song_clone_is_equal() {
    let song = Song::from_text(&record("One", "{C7|x}", "120")).unwrap();
    assert_eq!(song.clone(), song);
    assert_eq!(render(&song.clone().music), render(&song.music));
}
