use ireal::{parse, parse_music, render, simplify, tokenize, unescape_percent, unscramble};

struct Dice(u64);

impl Dice {
    fn roll(&mut self, sides: usize) -> usize {
        self.0 = self.0.wrapping_mul(6364136223846793005).wrapping_add(1442695040888963407);
        ((self.0 >> 33) as usize) % sides
    }
}

const PIECES: [&str; 40] = [
    "C", "Db", "F#", "7", "-7", "^7", "h7", "o", "+", "69", "-69", "b9", "#11", "sus", "alt",
    "add9", "/G", "n", "|", "||", "[", "]", "Z", "Kcl", "LZ", "{", "}", ",", "XyQ", "r|", "x",
    "s", "l", "Q", "S", "f", " ", "*A", "N1", "T34",
];

fn chart(dice: &mut Dice, pieces: usize) -> String {
    let mut text = String::new();
    for _ in 0..pieces {
        text.push_str(PIECES[dice.roll(PIECES.len())]);
    }
    text
}

#[test]
fn any_chart_is_read_or_refused() {
    let mut dice = Dice(7);
    for _ in 0..2000 {
        let pieces = dice.roll(40);
        let text = chart(&mut dice, pieces);
        if let Ok(music) = parse_music(&text) {
            assert_eq!(music.bars.len(), music.written_bars.len());
            assert_eq!(music.raw, text);
            assert!(music.bars.iter().all(|bar| bar.counts.is_empty()
                || bar.counts.iter().any(|slot| matches!(slot, ireal::CountElement::Chord(_, _)))));
            let first = render(&music);
            assert_eq!(render(&music), first);
            if music.bars.is_empty() {
                assert_eq!(first, String::new());
            } else {
                assert!(first.ends_with("|\n"));
                assert_eq!(first.lines().count(), (music.bars.len() + 3) / 4);
            }
        }
    }
}

#[test]
fn normal_form_reads_like_the_tokens() {
    let mut dice = Dice(11);
    for _ in 0..2000 {
        let pieces = dice.roll(30);
        let text = chart(&mut dice, pieces);
        if let Ok(tokens) = tokenize(&text) {
            assert_eq!(parse(&simplify(&tokens)), parse(&tokens), "{:?}", text);
        }
    }
}

#[test]
fn any_text_is_descrambled_back() {
    let mut dice = Dice(13);
    for _ in 0..500 {
        let len = dice.roll(230);
        let text: String =
            (0..len).map(|_| char::from_u32(0x21 + dice.roll(0x250) as u32).unwrap()).collect();
        assert_eq!(unscramble(&unscramble(&text)), text);
    }
}

#[test]
fn escaped_text_is_decoded_back() {
    let mut dice = Dice(17);
    for _ in 0..500 {
        let len = dice.roll(60);
        let text: String = (0..len).map(|_| char::from_u32(dice.roll(256) as u32).unwrap()).collect();
        let escaped: String = text.chars().map(|c| format!("%{:02X}", c as u32)).collect();
        assert_eq!(unescape_percent(&escaped), Ok(text));
    }
}

#[test]
fn chart_without_a_repeat_sign_is_always_read() {
    let mut dice = Dice(19);
    for _ in 0..2000 {
        let pieces = dice.roll(40);
        let mut text = String::new();
        for _ in 0..pieces {
            let piece = PIECES[dice.roll(PIECES.len())];
            if piece != "x" && piece != "r|" && piece != "Kcl" {
                text.push_str(piece);
            }
        }
        if tokenize(&text).is_ok() {
            assert!(parse_music(&text).is_ok(), "{:?}", text);
        }
    }
}

#[test]
fn errors_of_the_bars_are_the_two_of_the_repeat_signs() {
    let mut dice = Dice(23);
    for _ in 0..2000 {
        let pieces = dice.roll(20);
        let text = chart(&mut dice, pieces);
        if let Ok(tokens) = tokenize(&text) {
            if let Err(error) = parse(&tokens) {
                assert!(matches!(
                    error,
                    ireal::SemanticError::NoPriorBar | ireal::SemanticError::InsufficientHistory
                ));
                assert!(tokens.iter().any(|t| matches!(
                    t,
                    ireal::Token::RepeatMeasure
                        | ireal::Token::RepeatTwoMeasures
                        | ireal::Token::BarAndRepeat
                )));
            }
        }
    }
}
