use ireal::{obfusc50, unscramble};

const BLOCK: &str = "abcdefghijklmnopqrstuvwxyzABCDEFGHIJKLMNOPQRSTUVWX";
const PERMUTED: &str = "XWVUTfghijNMLKJIHGFEDCBAyzxwvutsrqponmlkOPQRSedcba";

#[test]
fn block_is_permuted() {
    assert_eq!(BLOCK.chars().count(), 50);
    assert_eq!(obfusc50(BLOCK), PERMUTED.to_string());
    assert_eq!(unscramble(BLOCK), PERMUTED.to_string());
}

#[test]
fn block_positions_move_as_described() {
    let source: Vec<char> = BLOCK.chars().collect();
    let result: Vec<char> = obfusc50(BLOCK).chars().collect();
    for k in 0..50 {
        let mirrored = k < 5 || (10..24).contains(&k) || (26..40).contains(&k) || k >= 45;
        let from = if mirrored { 49 - k } else { k };
        assert_eq!(result[k], source[from], "position {}", k);
    }
}

#[test]
fn descrambling_twice_restores_a_block() {
    assert_eq!(unscramble(&unscramble(BLOCK)), BLOCK.to_string());
    let digits = "0123456789".repeat(5);
    assert_eq!(unscramble(&digits), "98765567899876543210987645321098765432100123443210".to_string());
    assert_eq!(unscramble(&unscramble(&digits)), digits);
}

#[test]
fn descrambling_twice_restores_any_text() {
    for len in [0usize, 1, 2, 49, 50, 51, 52, 99, 100, 101, 149, 150, 184, 250] {
        let text: String = (0..len).map(|i| char::from(b'!' + (i % 90) as u8)).collect();
        assert_eq!(unscramble(&unscramble(&text)), text, "length {}", len);
        assert_eq!(unscramble(&text).chars().count(), len);
    }
}

#[test]
fn short_text_is_unchanged() {
    assert_eq!(unscramble(""), String::new());
    assert_eq!(unscramble("a"), "a".to_string());
    let text = &BLOCK[..49];
    assert_eq!(unscramble(text), text.to_string());
}

#[test]
fn remainder_after_a_block_is_unchanged() {
    let text = format!("{}{}", BLOCK, "tail");
    assert_eq!(unscramble(&text), format!("{}{}", PERMUTED, "tail"));
    let one_more = format!("{}{}", BLOCK, "t");
    assert_eq!(unscramble(&one_more), format!("{}{}", PERMUTED, "t"));
}

#[test]
fn every_full_block_is_permuted() {
    let text = format!("{}{}{}", BLOCK, BLOCK, "xyz");
    assert_eq!(unscramble(&text), format!("{}{}{}", PERMUTED, PERMUTED, "xyz"));
}

#[test]
fn blocks_are_counted_in_characters() {
    let text = format!("{}abcde{}fghij{}", "é".repeat(5), "x".repeat(30), "ü".repeat(5));
    assert_eq!(text.chars().count(), 50);
    let expected = format!("{}abcde{}fghij{}", "ü".repeat(5), "x".repeat(30), "é".repeat(5));
    assert_eq!(unscramble(&text), expected);
}
