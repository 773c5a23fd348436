use validate_encoding::text::{push_decimal, push_hex2, push_padded, same_text};

#[test]
fn decimal_numerals() {
    let mut s = String::new();
    push_decimal(&mut s, 0);
    assert_eq!(s, "0");
    let mut s = String::from("n=");
    push_decimal(&mut s, 1234567);
    assert_eq!(s, "n=1234567");
}

#[test]
fn hexadecimal_bytes() {
    let mut s = String::new();
    push_hex2(&mut s, 0x0A);
    push_hex2(&mut s, 0xFF);
    push_hex2(&mut s, 0x00);
    assert_eq!(s, "0AFF00");
}

#[test]
fn right_alignment_counts_characters() {
    let mut s = String::new();
    push_padded(&mut s, "ab", 5);
    assert_eq!(s, "   ab");
    let mut s = String::new();
    push_padded(&mut s, "UTF8→LATIN1", 13);
    assert_eq!(s, "  UTF8→LATIN1");
    let mut s = String::new();
    push_padded(&mut s, "toolong", 3);
    assert_eq!(s, "toolong");
}

#[test]
fn text_equality() {
    assert!(same_text("UTF-8", "UTF-8"));
    assert!(!same_text("UTF-8", "utf-8"));
}
