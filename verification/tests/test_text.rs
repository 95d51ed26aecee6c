use rollatorium::number::Number;
use rollatorium::text::{chars_of, is_digit, is_whitespace, owned, push_chars, push_decimal, string_of};

#[test]
fn character_classes() {
    assert!(is_whitespace(' '));
    assert!(is_whitespace('\t'));
    assert!(is_whitespace('\u{a0}'));
    assert!(is_whitespace('\u{3000}'));
    assert!(!is_whitespace('x'));
    assert!(!is_whitespace('\u{200b}'));
    for c in '0'..='9' {
        assert!(is_digit(c));
    }
    assert!(!is_digit('a'));
    assert!(!is_digit('\u{663}'));
}

#[test]
fn decimal_text() {
    let mut s = owned("at ");
    push_decimal(&mut s, 0);
    assert_eq!(s, "at 0");
    let mut s = String::new();
    push_decimal(&mut s, 1207);
    assert_eq!(s, "1207");
    let mut s = String::new();
    push_decimal(&mut s, usize::MAX);
    assert_eq!(s, usize::MAX.to_string());
}

#[test]
fn slices_of_characters() {
    let chars = chars_of("4d6 [fire]");
    assert_eq!(chars.len(), 10);
    assert_eq!(string_of(&chars, 5, 9), "fire");
    assert_eq!(string_of(&chars, 3, 3), "");
    let mut s = owned("x");
    push_chars(&mut s, &chars, 0, 3);
    assert_eq!(s, "x4d6");
    assert_eq!(chars_of("\u{e9} d"), vec!['\u{e9}', ' ', 'd']);
}

#[test]
fn number_keys_order_values() {
    let k = |x: f64| Number { bits: x.to_bits() }.key();
    assert!(k(-2.0) < k(-1.0));
    assert!(k(-1.0) < k(0.0));
    assert_eq!(k(-0.0), k(0.0));
    assert!(k(0.0) < k(0.5));
    assert!(k(0.5) < k(3.0));
    assert!(k(3.0) < k(f64::INFINITY));
}
