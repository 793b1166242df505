use ink_log::text::{bytes_start_with, decode_text, push_decimal, push_padded, starts_with};

#[test]
fn decimal_numerals() {
    for value in [0u32, 1, 9, 10, 11, 99, 100, 101, 65535, 1000000, 4278189824, u32::MAX] {
        let mut out = String::from("n=");
        push_decimal(&mut out, value);
        assert_eq!(out, format!("n={}", value));
    }
}

#[test]
fn padding_fills_up_on_the_right() {
    let mut out = String::from(">");
    push_padded(&mut out, "WARN", 5);
    assert_eq!(out, ">WARN ");
    let mut out = String::new();
    push_padded(&mut out, "ERROR", 5);
    assert_eq!(out, "ERROR");
    let mut out = String::new();
    push_padded(&mut out, "LONGER", 5);
    assert_eq!(out, "LONGER");
    let mut out = String::new();
    push_padded(&mut out, "", 3);
    assert_eq!(out, "   ");
    // width counts characters, not bytes
    let mut out = String::new();
    push_padded(&mut out, "\u{e4}\u{f6}", 4);
    assert_eq!(out, "\u{e4}\u{f6}  ");
    assert_eq!(out, format!("{:<4}", "\u{e4}\u{f6}"));
}

#[test]
fn prefixes_of_text() {
    assert!(starts_with("a::b::c", "a::b"));
    assert!(starts_with("a::b::c", ""));
    assert!(starts_with("a::b", "a::b"));
    assert!(!starts_with("a::b", "a::b::c"));
    assert!(!starts_with("a::x", "a::b"));
    assert!(!starts_with("", "a"));
    assert!(starts_with("gr\u{fc}n", "gr\u{fc}"));
    assert!(!starts_with("gr\u{fc}n", "gru"));
    for (text, prefix) in [("abc", "ab"), ("abc", "b"), ("\u{1f4cb}x", "\u{1f4cb}"), ("", "")] {
        assert_eq!(starts_with(text, prefix), text.starts_with(prefix));
    }
}

#[test]
fn prefixes_of_bytes() {
    assert!(bytes_start_with(&[1, 2, 3], &[1, 2]));
    assert!(bytes_start_with(&[1, 2, 3], &[]));
    assert!(!bytes_start_with(&[1, 2, 3], &[2]));
    assert!(!bytes_start_with(&[1, 2], &[1, 2, 3]));
}

#[test]
fn bytes_are_read_as_text_only_if_well_formed() {
    assert_eq!(decode_text(b""), Some(""));
    assert_eq!(decode_text(b"plain"), Some("plain"));
    assert_eq!(decode_text("gr\u{fc}\u{df}e \u{1f4cb}".as_bytes()), Some("gr\u{fc}\u{df}e \u{1f4cb}"));
    // a lone continuation byte, a sequence cut short, an overlong form, a surrogate
    assert_eq!(decode_text(&[0x80]), None);
    assert_eq!(decode_text(&[b'a', 0xe2, 0x9d]), None);
    assert_eq!(decode_text(&[0xc0, 0xaf]), None);
    assert_eq!(decode_text(&[0xed, 0xa0, 0x80]), None);
    assert_eq!(decode_text(&[0xf4, 0x90, 0x80, 0x80]), None);
}
