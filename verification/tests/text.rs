//! Tests of the verified text transformations.

use calcbot::text::{
    ascii_codes, binary_codes, clap_text, make_password, mock_text, rate_bar, repeat_lines,
    reverse_text, text_stats,
};

#[test]
fn stats_count_chars_words_lines() {
    assert_eq!(text_stats("hello world"), (11, 2, 1));
    assert_eq!(text_stats("a\nb c\n"), (6, 3, 2));
    assert_eq!(text_stats(""), (0, 0, 0));
    assert_eq!(text_stats("  spaced   out  "), (16, 2, 1));
    assert_eq!(text_stats("\n"), (1, 0, 1));
}

#[test]
fn mock_alternates_case() {
    assert_eq!(mock_text("hello"), "HeLlO");
    assert_eq!(mock_text("RUST is fun"), "RuSt iS FuN");
    assert_eq!(mock_text(""), "");
}

#[test]
fn clap_decorates_words() {
    assert_eq!(clap_text("a b"), "\u{1F44F} a \u{1F44F} b \u{1F44F}");
    assert_eq!(clap_text("one"), "\u{1F44F} one \u{1F44F}");
    assert_eq!(clap_text("  two   words "), "\u{1F44F} two \u{1F44F} words \u{1F44F}");
}

#[test]
fn ascii_lists_code_points() {
    assert_eq!(ascii_codes("AB c"), "65 66 32 99");
    assert_eq!(ascii_codes(""), "");
}

#[test]
fn binary_lists_eight_bit_codes() {
    assert_eq!(binary_codes("AB"), "01000001 01000010");
    assert_eq!(binary_codes("\u{20AC}"), "10000010101100");
}

#[test]
fn rate_bar_mixes_blocks() {
    assert_eq!(rate_bar(0), "\u{2591}".repeat(10));
    assert_eq!(rate_bar(10), "\u{2588}".repeat(10));
    assert_eq!(
        rate_bar(3),
        format!("{}{}", "\u{2588}".repeat(3), "\u{2591}".repeat(7))
    );
}

#[test]
fn repeat_joins_with_newlines() {
    assert_eq!(repeat_lines("ha", 1), "ha");
    assert_eq!(repeat_lines("ha", 3), "ha\nha\nha");
}

#[test]
fn passwords_have_length_and_charset() {
    let charset = "ABCDEFGHJKLMNPQRSTUVWXYZabcdefghjkmnpqrstuvwxyz23456789!@#$%^&*";
    for len in [6, 16, 64] {
        let p = make_password(len);
        assert_eq!(p.chars().count(), len);
        assert!(p.chars().all(|c| charset.contains(c)));
    }
}

#[test]
fn reverse_reverses_characters() {
    assert_eq!(reverse_text("abc"), "cba");
    assert_eq!(reverse_text(""), "");
    assert_eq!(reverse_text("a\u{1F44F}b"), "b\u{1F44F}a");
}
