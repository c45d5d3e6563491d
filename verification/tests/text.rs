//! Text, numbers, durations and lists.

use lvv::json::JsonValue;
use lvv::list::reversed;
use lvv::store::TextMap;
use lvv::text::lines::{join, lines};
use lvv::text::number::{parse_unsigned, to_decimal, to_hex, to_hex_padded, to_signed_decimal};
use lvv::text::order::precedes;
use lvv::text::search::{contains, replace_char, shorten, strip_prefix, strip_suffix};
use lvv::text::trim::{trim, trim_end, trim_end_char, trim_start_char};
use lvv::time::Duration;

#[test]
fn lines_are_split_as_the_standard_library_does() {
    for text in ["", "\n", "a", "a\n", "a\r\nb", "a\r", "\r\n\r\n", "a\n\nb\r\r\n", "é\n☃"] {
        assert_eq!(lines(text), text.lines().collect::<Vec<_>>(), "{text:?}");
    }
    let list = ["a", "", "b"].map(|t| t.to_string()).to_vec();
    assert_eq!(join(&list, "; "), "a; ; b");
    assert_eq!(join(&Vec::new(), "; "), "");
}

#[test]
fn trimming_knows_unicode_spaces() {
    for text in ["", " a ", "\u{a0}x\u{2003}", "\u{feff}y", "\t\n\u{b}\u{c}\r", "a b\u{3000}"] {
        assert_eq!(trim(text), text.trim(), "{text:?}");
        assert_eq!(trim_end(text), text.trim_end(), "{text:?}");
    }
    assert_eq!(trim_start_char("//a/", '/'), "a/");
    assert_eq!(trim_end_char("//a//", '/'), "//a");
}

#[test]
fn numbers_are_written_and_read() {
    assert_eq!(to_decimal(0), "0");
    assert_eq!(to_decimal(u128::MAX), u128::MAX.to_string());
    assert_eq!(to_signed_decimal(i128::MIN), i128::MIN.to_string());
    for text in ["0", "+7", "007", "18446744073709551615", "18446744073709551616", "", "+", "-1", "1a"] {
        assert_eq!(parse_unsigned(text, u64::MAX), text.parse::<u64>().ok(), "{text:?}");
    }
    assert_eq!(to_hex(&vec![0, 0xab, 0xff]), "00abff");
    assert_eq!(to_hex_padded(0x1f, 16), "000000000000001f");
    assert_eq!(to_hex_padded(u64::MAX, 16), "ffffffffffffffff");
}

#[test]
fn texts_are_searched_and_cut() {
    assert_eq!(shorten("añb", 2), "añ");
    assert_eq!(replace_char("a:b:c", ':', '_'), "a_b_c");
    assert!(contains("crustacean", "rust"));
    assert!(!contains("rus", "rust"));
    assert_eq!(strip_prefix("```json", "```"), Some("json"));
    assert_eq!(strip_suffix("x```", "```"), Some("x"));
    assert_eq!(strip_suffix("x", "```"), None);
    for (a, b) in [("a", "b"), ("", "a"), ("a", "a"), ("ab", "a"), ("é", "z"), ("z", "é")] {
        assert_eq!(precedes(a, b), a < b, "{a:?} {b:?}");
    }
}

#[test]
fn durations_saturate() {
    assert_eq!(Duration::from_secs(2).as_millis(), 2000);
    assert_eq!(Duration::zero().saturating_mul(7), Duration::zero());
    let longest = Duration::from_secs(u64::MAX).saturating_mul(u32::MAX);
    let standard = std::time::Duration::MAX;
    assert_eq!(longest.nanos, standard.as_nanos());
    assert_eq!(Duration::from_secs(40).at_most(Duration::from_secs(30)), Duration::from_secs(30));
}

#[test]
fn lists_and_maps_keep_their_order() {
    assert_eq!(reversed(vec![1, 2, 3]), vec![3, 2, 1]);
    let mut map = TextMap::new();
    map.insert("b".to_string(), 1);
    map.insert("a".to_string(), 2);
    map.insert("b".to_string(), 3);
    assert_eq!((map.len(), map.get("b"), map.get("c")), (2, Some(&3), None));
    assert_eq!(map.entry(0), ("b", &3));
}

#[test]
fn json_texts_are_quoted_with_the_escapes_they_need() {
    let quoted = |text: &str| JsonValue::string(text).text();
    assert_eq!(quoted("a\"b\\c/d"), r#""a\"b\\c/d""#);
    assert_eq!(quoted("\u{8}\t\n\u{c}\r"), r#""\b\t\n\f\r""#);
    assert_eq!(quoted("\0\u{b}\u{1f} \u{7f}é😀"), "\"\\u0000\\u000b\\u001f \u{7f}é😀\"");
    let long = "é\u{1}".repeat(40);
    assert_eq!(quoted(&long), serde_json::to_string(&long).unwrap());
}
