//! Texts and numbers.

use niri_clip::order::{sort, Key};
use niri_clip::text::{
    byte_len, contains_folded, lines, parse_i64, parse_u128, push_hex, push_i64, push_u128, replace,
    split, starts_folded, starts_with, take_chars, trim, words,
};

#[test]
fn trimming_takes_every_white_space() {
    let space = "\u{a0}\u{2003}\u{3000} \t\r\n\u{85}";
    assert_eq!(trim(&format!("{space}剪 贴{space}")), "剪 贴");
    assert_eq!(trim(space), "");
    for c in '\0'..='\u{ffff}' {
        assert_eq!(trim(&c.to_string()), c.to_string().trim());
    }
}

#[test]
fn pieces_are_those_of_the_standard_library() {
    for s in ["", "a", "a\nb", "a\r\nb\n", "\n\n", "a\r", " x  y ", "a.b..c", "."] {
        assert_eq!(lines(s), s.lines().collect::<Vec<_>>());
        assert_eq!(words(s), s.split_whitespace().collect::<Vec<_>>());
        assert_eq!(split(s, '.'), s.split('.').collect::<Vec<_>>());
        assert_eq!(byte_len(s), s.len());
    }
    assert_eq!(byte_len("剪é😀"), 9);
}

#[test]
fn numbers_are_those_of_the_standard_library() {
    for s in ["0", "-1", "+5", "", "+", "-", "007", "9223372036854775807", "9223372036854775808", "-9223372036854775808", "-9223372036854775809", "1a", " 1"] {
        assert_eq!(parse_i64(s), s.parse::<i64>().ok());
        assert_eq!(parse_u128(s), s.parse::<u128>().ok());
    }
    assert_eq!(parse_u128(&u128::MAX.to_string()), Some(u128::MAX));
    let mut s = String::new();
    push_i64(&mut s, i64::MIN);
    push_u128(&mut s, u128::MAX);
    push_hex(&mut s, 0);
    push_hex(&mut s, u64::MAX);
    assert_eq!(s, format!("{}{}{:x}{:x}", i64::MIN, u128::MAX, 0, u64::MAX));
}

#[test]
fn parts_of_texts() {
    assert_eq!(replace("a↵b", '↵', "--"), "a--b");
    assert_eq!(take_chars("剪贴板", 2), "剪贴");
    assert_eq!(take_chars("ab", 9), "ab");
    assert!(starts_with("image/png", "image/") && !starts_with("ima", "image/"));
    assert!(contains_folded("The FOX", "fox") && !contains_folded("É", "é"));
    assert!(contains_folded("", "") && starts_folded("IMG:x", "img:"));
}

#[test]
fn keys_are_sorted_by_rank_time_and_id() {
    let key = |rank: i128, ts: i64, id: i128, at: usize| Key { rank, ts, id, at };
    let keys = vec![key(0, 5, 1, 0), key(2, 1, 2, 1), key(0, 5, 3, 2), key(0, 9, 4, 3)];
    let at: Vec<usize> = sort(&keys).iter().map(|k| k.at).collect();
    assert_eq!(at, vec![1, 3, 2, 0]);
}
