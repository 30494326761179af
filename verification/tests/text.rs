use epochoxide::bytes::{hex_lower, hex_upper, parse_hex, position, write_hex};
use epochoxide::capture::selection;
use epochoxide::json::{Number, Value};
use epochoxide::keyed::TextMap;
use epochoxide::number::{parse_i64, parse_unsigned, wrap, wrapping_sum, write_i64, write_u64};
use epochoxide::order::{before, reorder, sorted_order, TextKey};
use epochoxide::path::{components, file_name, join_path, parent, split_extension};
use epochoxide::providers::files::fd_pattern;
use epochoxide::providers::windows::icon_candidates;
use epochoxide::text::{
    cut_before, double_quote, join, keep_distinct, lines, replace, same_ignoring_case, shell_quote,
    split, split_first, strip_suffixes, trim, words,
};

#[test]
fn numbers_read_back() {
    for n in [0, 7, 10, 999, u64::MAX] {
        assert_eq!(parse_unsigned(&write_u64(n), u64::MAX), Some(n));
    }
    for n in [0, -1, i64::MIN, i64::MAX] {
        assert_eq!(parse_i64(&write_i64(n)), Some(n));
    }
    assert_eq!(write_i64(i64::MIN), "-9223372036854775808");
    assert_eq!(parse_unsigned("+12", 12), Some(12));
    assert_eq!(parse_unsigned("13", 12), None);
    assert_eq!(parse_unsigned("", 12), None);
    assert_eq!(parse_unsigned("-1", 12), None);
    assert_eq!(parse_i64("9223372036854775808"), None);
    assert_eq!(parse_i64("-9223372036854775809"), None);
    assert_eq!(wrap(i32::MAX as i128 + 1), i32::MIN);
    assert_eq!(wrapping_sum(i32::MIN, -1), i32::MAX);
}

#[test]
fn texts_are_ordered_as_their_characters_are() {
    assert!(before("a", "b") && !before("b", "a") && !before("a", "a"));
    assert!(before("a", "ab") && before("Z", "a") && before("z", "é"));
    let keys: Vec<TextKey> =
        ["b", "a", "b", "A"].iter().map(|s| TextKey(s.to_string())).collect();
    let order = sorted_order(&keys);
    assert_eq!(order, vec![3, 1, 0, 2]);
    assert_eq!(reorder(vec!["w", "x", "y", "z"], &order), vec!["z", "x", "w", "y"]);
}

#[test]
fn white_space_is_taken_off() {
    assert_eq!(trim("\u{3000}\t a b \u{85}\n"), "a b");
    assert_eq!(words(" a\u{2003}b\n c "), vec!["a", "b", "c"]);
    assert_eq!(lines("a\r\nb\n\nc\r"), vec!["a", "b", "", "c\r"]);
    assert_eq!(lines("a\n"), vec!["a"]);
    assert!(lines("").is_empty());
}

#[test]
fn texts_are_cut_and_joined() {
    assert_eq!(split("a,,b", ','), vec!["a", "", "b"]);
    assert_eq!(split("", ','), vec![""]);
    assert_eq!(join(&split("a,,b", ','), ","), "a,,b");
    assert_eq!(split_first("a=b=c", '='), ("a".into(), Some("b=c".into())));
    assert_eq!(split_first("abc", '='), ("abc".into(), None));
    assert_eq!(replace("aaa", "aa", "b"), "ba");
    assert_eq!(strip_suffixes("a...", "."), "a");
    assert_eq!(cut_before("a__b__c", "__"), "a");
    assert_eq!(
        keep_distinct(&vec!["a".into(), "b".into(), "a".into()]),
        vec!["a", "b"]
    );
    assert!(same_ignoring_case("Content-Length", "content-LENGTH"));
    assert!(!same_ignoring_case("É", "é"));
}

#[test]
fn quoted_texts_are_one_word() {
    assert_eq!(shell_quote("it's"), "'it'\\''s'");
    assert_eq!(shell_quote(""), "''");
    assert_eq!(double_quote("a\"b\\"), "\"a\\\"b\\\\\"");
}

#[test]
fn bytes_that_are_no_text_are_replaced() {
    assert_eq!(selection(true, b"a\xffb", b""), Ok(Some("a\u{fffd}b".into())));
}

#[test]
fn letters_beyond_ascii_are_letters() {
    assert_eq!(fd_pattern("é_ö.x y"), "é_ö\\.x\\ y");
    assert_eq!(icon_candidates("ÄPP")[0], "äpp");
}

#[test]
fn bytes_are_written_in_hexadecimal() {
    assert_eq!(hex_lower(&[0, 0xab, 0x0f]), "00ab0f");
    assert_eq!(hex_upper(&[0, 0xab, 0x0f]), "00AB0F");
    assert_eq!(write_hex(0), "0");
    assert_eq!(write_hex(u64::MAX), "ffffffffffffffff");
    assert_eq!(parse_hex("1A"), Some(26));
    assert_eq!(parse_hex("x"), None);
    assert_eq!(position(b"abcabc", b"ca"), Some(2));
    assert_eq!(position(b"abc", b"x"), None);
}

#[test]
fn paths_are_taken_apart() {
    assert_eq!(file_name("/a/b.txt").as_deref(), Some("b.txt"));
    assert_eq!(file_name("/a/b/").as_deref(), Some("b"));
    assert_eq!(file_name("a/.").as_deref(), Some("a"));
    assert_eq!(file_name("/a/.."), None);
    assert_eq!(file_name("/"), None);
    assert_eq!(split_extension("a.tar.gz"), ("a.tar".into(), Some("gz".into())));
    assert_eq!(split_extension(".bashrc"), (".bashrc".into(), None));
    assert_eq!(split_extension("a."), ("a".into(), Some("".into())));
    assert_eq!(join_path("/a", "b"), "/a/b");
    assert_eq!(join_path("/a/", "b"), "/a/b");
    assert_eq!(join_path("/a", "/b"), "/b");
    assert_eq!(parent("/a/b").as_deref(), Some("/a"));
    assert_eq!(parent("/a").as_deref(), Some("/"));
    assert_eq!(parent("/"), None);
    assert_eq!(components("/a//./b/"), vec!["/", "a", "b"]);
}

#[test]
fn a_map_keeps_the_last_value_of_a_key() {
    let mut map: TextMap<i32> = TextMap::new();
    map.insert("a".into(), 1);
    map.insert("b".into(), 2);
    map.insert("a".into(), 3);
    assert_eq!(map.get("a"), Some(&3));
    assert_eq!(map.get("c"), None);
    assert_eq!(map.entries.len(), 2);
}

#[test]
fn fields_are_read_by_name_and_kind() {
    let value = Value::Object(vec![
        ("n".into(), Value::Number(Number::Negative(-3))),
        ("u".into(), Value::Number(Number::Unsigned(u64::MAX))),
        ("d".into(), Value::Number(Number::Decimal("1.5".into()))),
        ("t".into(), Value::Text("x".into())),
    ]);
    assert_eq!(value.i64_at("n"), Some(-3));
    assert_eq!(value.u64_at("n"), None);
    assert_eq!(value.i64_at("u"), None);
    assert_eq!(value.u64_at("u"), Some(u64::MAX));
    assert_eq!(value.i64_at("d"), None);
    assert_eq!(value.text_or_empty("t"), "x");
    assert_eq!(value.text_or_empty("n"), "");
    assert_eq!(value.i64_or("missing", 9), 9);
}
