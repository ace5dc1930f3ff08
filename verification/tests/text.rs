use fs_test_harness::json::{JsonValue, Number};
use fs_test_harness::numeral::{parse_usize, write_decimal, write_signed, write_two_digits};
use fs_test_harness::string_map::StringMap;
use fs_test_harness::text::{
    str_after_last, str_contains, str_join, str_lt, str_replace, str_split, str_strip_prefix,
    str_strip_suffix, str_trim, str_trim_end_char, str_trim_start_char, str_words,
};

#[test]
fn numerals() {
    assert_eq!(write_decimal(0), "0");
    assert_eq!(write_decimal(u64::MAX), u64::MAX.to_string());
    assert_eq!(write_signed(-120), "-120");
    assert_eq!(write_signed(i64::MIN), i64::MIN.to_string());
    assert_eq!(write_two_digits(7), "07");
    assert_eq!(write_two_digits(107), "107");
    for s in ["0", "+7", "007", "", "+", "-1", "1 ", "18446744073709551615", "18446744073709551616"] {
        assert_eq!(parse_usize(s), s.parse::<usize>().ok(), "{s}");
    }
}

#[test]
fn pieces_of_text() {
    assert_eq!(str_split("a..b.", '.'), "a..b.".split('.').collect::<Vec<_>>());
    assert_eq!(str_split("", '.'), vec![""]);
    assert_eq!(str_words(" a\tb\u{2003}c "), vec!["a", "b", "c"]);
    assert_eq!(str_after_last("a/b/c", '/'), "c");
    assert_eq!(str_after_last("abc", '/'), "abc");
    assert_eq!(str_after_last("abc/", '/'), "");
    assert_eq!(str_trim("\u{a0} x \u{3000}\n"), "x");
    assert_eq!(str_trim_start_char("//a/", '/'), "a/");
    assert_eq!(str_trim_end_char("/a//", '/'), "/a");
    assert_eq!(str_strip_prefix("abc", "ab"), Some("c".to_string()));
    assert_eq!(str_strip_prefix("abc", "b"), None);
    assert_eq!(str_strip_suffix("a.exe", ".exe"), Some("a".to_string()));
    assert_eq!(str_strip_suffix("exe", ".exe"), None);
    assert_eq!(str_replace("aaaa", "aa", "b"), "bb");
    assert_eq!(str_replace("xaax", "a", "aa"), "xaaaax");
    assert!(str_contains("abc", "bc"));
    assert!(str_contains("abc", ""));
    assert!(!str_contains("abc", "ac"));
    assert_eq!(str_join(&vec!["a".to_string(), "b".to_string()], ", "), "a, b");
    assert!(str_lt("Z", "a"));
    assert!(str_lt("a", "ab"));
    assert!(!str_lt("\u{e9}", "z"));
}

#[test]
fn white_space_is_that_of_std() {
    for c in (0u32..0x11_0000).filter_map(char::from_u32) {
        assert_eq!(fs_test_harness::text::char_is_white(c), c.is_whitespace(), "{c:?}");
    }
}

#[test]
fn maps_are_ordered_by_key() {
    let mut map: StringMap<String> = StringMap::new();
    for key in ["b", "a", "c", "a"] {
        map.insert(key.to_string(), format!("{key}{}", map.len()));
    }
    assert_eq!(map.len(), 3);
    let keys: Vec<&str> = (0..map.len()).map(|i| map.key_at(i).as_str()).collect();
    assert_eq!(keys, vec!["a", "b", "c"]);
    assert_eq!(map.get("a").map(|s| s.as_str()), Some("a3"));
    assert_eq!(map.get("d"), None);
    assert_eq!(map.copy(), map);
    assert_eq!(map.clone(), map);
}

#[test]
fn json_text_is_that_of_serde_json() {
    let raw = "{\"a\":[1,-2,2.5,1e300,\"x\\u0001\\\"\"],\"b\":{\"c\":null,\"d\":true}}";
    let mut inner = StringMap::new();
    inner.insert("d".to_string(), JsonValue::Bool(true));
    inner.insert("c".to_string(), JsonValue::Null);
    let items = vec![
        JsonValue::Number(Number::Unsigned(1)),
        JsonValue::Number(Number::Signed(-2)),
        JsonValue::Number(Number::Float("2.5".to_string())),
        JsonValue::Number(Number::Float("1e300".to_string())),
        JsonValue::String("x\u{1}\"".to_string()),
    ];
    let mut outer = StringMap::new();
    outer.insert("b".to_string(), JsonValue::Object(inner));
    outer.insert("a".to_string(), JsonValue::Array(items));
    let value = JsonValue::Object(outer);
    let parsed: serde_json::Value = serde_json::from_str(raw).unwrap();
    assert_eq!(value.to_json_text(), parsed.to_string());
    assert_eq!(value.clone(), value);
}
