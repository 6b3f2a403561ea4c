use tater::strmap::StringMap;
use tater::text::{
    chars_of, contains, copy_strings, format_decimal, is_space_char, join, parse_decimal,
    replace_text, same_text, split_lines, split_whitespace, starts_with, string_of_range, trim,
};
use tater::yaml::{copy_values, string_entries, YamlNumber, YamlValue};

fn strings(items: &[&str]) -> Vec<String> {
    items.iter().map(|s| s.to_string()).collect()
}

#[test]
fn whitespace_is_the_unicode_property() {
    for code in 0u32..0x11_0000 {
        if let Some(c) = char::from_u32(code) {
            assert_eq!(is_space_char(c), c.is_whitespace(), "U+{:04X}", code);
        }
    }
}

#[test]
fn words_are_runs_without_whitespace() {
    for input in ["", "  ", "a", " a  b\tc\n", "x\u{3000}y", "--a=b   -- --c "] {
        let wanted: Vec<String> = input.split_whitespace().map(|s| s.to_string()).collect();
        assert_eq!(split_whitespace(input), wanted, "{:?}", input);
    }
}

#[test]
fn lines_end_at_line_feeds() {
    for input in ["", "\n", "a", "a\n", "a\nb", "a\r\nb\r\n", "a\r", "\r\n\r\n", "a\n\nb\n", "x\ry\n"] {
        let wanted: Vec<String> = input.lines().map(|s| s.to_string()).collect();
        assert_eq!(split_lines(input), wanted, "{:?}", input);
    }
}

#[test]
fn search_and_replace_agree_with_the_standard_library() {
    let cases = [
        ("cargo test", "cargo test", "cargo tarpaulin"),
        ("xcargo testcargo test", "cargo test", "cargo tarpaulin"),
        ("aaaa", "aa", "b"),
        ("aaa", "aa", "b"),
        ("abc", "", "-"),
        ("", "", "-"),
        ("", "a", "b"),
        ("abc", "abcd", "x"),
        ("héllo wörld", "ö", "oe"),
    ];
    for (text, from, to) in cases {
        assert_eq!(replace_text(text, from, to), text.replace(from, to), "{:?}", (text, from));
        assert_eq!(contains(text, from), text.contains(from), "{:?}", (text, from));
        assert_eq!(starts_with(text, from), text.starts_with(from), "{:?}", (text, from));
    }
    assert!(same_text("abc", "abc"));
    assert!(!same_text("abc", "abd"));
    assert!(!same_text("abc", "ab"));
    assert_eq!(chars_of("héy"), vec!['h', 'é', 'y']);
    assert_eq!(string_of_range(&vec!['a', 'b', 'c', 'd'], 1, 3), "bc");
}

#[test]
fn join_and_trim_agree_with_the_standard_library() {
    assert_eq!(join(&strings(&["a", "b", "c"]), ", "), "a, b, c");
    assert_eq!(join(&strings(&["a"]), ", "), "a");
    assert_eq!(join(&Vec::new(), ", "), "");
    assert_eq!(join(&strings(&["", ""]), "\n"), "\n");
    for input in ["", "   ", " a ", "\t a b \r\n", "a", "\u{2003}x\u{a0}"] {
        assert_eq!(trim(input), input.trim(), "{:?}", input);
    }
    assert_eq!(copy_strings(&strings(&["x", "y"])), strings(&["x", "y"]));
}

#[test]
fn decimal_numerals_round_trip() {
    for n in [0usize, 1, 9, 10, 11, 99, 100, 12345, usize::MAX] {
        assert_eq!(format_decimal(n), n.to_string());
        assert_eq!(parse_decimal(&n.to_string()), Some(n));
    }
    for input in ["", "+", "-", "-0", "+0", "0", "00", "1a", " 1", "1 ", "٣", "18446744073709551616", "+42"] {
        assert_eq!(parse_decimal(input), input.parse::<usize>().ok(), "{:?}", input);
    }
}

#[test]
fn string_map_keeps_one_value_per_key_in_order() {
    let mut map: StringMap<String> = StringMap::new();
    assert!(map.is_empty());
    map.insert("b".to_string(), "1".to_string());
    map.insert("a".to_string(), "2".to_string());
    map.insert("b".to_string(), "3".to_string());
    assert_eq!(map.len(), 2);
    assert_eq!(map.key_at(0), "b");
    assert_eq!(map.value_at(0), "3");
    assert_eq!(map.key_at(1), "a");
    assert_eq!(map.get("a"), Some(&"2".to_string()));
    assert_eq!(map.get("c"), None);
    assert_eq!(map.position("a"), Some(1));
    assert!(map.contains_key("b"));
    assert!(!map.contains_key("B"));
    let mut other: StringMap<String> = StringMap::new();
    other.insert("a".to_string(), "9".to_string());
    other.insert("z".to_string(), "8".to_string());
    map.merge(&other);
    assert_eq!(map.len(), 3);
    assert_eq!(map.get("a"), Some(&"9".to_string()));
    assert_eq!(map.get("b"), Some(&"3".to_string()));
    assert_eq!(map.get("z"), Some(&"8".to_string()));
    assert_eq!(map.clone(), map);
}

#[test]
fn yaml_trees_are_copied_whole() {
    let tree = YamlValue::Mapping(vec![
        (
            YamlValue::String("list".to_string()),
            YamlValue::Sequence(vec![
                YamlValue::Null,
                YamlValue::Bool(false),
                YamlValue::Number(YamlNumber::Signed(-3)),
                YamlValue::Number(YamlNumber::FloatBits(1.5f64.to_bits())),
            ]),
        ),
        (YamlValue::Number(YamlNumber::Unsigned(1)), YamlValue::String("one".to_string())),
    ]);
    assert_eq!(tree.deep_copy(), tree);
    assert_eq!(tree.clone(), tree);
    assert_eq!(copy_values(&vec![tree.clone(), YamlValue::Null]), vec![tree.clone(), YamlValue::Null]);
    assert!(tree.as_mapping().is_some());
    assert!(tree.as_sequence().is_none());
    assert!(tree.as_str().is_none());
    assert!(!tree.is_string());
    let entries = tree.as_mapping().unwrap();
    assert_eq!(entries[0].0.as_str(), Some("list"));
    assert_eq!(entries[0].1.as_sequence().unwrap().len(), 4);
    assert!(entries[1].1.is_string());
}

#[test]
fn string_keyed_pairs_of_a_mapping_become_a_map() {
    let text = |s: &str| YamlValue::String(s.to_string());
    let pairs = vec![
        (text("b"), YamlValue::Bool(true)),
        (YamlValue::Null, text("dropped")),
        (text("a"), text("first")),
        (YamlValue::Number(YamlNumber::Unsigned(3)), text("dropped too")),
        (text("b"), YamlValue::Bool(false)),
    ];
    let map = string_entries(&pairs);
    assert_eq!(map.len(), 2);
    assert_eq!(map.key_at(0), "b");
    assert_eq!(map.value_at(0), &YamlValue::Bool(false));
    assert_eq!(map.key_at(1), "a");
    assert_eq!(map.value_at(1), &text("first"));
    assert!(string_entries(&Vec::new()).is_empty());
}
