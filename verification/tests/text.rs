use git_ai::text::{
    contains, decimal, head_before, is_blank, parse_i64, parse_usize, split_lines,
    starts_with_pair,
};
use git_ai::text_map::TextMap;

#[test]
fn parts_are_found() {
    assert!(contains("abcabd", "abd"));
    assert!(contains("abc", ""));
    assert!(!contains("abc", "abcd"));
    assert_eq!(head_before("a::b::c", "::"), "a");
    assert_eq!(head_before("a:b", "::"), "a:b");
    assert_eq!(head_before("ä::b", "::"), "ä");
}

#[test]
fn pairs_begin_texts() {
    assert!(starts_with_pair("h_1", 'h', '_'));
    assert!(!starts_with_pair("h", 'h', '_'));
    assert!(!starts_with_pair("_h", 'h', '_'));
}

#[test]
fn blank_is_white_space_only() {
    assert!(is_blank(""));
    assert!(is_blank(" \t\r\n\u{3000}"));
    assert!(!is_blank(" x "));
}

#[test]
fn white_space_is_as_listed() {
    let listed = |code: u32| {
        matches!(
            code,
            0x9..=0xd
                | 0x20
                | 0x85
                | 0xa0
                | 0x1680
                | 0x2000..=0x200a
                | 0x2028
                | 0x2029
                | 0x202f
                | 0x205f
                | 0x3000
        )
    };
    for c in '\0'..=char::MAX {
        assert_eq!(is_blank(c.to_string().as_str()), listed(c as u32), "{c:?}");
    }
}

#[test]
fn lines_split_as_in_the_standard_library() {
    for text in [
        "", "\n", "\r\n", "a", "a\n", "a\r\n", "a\r", "\r\r\n", "a\n\nb", "a\rb\r\n\r", "ä\nb\r\n",
    ] {
        let expected: Vec<String> = text.lines().map(str::to_string).collect();
        assert_eq!(split_lines(text), expected, "{text:?}");
    }
}

#[test]
fn numbers_parse_as_in_the_standard_library() {
    for text in [
        "", "0", "6", "+6", "-6", "-0", "+", "-", "007", "1 ", " 1", "1x", "--1", "+-1",
        "18446744073709551615", "18446744073709551616", "9223372036854775807",
        "9223372036854775808", "-9223372036854775808", "-9223372036854775809",
        "99999999999999999999999999",
    ] {
        assert_eq!(parse_usize(text), text.parse().ok(), "{text:?}");
        assert_eq!(parse_i64(text), text.parse().ok(), "{text:?}");
    }
}

#[test]
fn numbers_are_written_and_read_back() {
    for n in [0, 9, 10, 86_400, i64::MAX as u64, u64::MAX] {
        assert_eq!(decimal(n), n.to_string());
    }
    assert_eq!(parse_i64(&decimal(i64::MAX as u64)), Some(i64::MAX));
    assert_eq!(parse_i64(&decimal(u64::MAX)), None);
}

#[test]
fn maps_hold_one_value_for_a_key() {
    let mut map: TextMap<String> = TextMap::new();
    map.insert("a".to_string(), "1".to_string());
    map.insert("b".to_string(), "2".to_string());
    map.insert("a".to_string(), "3".to_string());
    map.insert_if_absent("b".to_string(), "4".to_string());
    map.insert_if_absent("c".to_string(), "5".to_string());
    assert_eq!(map.len(), 3);
    assert_eq!(map.get(&"a".to_string()), Some(&"3".to_string()));
    assert_eq!(map.get(&"b".to_string()), Some(&"2".to_string()));
    let copy = map.duplicate();
    map.retain(&vec!["b".to_string(), "z".to_string()]);
    assert_eq!(map.len(), 1);
    assert_eq!(map.key_at(0), "b");
    assert_eq!(map.value_at(0), "2");
    assert_eq!(map.remove(&"b".to_string()), Some("2".to_string()));
    assert_eq!(map.remove(&"b".to_string()), None);
    assert_eq!(copy.len(), 3);
    assert_eq!(copy.get(&"c".to_string()), Some(&"5".to_string()));
}
