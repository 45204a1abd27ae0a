use openshell::string_map::StringMap;
use openshell::text::{
    decimal_text, eq_ignore_ascii_case, is_before, is_white_space, join, number_list_text,
    parse_unsigned, replace, same_text, strip, trim,
};
use openshell::values::{append_unique, contains_every, dedup, sorted_unique, Plain};

fn texts(items: &[&str]) -> Vec<String> {
    items.iter().map(|item| item.to_string()).collect()
}

#[test]
fn maps_are_walked_in_the_order_of_their_keys() {
    let mut map = StringMap::new();
    for (key, value) in [("b", 2u32), ("a", 1), ("", 0), ("\u{fc}", 9), ("ab", 3), ("b", 7)] {
        map.insert(key.to_string(), value);
    }
    assert_eq!(map.len(), 5);
    let keys: Vec<&String> = (0..map.len()).map(|i| map.key_at(i)).collect();
    assert_eq!(keys, vec!["", "a", "ab", "b", "\u{fc}"]);
    assert_eq!(map.get("b"), Some(&7));
    assert_eq!(map.value_at(4), &9);
    assert_eq!(map.remove("a"), Some(1));
    assert_eq!(map.remove("a"), None);
    assert!(!map.contains_key("a"));
    assert_eq!(map.len(), 4);
}

#[test]
fn maps_with_the_same_entries_are_the_same() {
    let mut a = StringMap::new();
    let mut b = StringMap::new();
    for key in ["x", "y"] {
        a.insert(key.to_string(), 1u32);
    }
    for key in ["y", "x"] {
        b.insert(key.to_string(), 1u32);
    }
    assert!(a.same(&b));
    assert_eq!(a, b);
    assert!(a.duplicate().same(&a));
    b.insert("x".to_string(), 2);
    assert!(!a.same(&b));
    assert!(!a.same(&StringMap::default()));
}

#[test]
fn the_order_of_texts_is_that_of_strings() {
    let samples = ["", "a", "aa", "ab", "b", "B", "\u{e9}", "\u{10000}", "\u{ffff}", "z"];
    for x in samples {
        for y in samples {
            assert_eq!(is_before(x, y), x < y, "{x:?} {y:?}");
            assert_eq!(same_text(x, y), x == y);
        }
    }
}

#[test]
fn case_is_ignored_for_ascii_letters_only() {
    let samples = ["MCP", "mcp", "mcP", "mc", "\u{c9}", "\u{e9}", "@", "`", "[", "{"];
    for x in samples {
        for y in samples {
            assert_eq!(eq_ignore_ascii_case(x, y), x.eq_ignore_ascii_case(y));
        }
    }
}

#[test]
fn white_space_is_what_unicode_says() {
    for n in 0..0x3100u32 {
        if let Some(c) = char::from_u32(n) {
            assert_eq!(is_white_space(c), c.is_whitespace(), "{n:x}");
        }
    }
    for text in ["", " ", " a ", "\u{2003}x y\u{3000}\r\n", "x"] {
        assert_eq!(trim(text), text.trim());
    }
    for text in ["", ".", "..a.b..", "a", ".a"] {
        assert_eq!(strip(text, '.'), text.trim_matches('.'));
    }
}

#[test]
fn numbers_are_written_and_read() {
    for n in [0, 9, 10, 99, 100, 65535, u64::MAX] {
        assert_eq!(decimal_text(n), n.to_string());
        assert_eq!(parse_unsigned(&n.to_string(), u64::MAX), Some(n));
    }
    for text in ["", "+", "-1", "+7", "007", "1 ", "18446744073709551616", "\u{661}", "99999999999999999999"] {
        assert_eq!(parse_unsigned(text, u64::MAX), text.parse::<u64>().ok(), "{text:?}");
        assert_eq!(
            parse_unsigned(text, 255),
            text.parse::<u8>().ok().map(u64::from),
            "{text:?}"
        );
    }
    assert_eq!(parse_unsigned("256", 255), None);
    assert_eq!(parse_unsigned("255", 255), Some(255));
    assert_eq!(number_list_text(&vec![443, 8443]), format!("{:?}", [443, 8443]));
    assert_eq!(number_list_text(&vec![]), "[]");
}

#[test]
fn texts_are_put_together() {
    assert_eq!(join(&texts(&["a", "b", "c"]), ", "), "a, b, c");
    assert_eq!(join(&texts(&["a"]), ", "), "a");
    assert_eq!(join(&texts(&[]), ", "), "");
    assert_eq!(replace("1.2:3.4", '.', ':', '-'), "1-2-3-4");
}

#[test]
fn lists_keep_first_occurrences() {
    let mut list = texts(&["b", "a"]);
    append_unique(&mut list, &texts(&["a", "c", "c", "b"]));
    assert_eq!(list, texts(&["b", "a", "c"]));
    let mut list = vec![3u32, 1, 3, 2, 1];
    dedup(&mut list);
    assert_eq!(list, vec![3, 1, 2]);
    assert_eq!(sorted_unique(&list), vec![1, 2, 3]);
    assert_eq!(sorted_unique(&texts(&["b", "a", "b"])), texts(&["a", "b"]));
    assert!(contains_every(&list, &vec![2, 2]));
    assert!(!contains_every(&list, &vec![2, 4]));
}
