use rustd::names::NameMap;
use rustd::text;

#[test]
fn names_map_to_values() {
    let mut map = NameMap::new();
    assert!(map.is_empty());
    map.insert("b".to_owned(), 1);
    map.insert("a".to_owned(), 2);
    map.insert("b".to_owned(), 3);
    assert_eq!(map.len(), 2);
    assert_eq!(map.get("b"), Some(&3));
    *map.get_mut("a").unwrap() = 5;
    assert_eq!(map.remove("a"), Some(5));
    assert_eq!(map.remove("a"), None);
    assert!(!map.contains("a"));
    assert_eq!(map.key_at(0), "b");
    assert_eq!(*map.value_at(0), 3);
}

#[test]
fn text_is_cut_as_the_standard_library_cuts_it() {
    for s in ["", "a", "a\n", "a\nb", "a\r\nb\n", "\n\n", "  x y  ", "a,b,,c", "\u{a0}gr\u{fc}n\u{2003}"] {
        assert_eq!(text::lines_of(s), s.lines().collect::<Vec<_>>());
        assert_eq!(text::trim(s), s.trim());
        assert_eq!(text::split(s, ','), s.split(',').collect::<Vec<_>>());
        assert_eq!(text::words_of(s), s.split_whitespace().collect::<Vec<_>>());
        assert_eq!(text::to_upper_case(s), s.to_ascii_uppercase());
        assert_eq!(text::bytes_of(s), s.as_bytes());
        assert_eq!(text::byte_len(s), s.len());
    }
}

#[test]
fn numbers_are_read_as_the_standard_library_reads_them() {
    for s in ["", "0", "7", "+7", "-7", "007", "18446744073709551615", "18446744073709551616", "1x", "+", " 1"] {
        assert_eq!(text::parse_number(s, u64::MAX), s.parse::<u64>().ok(), "{s}");
        assert_eq!(text::parse_number(s, 255), s.parse::<u8>().ok().map(u64::from), "{s}");
    }
    for n in [0u128, 9, 10, 12345, u128::MAX] {
        assert_eq!(text::decimal_of(n), n.to_string());
    }
    for n in [0i64, -1, i64::MIN, i64::MAX] {
        assert_eq!(text::signed_decimal_of(n), n.to_string());
    }
}

#[test]
fn parts_are_found_and_joined() {
    assert!(text::starts_with("abc", "ab"));
    assert!(!text::starts_with("abc", "bc"));
    assert!(text::ends_with("abc", "bc"));
    assert!(text::same("a", "a"));
    assert!(!text::same("a", "b"));
    assert_eq!(text::join_by(&vec!["a".to_owned(), "b".to_owned()], ", "), "a, b");
    assert!(text::mentions(&text::lowered("DBus.Service"), "dbus"));
    assert!(!text::mentions(&text::lowered("DBus"), "udev"));
    assert!(text::is_c_string("abc"));
    assert!(!text::is_c_string("a\0c"));
}
