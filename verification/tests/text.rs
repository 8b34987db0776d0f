use vigil_collector::binary64::{Real, BYTES_CEILING};
use vigil_collector::names::{before, join, NameMap, NameSet, OrderedNames};
use vigil_collector::number::{decimal, parse_i64, parse_u64};
use vigil_collector::text::{
    contains, find_first, find_last, lines, split, split_once, starts_with, strip, strip_prefix,
    to_small, trim, words, Class,
};

#[test]
fn splitting_matches_the_standard_library() {
    for s in ["", "a", "a\nb", "a\r\nb\n", "\n\n", "x\r", "a\r\r\nb", "\u{85}é x\u{2003}y\t"] {
        assert_eq!(lines(s), s.lines().collect::<Vec<_>>());
        assert_eq!(words(s), s.split_whitespace().collect::<Vec<_>>());
        assert_eq!(trim(s), s.trim());
        assert_eq!(split(s, Class::One('\n')), s.split('\n').collect::<Vec<_>>());
        assert_eq!(to_small(s), s.to_ascii_lowercase());
    }
    assert_eq!(strip("\"\"a\"b\"", Class::One('"')), "a\"b");
    assert_eq!(split_once("a:b:c", ':'), Some(("a".to_string(), "b:c".to_string())));
    assert_eq!(split_once("abc", ':'), None);
}

#[test]
fn white_space_is_that_of_unicode() {
    for n in 0..0x3100u32 {
        if let Some(c) = char::from_u32(n) {
            assert_eq!(Class::Space.contains(c), c.is_whitespace());
        }
    }
}

#[test]
fn prefixes_and_parts_are_found() {
    assert!(starts_with("/snap/x", "/snap/"));
    assert!(!starts_with("/snap", "/snap/"));
    assert_eq!(strip_prefix("Pss: 1", "Pss:"), Some(" 1".to_string()));
    assert_eq!(strip_prefix("Rss", "Pss:"), None);
    assert!(contains("core package", "package"));
    assert!(contains("x", ""));
    assert!(!contains("pack", "package"));
    let rows = vec!["k=1".to_string(), "x=2".to_string(), "k=3".to_string()];
    assert_eq!(find_first(&rows, "k="), Some("1".to_string()));
    assert_eq!(find_last(&rows, "k="), Some("3".to_string()));
    assert_eq!(find_last(&rows, "z="), None);
}

#[test]
fn numbers_are_read_as_the_standard_library_does() {
    for s in ["", "0", "+7", "-7", "007", "18446744073709551615", "18446744073709551616", "1x", "+", "-", " 1", "９"] {
        assert_eq!(parse_u64(s), s.parse::<u64>().ok());
        assert_eq!(parse_i64(s), s.parse::<i64>().ok());
    }
    for s in ["9223372036854775807", "9223372036854775808", "-9223372036854775808", "-9223372036854775809"] {
        assert_eq!(parse_i64(s), s.parse::<i64>().ok());
    }
}

#[test]
fn decimals_come_back() {
    for n in [0, 7, 10, 12345, u64::MAX] {
        assert_eq!(decimal(n), n.to_string());
        assert_eq!(parse_u64(&decimal(n)), Some(n));
    }
}

#[test]
fn sets_hold_a_name_once() {
    let mut s = NameSet::new();
    s.insert("a".to_string());
    s.insert("a".to_string());
    s.insert("b".to_string());
    assert_eq!(s.len(), 2);
    assert!(s.remove("a"));
    assert!(!s.remove("a"));
    assert!(!s.contains("a") && s.contains("b"));
}

#[test]
fn ordered_names_are_sorted() {
    let mut o = OrderedNames::new();
    for n in ["www", "root", "é", "Root", "www", "ro"] {
        o.insert(n.to_string());
    }
    assert_eq!(o.join(", "), "Root, ro, root, www, é");
    assert!(before("ro", "root"));
    assert!(!before("root", "root"));
    assert_eq!(join(&vec!["a".to_string(), "b".to_string()], "-"), "a-b");
    assert_eq!(join(&Vec::new(), "-"), "");
}

#[test]
fn maps_keep_the_last_value() {
    let mut m: NameMap<u64> = NameMap::new();
    assert!(m.is_empty());
    m.insert("a".to_string(), 1);
    m.insert("b".to_string(), 2);
    m.insert("a".to_string(), 3);
    assert_eq!(m.get("a"), Some(&3));
    assert_eq!(m.get("c"), None);
    assert_eq!(m.pairs().len(), 2);
}

#[test]
fn scaling_is_exact() {
    for x in [0.0_f64, 1.0, 0.5, 1.999_999, 3.7e5, 1e-308, 123456.789, 2097151.999] {
        let want = ((x * 1024.0 * 1024.0) as u64).min(BYTES_CEILING);
        assert_eq!(Real::from_bits(x.to_bits()).scaled_whole(20), want);
    }
    assert!(!Real::from_bits(f64::NAN.to_bits()).is_finite());
    assert!(Real::from_bits((-0.0_f64).to_bits()).is_zero());
}
