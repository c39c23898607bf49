use lxcomm::extensions::{SplitAtBoundary, Truncatable, URLArrayListable};
use lxcomm::numbers::{decimal, padded, parse_signed_text, parse_unsigned_text, signed_decimal};
use lxcomm::paths::{
    equal_ignoring_case, file_name, has_extension, join, parent_or_self, path_starts_with,
    with_extension,
};
use lxcomm::table::{sort_keys, Table};
use lxcomm::text::{
    find_bytes, find_chars, join_two, lines, same_text, same_trimmed, text_contains,
    text_starts_with, trim, trim_end, trim_end_matches, trim_start_matches,
};

#[test]
fn texts_are_searched() {
    assert!(same_text("まじで", "まじで"));
    assert!(!same_text("a", "b"));
    assert!(text_contains("a cool str", "cool"));
    assert!(!text_contains("a cool str", "warm"));
    assert!(text_starts_with("Success. Done", "Success"));
    assert!(!text_starts_with("No Success", "Success"));
    assert_eq!(find_bytes(b"abcabc", b"ca", 0), Some(2));
    assert_eq!(find_bytes(b"abcabc", b"ab", 1), Some(3));
    assert_eq!(find_bytes(b"abcabc", b"x", 0), None);
    assert_eq!(find_chars(&['a', 'b'], &['b'], 0), Some(1));
    assert_eq!(join_two("ab", "cd"), "abcd");
}

#[test]
fn white_space_is_trimmed() {
    assert_eq!(trim("  a b\u{2003}\n"), "a b");
    let end: String = trim_end(" x \t").into_iter().collect();
    assert_eq!(end, " x");
    assert!(same_trimmed("a\n\n", "a"));
    assert!(!same_trimmed(" a", "a"));
    assert_eq!(trim_end_matches("a.ini.ini", ".ini"), "a");
    assert_eq!(trim_start_matches("USER:USER:x", "USER:"), "x");
}

#[test]
fn lines_are_cut_as_usual() {
    let s: Vec<char> = "a\r\nb\n\nc".chars().collect();
    let found: Vec<String> = lines(&s).into_iter().map(|l| l.into_iter().collect()).collect();
    assert_eq!(found, vec!["a", "b", "", "c"]);
}

#[test]
fn numbers_are_written_and_read() {
    assert_eq!(decimal(0), "0");
    assert_eq!(decimal(18446744073709551615), "18446744073709551615");
    assert_eq!(signed_decimal(-9223372036854775808), "-9223372036854775808");
    assert_eq!(padded(42, 5), b"00042");
    assert_eq!(parse_unsigned_text("+7", 10), Some(7));
    assert_eq!(parse_unsigned_text("11", 10), None);
    assert_eq!(parse_unsigned_text("", 10), None);
    assert_eq!(parse_unsigned_text("18446744073709551615", u64::MAX), Some(u64::MAX));
    assert_eq!(parse_unsigned_text("18446744073709551616", u64::MAX), None);
    assert_eq!(parse_signed_text("-9223372036854775808"), Some(i64::MIN));
    assert_eq!(parse_signed_text("-"), None);
    for n in [0u64, 9, 10, 12345, u64::MAX] {
        assert_eq!(parse_unsigned_text(&decimal(n), u64::MAX), Some(n));
    }
}

#[test]
fn paths_are_taken_apart() {
    assert_eq!(join("/a", "b"), "/a/b");
    assert_eq!(join("/a/", "b"), "/a/b");
    assert_eq!(join("/a", "/b"), "/b");
    assert_eq!(join("", "b"), "b");
    assert_eq!(join("a", ""), "a/");
    assert_eq!(file_name("/a/b.txt/"), Some("b.txt".to_string()));
    assert_eq!(file_name("/a/.."), None);
    assert_eq!(file_name("/"), None);
    assert_eq!(with_extension("/a/SaveData", "bak"), "/a/SaveData.bak");
    assert_eq!(with_extension("/a/x.ini", "bak"), "/a/x.bak");
    assert_eq!(with_extension("/a/x.ini", ""), "/a/x");
    assert!(has_extension("/a/x.XComMod", "XComMod"));
    assert!(!has_extension("/a/.XComMod", "XComMod"));
    assert!(path_starts_with("/a/b/c", "/a//b/"));
    assert!(!path_starts_with("/a/bc", "/a/b"));
    assert_eq!(parent_or_self("/a/b"), "/a");
    assert!(equal_ignoring_case(&['A', 'z'], &['a', 'Z']));
    assert!(!equal_ignoring_case(&['A'], &['b']));
}

#[test]
fn tables_keep_their_keys_in_order() {
    let mut table: Table<u32, &str> = Table::new();
    assert_eq!(table.insert(5, "five"), None);
    assert_eq!(table.insert(1, "one"), None);
    assert_eq!(table.insert(5, "FIVE"), Some("five"));
    assert_eq!(table.len(), 2);
    assert_eq!(*table.key_at(0), 1);
    assert_eq!(table.get(&5), Some(&"FIVE"));
    assert_eq!(table.get(&2), None);
    assert!(table.contains(&1));
    assert_eq!(table.remove(&1), Some("one"));
    assert_eq!(table.remove(&1), None);
    assert_eq!(table.set_value_at(0, "V"), "FIVE");
    assert_eq!(*table.value_at(0), "V");
    let sorted = sort_keys(vec!["b".to_string(), "".to_string(), "a".to_string()]);
    assert_eq!(sorted, vec!["", "a", "b"]);
}

#[test]
fn words_are_split_at_their_case() {
    assert_eq!("ThreeMonths".split_at_case(), vec!["Three", "Months"]);
    assert_eq!("plain".split_at_case(), vec!["plain"]);
    assert_eq!("".split_at_case(), Vec::<String>::new());
    let parts = "AllTimeäÖb".split_at_case();
    assert_eq!(parts, vec!["All", "Timeä", "Öb"]);
    assert_eq!(parts.concat(), "AllTimeäÖb");
    let at_commas = "a,b,,c".split_at_boundary(|_left, right| right == ',');
    assert_eq!(at_commas, vec!["a", ",b", ",", ",c"]);
}

#[test]
fn long_texts_are_truncated() {
    assert_eq!("abcdef".truncated(3), "abcd");
    assert_eq!("abc".truncated(3), "abc");
    assert_eq!("ab".truncated(1), "");
    assert_eq!("ab".truncated_overflow(3), "ab");
    assert_eq!("abcdefgh".truncated_overflow(5), "abcdef...");
    assert_eq!("まじでmajide".truncated(4), "まじ");
}

#[test]
fn lists_go_into_urls() {
    let tags = vec!["x".to_string(), "y".to_string()];
    let url = tags.into_url_array("requiredtags");
    assert_eq!(url, "requiredtags[0]=x&requiredtags[1]=y");
}
