use msgx::text::{chars_of, contains, str_eq, str_lt};
use msgx::time::Timestamp;

#[test]
fn str_eq_compares_characters() {
    assert!(str_eq("", ""));
    assert!(str_eq("abc", "abc"));
    assert!(!str_eq("abc", "abd"));
    assert!(!str_eq("abc", "ab"));
    assert!(!str_eq("abc", "ABC"));
    assert!(str_eq("grüße", "grüße"));
    assert!(!str_eq("grüße", "grusse"));
}

#[test]
fn chars_of_gives_the_characters() {
    assert_eq!(chars_of(""), Vec::<char>::new());
    assert_eq!(chars_of("aß1"), vec!['a', 'ß', '1']);
}

#[test]
fn contains_finds_runs_of_characters() {
    assert!(contains("alice", "lic"));
    assert!(contains("alice", "alice"));
    assert!(contains("alice", "a"));
    assert!(contains("alice", "e"));
    assert!(contains("alice", ""));
    assert!(contains("", ""));
    assert!(!contains("", "a"));
    assert!(!contains("alice", "alicea"));
    assert!(!contains("alice", "ac"));
    assert!(!contains("alice", "LIC"));
    assert!(contains("grüße", "üß"));
    for hay in ["", "a", "ab", "aab", "abab", "bbb"] {
        for needle in ["", "a", "b", "ab", "ba", "aa", "abab", "ababa"] {
            assert_eq!(contains(hay, needle), hay.contains(needle), "{hay:?} {needle:?}");
        }
    }
}

#[test]
fn str_lt_is_the_order_of_strings() {
    assert!(str_lt("", "a"));
    assert!(!str_lt("", ""));
    assert!(!str_lt("a", ""));
    assert!(str_lt("a", "b"));
    assert!(str_lt("ab", "b"));
    assert!(str_lt("a", "ab"));
    assert!(!str_lt("ab", "ab"));
    assert!(str_lt("B", "a"));
    assert!(str_lt("z", "ä"));
    let words = ["", "a", "A", "ab", "b", "ba", "z", "ä", "zz", "user10", "user9"];
    for a in words {
        for b in words {
            assert_eq!(str_lt(a, b), a < b, "{a:?} {b:?}");
        }
    }
}

#[test]
fn timestamp_is_rendered_as_date_and_time() {
    assert_eq!(Timestamp { nanos: 0 }.to_string(), "1970-01-01 00:00:00");
    assert_eq!(
        Timestamp { nanos: 1_479_195_564_000_000_000 }.to_string(),
        "2016-11-15 07:39:24"
    );
    assert_eq!(
        Timestamp { nanos: 1_479_195_564_500_000_000 }.to_string(),
        "2016-11-15 07:39:24.500"
    );
    assert_eq!(Timestamp { nanos: -1_000_000_000 }.to_string(), "1969-12-31 23:59:59");
    assert_eq!(
        Timestamp { nanos: i64::MAX }.to_string(),
        "2262-04-11 23:47:16.854775807"
    );
    assert_eq!(
        Timestamp { nanos: i64::MIN }.to_string(),
        "1677-09-21 00:12:43.145224192"
    );
}
