use libs_tools::text::{
    chars_of, ends_with_str, first_word_of, format_i64, format_u64, join_strings, lines,
    parse_usize, rsplit_sub, split_first_str, split_once, string_of, trim, trim_end,
};

fn cs(s: &str) -> Vec<char> {
    s.chars().collect()
}

fn st(v: &Vec<char>) -> String {
    v.iter().collect()
}

#[test]
fn numbers_are_written_in_decimal() {
    assert_eq!(st(&format_u64(0)), "0");
    assert_eq!(st(&format_u64(1234567890)), "1234567890");
    assert_eq!(st(&format_u64(u64::MAX)), u64::MAX.to_string());
    assert_eq!(st(&format_i64(-42)), "-42");
    assert_eq!(st(&format_i64(i64::MIN)), i64::MIN.to_string());
}

#[test]
fn decimal_numbers_read_back() {
    for n in [0usize, 7, 10, 12345, usize::MAX] {
        let written = format_u64(n as u64);
        assert_eq!(parse_usize(&written), Some(n));
    }
}

#[test]
fn usize_reads_as_std_does() {
    for s in ["0", "+42", "007", "", "+", "-1", "4a", " 4", "18446744073709551615", "18446744073709551616"] {
        assert_eq!(parse_usize(&cs(s)), s.parse::<usize>().ok(), "{s:?}");
    }
}

#[test]
fn first_words_split_at_white_space() {
    assert_eq!(first_word_of(&cs("  12\t3 four")).map(|w| st(&w)), Some("12".to_string()));
    assert_eq!(first_word_of(&cs("one")).map(|w| st(&w)), Some("one".to_string()));
    assert_eq!(first_word_of(&cs(" \t\n")), None);
    assert_eq!(first_word_of(&cs("")), None);
}

#[test]
fn splitting_at_the_last_occurrence() {
    let (a, b) = rsplit_sub(&cs("Title (x) (rust-lang/rust#1"), " (").unwrap();
    assert_eq!(st(&a), "Title (x)");
    assert_eq!(st(&b), "rust-lang/rust#1");
    assert!(rsplit_sub(&cs("no parens"), " (").is_none());
    let (a, b) = rsplit_sub(&cs("ab"), "").unwrap();
    assert_eq!((st(&a), st(&b)), ("ab".to_string(), "".to_string()));
}

#[test]
fn splitting_at_the_first_occurrence() {
    let (a, b) = split_first_str(&cs("a:gitsplit:b:gitsplit:c"), ":gitsplit:").unwrap();
    assert_eq!((st(&a), st(&b)), ("a".to_string(), "b:gitsplit:c".to_string()));
    let (a, b) = split_once(&cs("rust-lang/rust#123"), '#').unwrap();
    assert_eq!((st(&a), st(&b)), ("rust-lang/rust".to_string(), "123".to_string()));
    assert!(split_once(&cs("none"), '#').is_none());
}

#[test]
fn suffixes_and_trimming() {
    assert!(ends_with_str(&cs("merge:"), ":"));
    assert!(!ends_with_str(&cs(":merge"), ":"));
    assert!(ends_with_str(&cs(""), ""));
    assert_eq!(st(&trim(&cs("  a b \t"))), "a b");
    assert_eq!(st(&trim_end(&cs("  a b \t"))), "  a b");
}

#[test]
fn lines_split_as_std_does() {
    for s in ["a\nb", "a\r\nb\n", "", "\n\n", "x\r", "one"] {
        let ls: Vec<String> = lines(s).iter().map(st).collect();
        let expected: Vec<String> = s.lines().map(|l| l.to_string()).collect();
        assert_eq!(ls, expected, "{s:?}");
    }
}

#[test]
fn strings_round_trip_through_characters() {
    assert_eq!(string_of(&chars_of("héllo ✔")), "héllo ✔");
    let parts = vec!["a".to_string(), "b".to_string(), "c".to_string()];
    assert_eq!(st(&join_strings(&parts, ", ")), "a, b, c");
    assert_eq!(st(&join_strings(&vec![], ", ")), "");
}
