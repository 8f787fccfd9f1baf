use libs_tools::contributors::{
    exclude_patterns, excludes, file_table, include_entry, parse_log, top_contributors,
    try_top_contributors,
};
use libs_tools::strmap::StrMap;

fn counts(entries: &[(&str, usize)]) -> StrMap<usize> {
    let mut m = StrMap::new();
    for (k, v) in entries {
        m.insert(k.to_string(), *v);
    }
    m
}

fn get(table: &StrMap<StrMap<usize>>, dir: &str, author: &str) -> Option<usize> {
    table.get(dir).and_then(|c| c.get(author).copied())
}

#[test]
fn top_contributors_adds_files_to_every_ancestor() {
    let mut files = StrMap::new();
    files.insert("library/core/src/lib.rs".to_string(), counts(&[("alice", 3), ("bob", 1)]));
    files.insert("library/core/src/num.rs".to_string(), counts(&[("alice", 2)]));
    files.insert("library/std/src/io.rs".to_string(), counts(&[("carol", 7)]));
    let table = top_contributors(&files);
    assert_eq!(get(&table, "library/core/src/lib.rs", "alice"), Some(3));
    assert_eq!(get(&table, "library/core/src/num.rs", "alice"), Some(2));
    assert_eq!(get(&table, "library/core/src", "alice"), Some(5));
    assert_eq!(get(&table, "library/core/src", "bob"), Some(1));
    assert_eq!(get(&table, "library/core", "alice"), Some(5));
    assert_eq!(get(&table, "library/core", "carol"), None);
    assert_eq!(get(&table, "library", "carol"), Some(7));
    assert_eq!(get(&table, "library", "alice"), Some(5));
    assert_eq!(get(&table, "", "bob"), Some(1));
    assert_eq!(table.len(), 9);
}

#[test]
fn directory_counts_cover_each_file() {
    let mut files = StrMap::new();
    files.insert("a/b/c.rs".to_string(), counts(&[("x", 4), ("y", 9)]));
    files.insert("a/d.rs".to_string(), counts(&[("x", 1)]));
    let table = top_contributors(&files);
    for dir in ["a/b/c.rs", "a/b", "a", ""] {
        assert!(get(&table, dir, "x").unwrap() >= 4);
        assert!(get(&table, dir, "y").unwrap() >= 9);
    }
    assert_eq!(get(&table, "a", "x"), Some(5));
}

#[test]
fn try_top_contributors_refuses_a_sum_past_usize_max() {
    let mut files = StrMap::new();
    files.insert("a/b.rs".to_string(), counts(&[("x", usize::MAX)]));
    files.insert("a/c.rs".to_string(), counts(&[("x", 1)]));
    assert!(try_top_contributors(&files).is_none());
}

#[test]
fn try_top_contributors_agrees_with_top_contributors() {
    let mut files = StrMap::new();
    files.insert("a/b.rs".to_string(), counts(&[("x", usize::MAX - 1)]));
    files.insert("a/c.rs".to_string(), counts(&[("x", 1), ("y", 2)]));
    let table = try_top_contributors(&files).unwrap();
    assert_eq!(get(&table, "a", "x"), Some(usize::MAX));
    assert_eq!(get(&table, "a/c.rs", "y"), Some(2));
    let other = top_contributors(&files);
    assert_eq!(table.len(), other.len());
    for i in 0..table.len() {
        let (dir, counts) = table.entry_at(i);
        let (dir2, counts2) = other.entry_at(i);
        assert_eq!(dir, dir2);
        assert_eq!(counts.len(), counts2.len());
        for j in 0..counts.len() {
            assert_eq!(counts.entry_at(j), counts2.entry_at(j));
        }
    }
}

#[test]
fn top_contributors_of_nothing_is_empty() {
    let files: StrMap<StrMap<usize>> = StrMap::new();
    assert_eq!(top_contributors(&files).len(), 0);
}

const LOG: &str = "alice:gitsplit:Fix a bug in parsing

10\t2\tlibrary/core/src/lib.rs
bob:gitsplit:Run rustfmt over core

5\t1\tlibrary/core/src/lib.rs
bors:gitsplit:Auto merge of #1234

7\t0\tlibrary/core/src/lib.rs
alice:gitsplit:Add a feature

3\t1\tlibrary/core/src/lib.rs
carol:gitsplit:REFACTOR everything

100\t1\tlibrary/core/src/lib.rs
";

#[test]
fn parse_log_counts_kept_commits() {
    let ex = excludes().expect("the exclusions compile");
    let m = parse_log(LOG, &ex).expect("the log reads");
    assert_eq!(m.len(), 1);
    assert_eq!(m.get("alice").copied(), Some(2));
    assert_eq!(m.get("bob"), None);
    assert_eq!(m.get("bors"), None);
    assert_eq!(m.get("carol"), None);
}

#[test]
fn parse_log_of_empty_output_is_empty() {
    let ex = excludes().unwrap();
    assert_eq!(parse_log("", &ex).unwrap().len(), 0);
    assert_eq!(parse_log("\n\n", &ex).unwrap().len(), 0);
}

#[test]
fn parse_log_rejects_a_missing_diff_line() {
    let ex = excludes().unwrap();
    assert!(parse_log("alice:gitsplit:Fix\n", &ex).is_none());
}

#[test]
fn parse_log_rejects_summaries_without_one_separator() {
    let ex = excludes().unwrap();
    assert!(parse_log("alice Fix\n1\t2\tf\n", &ex).is_none());
    assert!(parse_log("alice:gitsplit:Fix:gitsplit:again\n1\t2\tf\n", &ex).is_none());
}

#[test]
fn parse_log_rejects_binary_diffs() {
    let ex = excludes().unwrap();
    assert!(parse_log("alice:gitsplit:Add image\n-\t-\tlogo.png\n", &ex).is_none());
}

#[test]
fn parse_log_counts_each_commit_once_whatever_it_adds() {
    let ex = excludes().unwrap();
    let big = usize::MAX.to_string();
    let log = format!("a:gitsplit:one\n{big}\t0\tf\na:gitsplit:two\n1\t0\tf\nb:gitsplit:three\n0\t9\tf\n");
    let m = parse_log(&log, &ex).unwrap();
    assert_eq!(m.get("a").copied(), Some(2));
    assert_eq!(m.get("b").copied(), Some(1));
}

#[test]
fn parse_log_reads_a_plus_sign() {
    let ex = excludes().unwrap();
    let m = parse_log("a:gitsplit:x\n  +4 0 f\n", &ex).unwrap();
    assert_eq!(m.get("a").copied(), Some(1));
}

#[test]
fn exclusions_are_the_sweeping_changes() {
    let pats = exclude_patterns();
    assert_eq!(pats.len(), 10);
    assert_eq!(pats[0], "(?i)rustfmt");
    assert_eq!(pats[9], "(?i)unsafe_op_in_unsafe_fn");
    let ex = excludes().unwrap();
    let m = parse_log("a:gitsplit:Update DOCS\n2\t0\tf\nb:gitsplit:Fix overflow\n3\t0\tf\n", &ex).unwrap();
    assert_eq!(m.get("a"), None);
    assert_eq!(m.get("b").copied(), Some(1));
}

#[test]
fn include_entry_walks_sources_only() {
    assert!(include_entry(true, Some("core"), None, false));
    assert!(!include_entry(true, Some("tests"), None, true));
    assert!(!include_entry(true, Some("benches"), None, true));
    assert!(!include_entry(true, Some("mytest_dir"), None, true));
    assert!(!include_entry(true, None, None, true));
    assert!(include_entry(false, Some("lib"), Some("rs"), true));
    assert!(!include_entry(false, Some("lib"), Some("rs"), false));
    assert!(!include_entry(false, Some("tests"), Some("rs"), true));
    assert!(!include_entry(false, Some("README"), Some("md"), true));
    assert!(!include_entry(false, Some("lib"), None, true));
}

#[test]
fn file_table_drops_files_nobody_touched() {
    let files = vec![
        ("b.rs".to_string(), counts(&[("x", 1)])),
        ("a.rs".to_string(), counts(&[])),
        ("c.rs".to_string(), counts(&[("y", 2)])),
    ];
    let t = file_table(files);
    assert_eq!(t.len(), 2);
    assert!(t.get("a.rs").is_none());
    assert_eq!(t.get("c.rs").unwrap().get("y").copied(), Some(2));
    let (first, _) = t.entry_at(0);
    assert_eq!(first.as_str(), "b.rs");
}
