use libs_tools::issues::{contains_str, dedup_with, issue_entry_text, reverse_vec, Generator, Issue};
use libs_tools::strmap::StrMap;

fn issue(url: &str, title: &str, labels: &[&str]) -> Issue {
    Issue {
        number: 1,
        html_url: url.to_string(),
        title: title.to_string(),
        labels: labels.iter().map(|l| l.to_string()).collect(),
    }
}

#[test]
fn each_url_is_kept_once() {
    let mut g = Generator::new();
    let a = g.dedup(vec![issue("u1", "a", &[]), issue("u2", "b", &[]), issue("u1", "c", &[])]);
    let titles: Vec<&str> = a.iter().map(|i| i.title.as_str()).collect();
    assert_eq!(titles, vec!["a", "b"]);
    let again = g.dedup(vec![issue("u2", "b", &[]), issue("u3", "d", &[])]);
    assert_eq!(again.len(), 1);
    assert_eq!(again[0].html_url, "u3");
    assert!(g.dedup(vec![issue("u1", "a", &[]), issue("u3", "d", &[])]).is_empty());
}

#[test]
fn dedup_with_fills_the_set() {
    let mut seen = StrMap::new();
    let kept = dedup_with(&mut seen, vec![issue("x", "1", &[]), issue("x", "2", &[])]);
    assert_eq!(kept.len(), 1);
    assert!(seen.contains_key("x"));
}

#[test]
fn an_issue_entry() {
    let i = issue(
        "https://github.com/rust-lang/rust/issues/42",
        "  Fix `a_b` <now>  ",
        &["P-high", "T-libs", "finished-final-comment-period", "disposition-merge", "disposition-close"],
    );
    let text: String = issue_entry_text(&i).into_iter().collect();
    assert_eq!(
        text,
        "#### rust.tf/42 `P-high` Fix `a_b` \\<now\\>\nFCP finished. Should be merged? Should be closed?\n\n"
    );
}

#[test]
fn helpers() {
    assert!(contains_str(&vec!["a".to_string(), "b".to_string()], "b"));
    assert!(!contains_str(&vec![], "b"));
    assert_eq!(reverse_vec(vec![1, 2, 3]), vec![3, 2, 1]);
    assert_eq!(Generator::new().agenda_text(), "");
}

#[test]
fn a_default_generator_is_empty() {
    let mut g = Generator::default();
    assert_eq!(g.agenda_text(), "");
    assert_eq!(g.dedup(vec![issue("u", "t", &[])]).len(), 1);
}
