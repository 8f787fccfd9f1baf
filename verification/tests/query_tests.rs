use libs_tools::issues::{Generator, Issue};
use libs_tools::query::{GithubQuery, Sort, State};

fn issue(number: u32, title: &str, labels: &[&str]) -> Issue {
    Issue {
        number,
        html_url: format!("https://github.com/rust-lang/rust/issues/{number}"),
        title: title.to_string(),
        labels: labels.iter().map(|l| l.to_string()).collect(),
    }
}

#[test]
fn sort_and_state_strings() {
    assert_eq!(Sort::Newest.api_str(), "&sort=created&direction=desc");
    assert_eq!(Sort::LeastRecentlyUpdated.api_str(), "&sort=updated&direction=asc");
    assert_eq!(Sort::MostCommented.web_ui_str(), "+sort:comments-desc");
    assert_eq!(State::Any.api_str(), "&state=all");
    assert_eq!(State::Open.web_ui_str(), "+is:open");
    assert_eq!(State::Any.web_ui_str(), "");
}

#[test]
fn endpoints_for_each_repo_and_label_set() {
    let mut q = GithubQuery::new("Backports");
    q.labels(&["T-libs", "stable-nominated"])
        .labels(&["T-libs", "beta-nominated"])
        .state(State::Any)
        .repo("rust-lang/rust")
        .repo("rust-lang/rfcs")
        .sort(Sort::Newest);
    assert_eq!(
        q.endpoints(),
        vec![
            "repos/rust-lang/rust/issues?labels=T-libs,stable-nominated&state=all&sort=created&direction=desc",
            "repos/rust-lang/rust/issues?labels=T-libs,beta-nominated&state=all&sort=created&direction=desc",
            "repos/rust-lang/rfcs/issues?labels=T-libs,stable-nominated&state=all&sort=created&direction=desc",
            "repos/rust-lang/rfcs/issues?labels=T-libs,beta-nominated&state=all&sort=created&direction=desc",
        ]
    );
}

#[test]
fn a_query_writes_its_section() {
    let mut q = GithubQuery::new("Critical");
    q.labels(&["T-libs", "P-critical"]).repo("rust-lang/rust");
    let mut g = Generator::new();
    let written = q.write(&mut g, vec![vec![issue(1, "One", &["P-critical"]), issue(2, "Two_x", &[])]]);
    assert_eq!(written.len(), 2);
    assert_eq!(
        g.agenda_text(),
        "### Critical\n\n#### rust.tf/2 Two\\_x\n\n#### rust.tf/1 `P-critical` One\n\n\n"
    );
}

#[test]
fn an_empty_query_writes_nothing() {
    let mut q = GithubQuery::new("Critical");
    q.labels(&["T-libs"]).repo("rust-lang/rust").repo("rust-lang/rfcs");
    let mut g = Generator::new();
    let written = q.write(&mut g, vec![vec![], vec![]]);
    assert!(written.is_empty());
    assert_eq!(g.agenda_text(), "");
}

#[test]
fn queries_filter_cut_and_reverse() {
    let mut q = GithubQuery::new("New");
    q.labels(&["api-change-proposal"])
        .exclude_labels(&["ACP-accepted"])
        .repo("rust-lang/libs-team")
        .take(2)
        .rev(true);
    let mut g = Generator::new();
    let written = q.write(
        &mut g,
        vec![vec![issue(1, "a", &[]), issue(2, "b", &["ACP-accepted"]), issue(3, "c", &[]), issue(4, "d", &[])]],
    );
    let numbers: Vec<u32> = written.iter().map(|i| i.number).collect();
    assert_eq!(numbers, vec![3, 1]);
    assert_eq!(g.agenda_text(), "### New\n\n#### rust.tf/1 a\n\n#### rust.tf/3 c\n\n\n");
}

#[test]
fn skipped_and_seen_issues_are_left_out() {
    let mut g = Generator::new();
    let mut first = GithubQuery::new("First");
    first.labels(&["x"]).repo("rust-lang/rust");
    let shown = first.write(&mut g, vec![vec![issue(1, "a", &[])]]);
    let mut second = GithubQuery::new("Second");
    second.labels(&["y"]).repo("rust-lang/rust").skip(&vec![issue(2, "b", &[])]);
    let written = second.write(&mut g, vec![vec![issue(1, "a", &[]), issue(2, "b", &[]), issue(3, "c", &[])]]);
    assert_eq!(shown.len(), 1);
    let numbers: Vec<u32> = written.iter().map(|i| i.number).collect();
    assert_eq!(numbers, vec![3]);
}

#[test]
fn a_shuffled_query_writes_the_same_issues() {
    let mut q = GithubQuery::new("Stalled");
    q.labels(&["api-change-proposal"]).repo("rust-lang/libs-team").shuffle(true);
    let issues: Vec<Issue> = (1..=20).map(|n| issue(n, "t", &[])).collect();
    let mut g = Generator::new();
    let written = q.write(&mut g, vec![issues]);
    let mut numbers: Vec<u32> = written.iter().map(|i| i.number).collect();
    let shuffled = numbers.clone();
    numbers.sort();
    assert_eq!(numbers, (1..=20).collect::<Vec<u32>>());
    // The chance that twenty issues keep their order is one in 20!.
    assert_ne!(shuffled, numbers);
}

#[test]
fn an_unshuffled_query_always_writes_the_same() {
    let run = || {
        let mut q = GithubQuery::new("Same");
        q.labels(&["x"]).repo("rust-lang/rust").take(3);
        let mut g = Generator::new();
        q.write(&mut g, vec![(1..=5).map(|n| issue(n, "t", &[])).collect()]);
        g.agenda_text()
    };
    assert_eq!(run(), run());
}
