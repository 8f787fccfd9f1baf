use libs_tools::issues::Issue;
use libs_tools::minutes::{
    fcps_section, minutes_endpoints, minutes_footer, minutes_header, parse_rfcbot_page, show_fcps,
    show_issues, PageError,
};

const PAGE: &str = "<html>
<h4><code>T-lang</code></h4>
<ul>
<li>
merge:
<b><a href=\"https://github.com/rust-lang/rust/issues/1#issuecomment-1\"
target=\"_blank\">
Lang thing (rust-lang/rust#1)</a></b>
<a href=\"/fcp/dtolnay\">dtolnay</a>
</li>
</ul>
<h4><code>T-libs</code></h4>   
<ul>
  <li>
    merge:
    <b><a href=\"https://github.com/rust-lang/rust/issues/123#issuecomment-9\"
    target=\"_blank\">
    Stabilize foo (bar) (rust-lang/rust#123)</a></b>
    <a href=\"/fcp/dtolnay\">dtolnay</a>
    <a href=\"/fcp/someone\">someone</a>
    pending concerns
  </li>
  <li>
    close:
    <b><a href=\"https://github.com/rust-lang/rfcs/pull/7\"
    target=\"_blank\">
    Add a_b (rust-lang/rfcs#7)</a></b>
    <a href=\"/fcp/Amanieu\">Amanieu</a>
    <a href=\"/fcp/dtolnay\">dtolnay</a>
  </li>
</ul>
<h4><code>T-compiler</code></h4>
</html>
";

#[test]
fn the_libs_section_is_read() {
    let page = parse_rfcbot_page(PAGE).expect("the page reads");
    assert_eq!(page.fcps.len(), 2);
    let f = &page.fcps[0];
    assert_eq!(f.disposition, "merge");
    assert_eq!(f.url, "https://github.com/rust-lang/rust/issues/123#issuecomment-9");
    assert_eq!(f.title, "Stabilize foo (bar)");
    assert_eq!(f.repo, "rust-lang/rust");
    assert_eq!(f.number, "123");
    assert_eq!(f.reviewers, vec!["dtolnay".to_string()]);
    assert!(f.concerns);
    let g = &page.fcps[1];
    assert_eq!(g.disposition, "close");
    assert_eq!(g.repo, "rust-lang/rfcs");
    assert_eq!(g.reviewers, vec!["Amanieu".to_string(), "dtolnay".to_string()]);
    assert!(!g.concerns);
}

#[test]
fn checkbox_counts_are_the_listed_reviewers() {
    let page = parse_rfcbot_page(PAGE).unwrap();
    assert_eq!(page.counts.len(), 7);
    assert_eq!(page.counts.get("dtolnay").copied(), Some(2));
    assert_eq!(page.counts.get("Amanieu").copied(), Some(1));
    assert_eq!(page.counts.get("sfackler").copied(), Some(0));
    assert_eq!(page.counts.get("someone"), None);
}

#[test]
fn fcps_section_is_written() {
    let text = show_fcps(PAGE).unwrap();
    let expected = "### FCPs

2 open T-libs FCPs:
<details><summary><a href=\"https://github.com/rust-lang/rfcs/issues?q=is%3Aopen+label%3AT-libs+label%3Aproposed-final-comment-period\">1 <code>rust-lang/rfcs</code> FCPs</a></summary>

  - [[close 7](https://github.com/rust-lang/rfcs/pull/7)] *Add a\\_b* - (2 checkboxes left)
</details>
<details><summary><a href=\"https://github.com/rust-lang/rust/issues?q=is%3Aopen+label%3AT-libs+label%3Aproposed-final-comment-period\">1 <code>rust-lang/rust</code> FCPs</a></summary>

  - [[merge 123](https://github.com/rust-lang/rust/issues/123#issuecomment-9)] *Stabilize foo (bar)* - (1 checkboxes left)
    Blocked on an open concern.
</details>
<p></p>

[Amanieu (1)](https://rfcbot.rs/fcp/Amanieu), [BurntSushi (0)](https://rfcbot.rs/fcp/BurntSushi), [KodrAus (0)](https://rfcbot.rs/fcp/KodrAus), [dtolnay (2)](https://rfcbot.rs/fcp/dtolnay), [m-ou-se (0)](https://rfcbot.rs/fcp/m-ou-se), [sfackler (0)](https://rfcbot.rs/fcp/sfackler), [withoutboats (0)](https://rfcbot.rs/fcp/withoutboats)

";
    assert_eq!(text, expected);
    let page = parse_rfcbot_page(PAGE).unwrap();
    assert_eq!(fcps_section(page), expected);
}

#[test]
fn a_page_without_the_libs_section_is_refused() {
    assert_eq!(show_fcps("<h4><code>T-lang</code></h4>\n").err(), Some(PageError::MissingSection));
    assert_eq!(show_fcps("").err(), Some(PageError::MissingSection));
}

#[test]
fn a_section_that_does_not_end_is_malformed() {
    let page = "<h4><code>T-libs</code></h4>\n<li>\nmerge:\n";
    assert_eq!(show_fcps(page).err(), Some(PageError::Malformed));
    let page = "<h4><code>T-libs</code></h4>\n<ul>\n";
    assert_eq!(show_fcps(page).err(), Some(PageError::Malformed));
}

#[test]
fn an_fcp_laid_out_otherwise_is_malformed() {
    let no_colon = "<h4><code>T-libs</code></h4>\n<li>\nmerge\n";
    assert_eq!(show_fcps(no_colon).err(), Some(PageError::Malformed));
    let bad_link = "<h4><code>T-libs</code></h4>\n<li>\nmerge:\n<a href=\"x\"\n";
    assert_eq!(show_fcps(bad_link).err(), Some(PageError::Malformed));
    let bad_title = "<h4><code>T-libs</code></h4>\n<li>\nmerge:\n<b><a href=\"u\"\ntarget=\"_blank\">\nno number</a></b>\n";
    assert_eq!(show_fcps(bad_title).err(), Some(PageError::Malformed));
    let bad_reviewer = "<h4><code>T-libs</code></h4>\n<li>\nmerge:\n<b><a href=\"u\"\ntarget=\"_blank\">\nT (r#1)</a></b>\n<a href=\"/fcp/x\n";
    assert_eq!(show_fcps(bad_reviewer).err(), Some(PageError::Malformed));
}

#[test]
fn an_empty_libs_section_has_no_fcps() {
    let text = show_fcps("<h4><code>T-libs</code></h4>\n<h4>next</h4>\n").unwrap();
    assert!(text.starts_with("### FCPs\n\n0 open T-libs FCPs:\n<p></p>\n\n[Amanieu (0)]"));
}

fn issue(number: u32, url: &str, title: &str, labels: &[&str]) -> Issue {
    Issue {
        number,
        html_url: url.to_string(),
        title: title.to_string(),
        labels: labels.iter().map(|l| l.to_string()).collect(),
    }
}

#[test]
fn issue_sections_show_each_issue_once() {
    let a = issue(1, "https://github.com/rust-lang/rust/issues/1", "First_one", &[]);
    let b = issue(2, "https://github.com/rust-lang/rust/issues/2", "Second", &["finished-final-comment-period", "disposition-merge"]);
    let r = issue(3, "https://github.com/rust-lang/rfcs/pull/3", "An RFC", &[]);
    let text = show_issues(
        vec![a, b],
        vec![r],
        vec![issue(1, "https://github.com/rust-lang/rust/issues/1", "First_one", &[])],
        vec![],
        vec![issue(4, "https://github.com/rust-lang/rust/issues/4", "Fourth", &[])],
    );
    let expected = "### Nominated

- [1 `rust-lang/rfcs` items](https://github.com/rust-lang/rfcs/issues?q=is%3Aopen+label%3AT-libs+label%3AI-nominated)
  - [[3](https://github.com/rust-lang/rfcs/pull/3)] *An RFC*
- [2 `rust-lang/rust` items](https://github.com/rust-lang/rust/issues?q=is%3Aopen+label%3AT-libs+label%3AI-nominated)
  - [[2](https://github.com/rust-lang/rust/issues/2)] *Second*
    FCP finished. Should be merged?
  - [[1](https://github.com/rust-lang/rust/issues/1)] *First\\_one*

### Waiting on team

- [0 `rust-lang/rfcs` items](https://github.com/rust-lang/rfcs/issues?q=is%3Aopen+label%3AT-libs+label%3AS-waiting-on-team)
- [0 `rust-lang/rust` items](https://github.com/rust-lang/rust/issues?q=is%3Aopen+label%3AT-libs+label%3AS-waiting-on-team)

### Needs decision

- [1 `rust-lang/rust` items](https://github.com/rust-lang/rust/issues?q=is%3Aopen+label%3AT-libs+label%3AI-needs-decision)
  - [[4](https://github.com/rust-lang/rust/issues/4)] *Fourth*

";
    assert_eq!(text, expected);
}

#[test]
fn minutes_frame() {
    assert_eq!(
        minutes_header("2020-12-11"),
        "# Libs Meeting 2020-12-11\n\n###### tags: `Libs Meetings` `Minutes`\n\n**Attendees**: ...\n\n## Agenda\n\n- Triage\n- Anything else?\n\n## Triage\n\n"
    );
    assert_eq!(
        minutes_footer(),
        "## Notes\n\n...\n\n## Actions\n\n- [ ] Finish action items from the last meeting.\n- [ ] Reply to all issues/PRs discussed in this meeting.\n\n"
    );
    let e = minutes_endpoints();
    assert_eq!(e.len(), 5);
    assert_eq!(e[1], "repos/rust-lang/rfcs/issues?labels=T-libs,I-nominated");
}
