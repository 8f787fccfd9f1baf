use libs_tools::agenda::{error_handling_agenda_endpoints, format_date, libs_agenda_endpoints};
use libs_tools::fcp::{FcpTeams, Libs, Teams};
use libs_tools::issues::{Generator, Issue};
use libs_tools::strmap::StrMap;

fn issue(number: u32, title: &str) -> Issue {
    Issue {
        number,
        html_url: format!("https://github.com/rust-lang/rust/issues/{number}"),
        title: title.to_string(),
        labels: vec![],
    }
}

fn empty_fetch(endpoints: &Vec<Vec<String>>) -> Vec<Vec<Vec<Issue>>> {
    endpoints.iter().map(|q| q.iter().map(|_| Vec::new()).collect()).collect()
}

fn no_teams() -> Teams {
    Teams { libs: Libs { members: StrMap::new(), alumni: StrMap::new() } }
}

const GENERATED: &str = "_Generated by [fully-automatic-rust-libs-team-triage-meeting-agenda-generator](https://github.com/rust-lang/libs-team/tree/main/tools/agenda-generator)_\n";

#[test]
fn the_libs_queries_ask_these_endpoints() {
    let e = libs_agenda_endpoints();
    let sizes: Vec<usize> = e.iter().map(|q| q.len()).collect();
    assert_eq!(sizes, vec![2, 4, 2, 4, 2, 1, 8, 1, 1]);
    assert_eq!(e[0][0], "repos/rust-lang/rust/issues?labels=T-libs,P-critical&state=open");
    assert_eq!(e[1][1], "repos/rust-lang/rust/issues?labels=T-libs,beta-nominated&state=all");
    assert_eq!(e[7][0], "repos/rust-lang/libs-team/issues?labels=api-change-proposal&state=open&sort=created&direction=desc");
    assert_eq!(e[8][0], "repos/rust-lang/libs-team/issues?labels=api-change-proposal&state=open&sort=updated&direction=asc");
}

#[test]
fn an_empty_libs_agenda() {
    let fetched = empty_fetch(&libs_agenda_endpoints());
    let text = Generator::new().libs_agenda_on(
        "2024-01-02",
        fetched,
        vec![],
        FcpTeams { teams: StrMap::new(), people: StrMap::new() },
        &no_teams(),
    );
    let expected = format!(
        "# Libs Meeting 2024-01-02\n\n###### tags: `Libs Meetings` `Minutes`\n\n**Meeting Link**: https://meet.jit.si/rust-libs-meeting-crxoz2at8hiccp7b3ixf89qgxfymlbwr\n**Attendees**: ...\n\n## Agenda\n\n- Nominated items\n- Regressions\n- FCPs (optional)\n- ACPs (optional)\n- Anything else?\n\n\n## Triage\n\n\n## FCPs\n\n\n## ACPs\n\n\n{GENERATED}"
    );
    assert_eq!(text, expected);
}

#[test]
fn an_issue_is_shown_in_the_first_section_that_finds_it() {
    let mut fetched = empty_fetch(&libs_agenda_endpoints());
    fetched[0][0] = vec![issue(1, "Crash")];
    fetched[3][0] = vec![issue(1, "Crash"), issue(2, "Nominated one")];
    let text = Generator::new().libs_agenda_on(
        "D",
        fetched,
        vec![],
        FcpTeams { teams: StrMap::new(), people: StrMap::new() },
        &no_teams(),
    );
    assert_eq!(text.matches("rust.tf/1 ").count(), 1);
    assert!(text.contains("## Triage\n\n\n### Critical\n\n#### rust.tf/1 Crash\n\n\n### Nominated\n\n#### rust.tf/2 Nominated one\n\n\n## FCPs"));
}

#[test]
fn the_error_handling_agenda() {
    let e = error_handling_agenda_endpoints();
    let sizes: Vec<usize> = e.iter().map(|q| q.len()).collect();
    assert_eq!(sizes, vec![2, 2, 1, 0]);
    let mut fetched = empty_fetch(&e);
    fetched[1][0] = vec![issue(5, "Box<dyn Error>")];
    let text = Generator::new().error_handling_pg_agenda_on("2024-01-02", fetched);
    let expected = format!(
        "# Project Group Error Handling Meeting 2024-01-02\n\n###### tags: `Error Handling` `Minutes`\n\n**Attendees**: ...\n\n## Agenda Items\n\n- [Open action items](https://hackmd.io/@rust-libs/Hyj7kRSld)\n- Triage\n- Individual Status Updates\n\n## Triage\n\n### PG Error Handling\n\n#### rust.tf/5 Box\\<dyn Error\\>\n\n\n## Actions\n\n- [ ] Reply to all issues/PRs discussed in this meeting, or add them to the [open action items](https://hackmd.io/UrERZvi5RwyxfGvo-RtC6g).\n\n{GENERATED}"
    );
    assert_eq!(text, expected);
}

#[test]
fn todays_agenda_carries_a_date() {
    let text = Generator::new().error_handling_pg_agenda(empty_fetch(&error_handling_agenda_endpoints()));
    let first = text.lines().next().unwrap();
    let date = first.strip_prefix("# Project Group Error Handling Meeting ").unwrap();
    assert_eq!(date.len(), 10);
    assert_eq!(&date[4..5], "-");
    assert_eq!(&date[7..8], "-");
}

#[test]
fn dates_are_written_as_chrono_writes_them() {
    assert_eq!(format_date(2021, 3, 9), "2021-03-09");
    assert_eq!(format_date(812, 1, 1), "0812-01-01");
    assert_eq!(format_date(12345, 12, 31), "+12345-12-31");
    for (y, m, d) in [(2021, 3, 9), (812, 1, 1), (12345, 12, 31), (1970, 1, 1)] {
        let expected = chrono::NaiveDate::from_ymd_opt(y as i32, m, d).unwrap().format("%Y-%m-%d").to_string();
        assert_eq!(format_date(y, m, d), expected);
    }
}

#[test]
fn todays_agenda_has_a_date_in_its_title() {
    let text = Generator::new().error_handling_pg_agenda(empty_fetch(&error_handling_agenda_endpoints()));
    let title = text.lines().next().unwrap();
    let date = title.strip_prefix("# Project Group Error Handling Meeting ").unwrap();
    assert_eq!(date.len(), 10);
    assert_eq!(&date[4..5], "-");
    assert_eq!(&date[7..8], "-");
}
