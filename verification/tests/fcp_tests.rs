use libs_tools::fcp::{
    sort_fcps, tally_checkboxes, team_of_reviewer, Concern, FcpIssue, FcpTeam, FcpTeams, FcpWithInfo,
    Libs, Teams,
};
use libs_tools::issues::Generator;
use libs_tools::strmap::StrMap;

fn set(items: &[&str]) -> StrMap<()> {
    let mut m = StrMap::new();
    for i in items {
        m.insert(i.to_string(), ());
    }
    m
}

fn fcp(number: i32, title: &str, labels: &[&str], reviews: &[(&str, bool)], concerns: &[(&str, u64)]) -> FcpWithInfo {
    FcpWithInfo {
        reviews: reviews.iter().map(|(r, b)| (r.to_string(), *b)).collect(),
        concerns: concerns.iter().map(|(n, id)| Concern { name: n.to_string(), comment_id: *id }).collect(),
        issue: FcpIssue {
            number,
            title: title.to_string(),
            labels: labels.iter().map(|l| l.to_string()).collect(),
            repository: "rust-lang/rust".to_string(),
        },
        status_comment_id: 5,
    }
}

fn fcp_teams() -> FcpTeams {
    let mut teams = StrMap::new();
    teams.insert("T-libs".to_string(), FcpTeam { members: vec!["alice".to_string()] });
    teams.insert("T-lang".to_string(), FcpTeam { members: vec!["carol".to_string(), "dave".to_string()] });
    FcpTeams { teams, people: StrMap::new() }
}

fn libs_teams() -> Teams {
    Teams { libs: Libs { members: set(&["alice", "erin"]), alumni: set(&["frank"]) } }
}

fn people() -> StrMap<StrMap<()>> {
    let mut p = StrMap::new();
    p.insert("alice".to_string(), set(&["T-libs"]));
    p.insert("carol".to_string(), set(&["T-lang"]));
    p.insert("dave".to_string(), set(&["T-lang"]));
    p
}

#[test]
fn reviewers_count_for_their_team() {
    let t = libs_teams();
    let p = people();
    let labels = vec!["T-libs".to_string(), "T-lang".to_string()];
    assert_eq!(team_of_reviewer(&p, &t, &labels, "alice"), "A-libs");
    assert_eq!(team_of_reviewer(&p, &t, &labels, "carol"), "T-lang");
    assert_eq!(team_of_reviewer(&p, &t, &vec![], "carol"), "Z-other");
    assert_eq!(team_of_reviewer(&p, &t, &labels, "erin"), "A-libs-former-fcp");
    assert_eq!(team_of_reviewer(&p, &t, &labels, "frank"), "A-libs-former-fcp");
    assert_eq!(team_of_reviewer(&p, &t, &labels, "zed"), "Z-other");
}

#[test]
fn checkboxes_are_tallied() {
    let f = fcp(1, "t", &["T-libs"], &[("alice", false), ("bob", true), ("carol", false), ("erin", false)], &[]);
    let c = tally_checkboxes(&f, &people(), &libs_teams());
    assert_eq!(c.libs_unchecked, 1);
    assert_eq!(c.libs_and_former_fcp_unchecked, 2);
    assert_eq!(c.total_other_unchecked, 1);
    assert_eq!(c.other_unchecked.len(), 3);
    assert!(c.other_unchecked.get("Z-other").unwrap().contains_key("carol"));
}

#[test]
fn fcps_are_written_in_order() {
    let done = fcp(7, "All done", &["T-libs"], &[("alice", true)], &[]);
    let open = fcp(100, "Stabilize x", &["T-libs"], &[("alice", false), ("bob", true), ("carol", false)], &[]);
    let blocked = fcp(8, "Blocked_one", &["T-libs"], &[("alice", true)], &[("naming", 9)]);
    let other = fcp(9, "Not libs", &["T-lang"], &[("carol", false)], &[]);
    let mut g = Generator::new();
    g.fcps("T-libs", vec![done, open, blocked, other], fcp_teams(), &libs_teams());
    assert_eq!(
        g.agenda_text(),
        "## FCPs\n\n\
#### [rust.tf/100](https://rust.tf/100#issuecomment-5) Stabilize x\n\
- needs 1 libs: [@alice](https://rfcbot.rs/fcp/alice)\n\
- needs 1 other: [@carol](https://rfcbot.rs/fcp/carol)\n\
\n\
#### [rust.tf/8](https://rust.tf/8#issuecomment-5) Blocked\\_one\n\
- has all checkboxes\n\
- blocked by concern: [naming](https://rust.tf/8#issuecomment-9)\n\
\n\
#### [rust.tf/7](https://rust.tf/7#issuecomment-5) All done\n\
- has all checkboxes\n\
\n\
\n"
    );
}

#[test]
fn sorting_keeps_ties_in_order() {
    let t = libs_teams();
    let p = people();
    let a = fcp(1, "a", &["T-libs"], &[("alice", true)], &[]);
    let b = fcp(2, "b", &["T-libs"], &[("alice", true)], &[]);
    let ca = tally_checkboxes(&a, &p, &t);
    let cb = tally_checkboxes(&b, &p, &t);
    let sorted = sort_fcps(vec![(a, ca), (b, cb)]);
    let numbers: Vec<i32> = sorted.iter().map(|(f, _)| f.issue.number).collect();
    assert_eq!(numbers, vec![1, 2]);
}

#[test]
fn settled_fcps_come_last_and_fewer_concerns_first() {
    let t = libs_teams();
    let p = people();
    let settled = fcp(1, "settled", &["T-libs"], &[("alice", true)], &[]);
    let two = fcp(2, "two concerns", &["T-libs"], &[("alice", true)], &[("a", 1), ("b", 2)]);
    let open = fcp(3, "open", &["T-libs"], &[("alice", false)], &[]);
    let one = fcp(4, "one concern", &["T-libs"], &[("alice", false)], &[("c", 3)]);
    let items: Vec<_> = vec![settled, two, open, one]
        .into_iter()
        .map(|f| {
            let c = tally_checkboxes(&f, &p, &t);
            (f, c)
        })
        .collect();
    let sorted = sort_fcps(items);
    let numbers: Vec<i32> = sorted.iter().map(|(f, _)| f.issue.number).collect();
    assert_eq!(numbers, vec![3, 4, 2, 1]);
}

#[test]
fn every_unchecked_box_is_counted_once() {
    let f = fcp(
        1,
        "t",
        &["T-libs", "T-lang"],
        &[("alice", false), ("bob", false), ("carol", false), ("erin", false), ("frank", true)],
        &[],
    );
    let c = tally_checkboxes(&f, &people(), &libs_teams());
    let unchecked = f.reviews.iter().filter(|(_, done)| !done).count();
    assert_eq!(c.libs_and_former_fcp_unchecked + c.total_other_unchecked, unchecked);
    assert!(c.libs_unchecked <= c.libs_and_former_fcp_unchecked);
    assert_eq!(c.libs_unchecked, 1);
    assert_eq!(c.total_other_unchecked, 2);
}
