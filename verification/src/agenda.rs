//! The agendas of the libs team meeting and of the error handling project group.

use vstd::prelude::*;

use crate::fcp::{
    fcp_section, fcp_views, labelled, people_of, stably_sorted, with_tally, CheckView, FcpTeams,
    FcpView, FcpWithInfo, Teams,
};
use crate::issues::{in_set, issue_views, Generator, Issue, IssueView};
use crate::query::{
    carries_all, issue_lists, law_section_keeps, law_section_shows_once, query_endpoints, query_outcome, query_text, run_groups, GithubQuery,
    QueryView, Sort, State,
};
use crate::text::{decimal, digit, digit_char, format_u64, string_of, string_views};

verus! {

/// A query with no labels, repositories or options yet.
pub open spec fn base_query(name: Seq<char>) -> QueryView {
    QueryView {
        name,
        labels: Seq::empty(),
        excluded_labels: Seq::empty(),
        repos: Seq::empty(),
        sort: None,
        count: None,
        to_skip: Seq::empty(),
        shuffle: false,
        rev: false,
        state: State::Open,
    }
}

/// The "Critical" section of the libs agenda.
pub open spec fn critical_query() -> QueryView {
    QueryView {
        labels: seq![seq!["T-libs"@, "P-critical"@]],
        repos: seq!["rust-lang/rust"@, "rust-lang/rfcs"@],
        ..base_query("Critical"@)
    }
}

fn critical() -> (q: GithubQuery)
    ensures
        q@ == critical_query(),
{
    let mut q = GithubQuery::new("Critical");
    let l0: &[&str] = &["T-libs", "P-critical"];
    assert(l0@.map_values(|s: &str| s@) =~= seq!["T-libs"@, "P-critical"@]);
    q.labels(l0);
    q.repo("rust-lang/rust");
    q.repo("rust-lang/rfcs");
    assert(q@.labels =~= critical_query().labels);
    assert(q@.excluded_labels =~= critical_query().excluded_labels);
    assert(q@.repos =~= critical_query().repos);
    q
}

/// The "Backports" section of the libs agenda.
pub open spec fn backports_query() -> QueryView {
    QueryView {
        labels: seq![seq!["T-libs"@, "stable-nominated"@], seq!["T-libs"@, "beta-nominated"@]],
        excluded_labels: seq![seq!["beta-accepted"@]],
        repos: seq!["rust-lang/rust"@, "rust-lang/rfcs"@],
        state: State::Any,
        ..base_query("Backports"@)
    }
}

fn backports() -> (q: GithubQuery)
    ensures
        q@ == backports_query(),
{
    let mut q = GithubQuery::new("Backports");
    let l0: &[&str] = &["T-libs", "stable-nominated"];
    assert(l0@.map_values(|s: &str| s@) =~= seq!["T-libs"@, "stable-nominated"@]);
    q.labels(l0);
    let l1: &[&str] = &["T-libs", "beta-nominated"];
    assert(l1@.map_values(|s: &str| s@) =~= seq!["T-libs"@, "beta-nominated"@]);
    q.labels(l1);
    let e0: &[&str] = &["beta-accepted"];
    assert(e0@.map_values(|s: &str| s@) =~= seq!["beta-accepted"@]);
    q.exclude_labels(e0);
    q.state(State::Any);
    q.repo("rust-lang/rust");
    q.repo("rust-lang/rfcs");
    assert(q@.labels =~= backports_query().labels);
    assert(q@.excluded_labels =~= backports_query().excluded_labels);
    assert(q@.repos =~= backports_query().repos);
    q
}

/// The "Prioritization Requested" section of the libs agenda.
pub open spec fn prioritization_query() -> QueryView {
    QueryView {
        labels: seq![seq!["T-libs"@, "I-prioritize"@]],
        repos: seq!["rust-lang/rust"@, "rust-lang/rfcs"@],
        ..base_query("Prioritization Requested"@)
    }
}

fn prioritization() -> (q: GithubQuery)
    ensures
        q@ == prioritization_query(),
{
    let mut q = GithubQuery::new("Prioritization Requested");
    let l0: &[&str] = &["T-libs", "I-prioritize"];
    assert(l0@.map_values(|s: &str| s@) =~= seq!["T-libs"@, "I-prioritize"@]);
    q.labels(l0);
    q.repo("rust-lang/rust");
    q.repo("rust-lang/rfcs");
    assert(q@.labels =~= prioritization_query().labels);
    assert(q@.excluded_labels =~= prioritization_query().excluded_labels);
    assert(q@.repos =~= prioritization_query().repos);
    q
}

/// The "Nominated" section of the libs agenda.
pub open spec fn nominated_query() -> QueryView {
    QueryView {
        labels: seq![seq!["I-libs-nominated"@]],
        repos: seq!["rust-lang/rust"@, "rust-lang/rfcs"@, "rust-lang/libs-team"@, "rust-lang/stdarch"@],
        ..base_query("Nominated"@)
    }
}

fn nominated() -> (q: GithubQuery)
    ensures
        q@ == nominated_query(),
{
    let mut q = GithubQuery::new("Nominated");
    let l0: &[&str] = &["I-libs-nominated"];
    assert(l0@.map_values(|s: &str| s@) =~= seq!["I-libs-nominated"@]);
    q.labels(l0);
    q.repo("rust-lang/rust");
    q.repo("rust-lang/rfcs");
    q.repo("rust-lang/libs-team");
    q.repo("rust-lang/stdarch");
    assert(q@.labels =~= nominated_query().labels);
    assert(q@.excluded_labels =~= nominated_query().excluded_labels);
    assert(q@.repos =~= nominated_query().repos);
    q
}

/// The "Waiting on Team" section of the libs agenda.
pub open spec fn waiting_on_team_query() -> QueryView {
    QueryView {
        labels: seq![seq!["S-waiting-on-t-libs"@]],
        repos: seq!["rust-lang/rust"@, "rust-lang/rfcs"@],
        ..base_query("Waiting on Team"@)
    }
}

fn waiting_on_team() -> (q: GithubQuery)
    ensures
        q@ == waiting_on_team_query(),
{
    let mut q = GithubQuery::new("Waiting on Team");
    let l0: &[&str] = &["S-waiting-on-t-libs"];
    assert(l0@.map_values(|s: &str| s@) =~= seq!["S-waiting-on-t-libs"@]);
    q.labels(l0);
    q.repo("rust-lang/rust");
    q.repo("rust-lang/rfcs");
    assert(q@.labels =~= waiting_on_team_query().labels);
    assert(q@.excluded_labels =~= waiting_on_team_query().excluded_labels);
    assert(q@.repos =~= waiting_on_team_query().repos);
    q
}

/// The "needs decision" section of the libs agenda.
pub open spec fn needs_decision_query() -> QueryView {
    QueryView {
        labels: seq![seq!["T-libs"@, "I-needs-decision"@]],
        repos: seq!["rust-lang/rust"@],
        ..base_query("needs decision"@)
    }
}

fn needs_decision() -> (q: GithubQuery)
    ensures
        q@ == needs_decision_query(),
{
    let mut q = GithubQuery::new("needs decision");
    let l0: &[&str] = &["T-libs", "I-needs-decision"];
    assert(l0@.map_values(|s: &str| s@) =~= seq!["T-libs"@, "I-needs-decision"@]);
    q.labels(l0);
    q.repo("rust-lang/rust");
    assert(q@.labels =~= needs_decision_query().labels);
    assert(q@.excluded_labels =~= needs_decision_query().excluded_labels);
    assert(q@.repos =~= needs_decision_query().repos);
    q
}

/// The "Regressions" section of the libs agenda.
pub open spec fn regressions_query() -> QueryView {
    QueryView {
        labels: seq![seq!["T-libs"@, "regression-untriaged"@], seq!["T-libs"@, "regression-from-stable-to-stable"@], seq!["T-libs"@, "regression-from-stable-to-beta"@], seq!["T-libs"@, "regression-from-stable-to-nightly"@]],
        excluded_labels: seq![seq!["I-libs-nominated"@], seq!["P-low"@]],
        repos: seq!["rust-lang/rust"@, "rust-lang/rfcs"@],
        ..base_query("Regressions"@)
    }
}

fn regressions() -> (q: GithubQuery)
    ensures
        q@ == regressions_query(),
{
    let mut q = GithubQuery::new("Regressions");
    let l0: &[&str] = &["T-libs", "regression-untriaged"];
    assert(l0@.map_values(|s: &str| s@) =~= seq!["T-libs"@, "regression-untriaged"@]);
    q.labels(l0);
    let l1: &[&str] = &["T-libs", "regression-from-stable-to-stable"];
    assert(l1@.map_values(|s: &str| s@) =~= seq!["T-libs"@, "regression-from-stable-to-stable"@]);
    q.labels(l1);
    let l2: &[&str] = &["T-libs", "regression-from-stable-to-beta"];
    assert(l2@.map_values(|s: &str| s@) =~= seq!["T-libs"@, "regression-from-stable-to-beta"@]);
    q.labels(l2);
    let l3: &[&str] = &["T-libs", "regression-from-stable-to-nightly"];
    assert(l3@.map_values(|s: &str| s@) =~= seq!["T-libs"@, "regression-from-stable-to-nightly"@]);
    q.labels(l3);
    let e0: &[&str] = &["I-libs-nominated"];
    assert(e0@.map_values(|s: &str| s@) =~= seq!["I-libs-nominated"@]);
    q.exclude_labels(e0);
    let e1: &[&str] = &["P-low"];
    assert(e1@.map_values(|s: &str| s@) =~= seq!["P-low"@]);
    q.exclude_labels(e1);
    q.repo("rust-lang/rust");
    q.repo("rust-lang/rfcs");
    assert(q@.labels =~= regressions_query().labels);
    assert(q@.excluded_labels =~= regressions_query().excluded_labels);
    assert(q@.repos =~= regressions_query().repos);
    q
}

/// The newest API change proposals.
pub open spec fn new_proposals_query() -> QueryView {
    QueryView {
        labels: seq![seq!["api-change-proposal"@]],
        excluded_labels: seq![seq!["ACP-accepted"@]],
        repos: seq!["rust-lang/libs-team"@],
        sort: Some(Sort::Newest),
        count: Some(10usize),
        rev: true,
        ..base_query("New"@)
    }
}

fn new_proposals() -> (q: GithubQuery)
    ensures
        q@ == new_proposals_query(),
{
    let mut q = GithubQuery::new("New");
    let l0: &[&str] = &["api-change-proposal"];
    assert(l0@.map_values(|s: &str| s@) =~= seq!["api-change-proposal"@]);
    q.labels(l0);
    let e0: &[&str] = &["ACP-accepted"];
    assert(e0@.map_values(|s: &str| s@) =~= seq!["ACP-accepted"@]);
    q.exclude_labels(e0);
    q.repo("rust-lang/libs-team");
    q.sort(Sort::Newest);
    q.take(10);
    q.rev(true);
    assert(q@.labels =~= new_proposals_query().labels);
    assert(q@.excluded_labels =~= new_proposals_query().excluded_labels);
    assert(q@.repos =~= new_proposals_query().repos);
    q
}

/// The API change proposals that have waited longest, before any are left out.
pub open spec fn stalled_proposals_query() -> QueryView {
    QueryView {
        labels: seq![seq!["api-change-proposal"@]],
        excluded_labels: seq![seq!["ACP-accepted"@]],
        repos: seq!["rust-lang/libs-team"@],
        sort: Some(Sort::LeastRecentlyUpdated),
        count: Some(10usize),
        shuffle: true,
        ..base_query("Stalled"@)
    }
}

fn stalled_proposals() -> (q: GithubQuery)
    ensures
        q@ == stalled_proposals_query(),
{
    let mut q = GithubQuery::new("Stalled");
    let l0: &[&str] = &["api-change-proposal"];
    assert(l0@.map_values(|s: &str| s@) =~= seq!["api-change-proposal"@]);
    q.labels(l0);
    let e0: &[&str] = &["ACP-accepted"];
    assert(e0@.map_values(|s: &str| s@) =~= seq!["ACP-accepted"@]);
    q.exclude_labels(e0);
    q.repo("rust-lang/libs-team");
    q.sort(Sort::LeastRecentlyUpdated);
    q.take(10);
    q.shuffle(true);
    assert(q@.labels =~= stalled_proposals_query().labels);
    assert(q@.excluded_labels =~= stalled_proposals_query().excluded_labels);
    assert(q@.repos =~= stalled_proposals_query().repos);
    q
}

/// The "Nominated" section of the error handling agenda.
pub open spec fn pg_nominated_query() -> QueryView {
    QueryView {
        labels: seq![seq!["PG-error-handling"@, "I-nominated"@]],
        repos: seq!["rust-lang/rust"@, "rust-lang/project-error-handling"@],
        ..base_query("Nominated"@)
    }
}

fn pg_nominated() -> (q: GithubQuery)
    ensures
        q@ == pg_nominated_query(),
{
    let mut q = GithubQuery::new("Nominated");
    let l0: &[&str] = &["PG-error-handling", "I-nominated"];
    assert(l0@.map_values(|s: &str| s@) =~= seq!["PG-error-handling"@, "I-nominated"@]);
    q.labels(l0);
    q.repo("rust-lang/rust");
    q.repo("rust-lang/project-error-handling");
    assert(q@.labels =~= pg_nominated_query().labels);
    assert(q@.excluded_labels =~= pg_nominated_query().excluded_labels);
    assert(q@.repos =~= pg_nominated_query().repos);
    q
}

/// The "PG Error Handling" section of the error handling agenda.
pub open spec fn pg_error_handling_query() -> QueryView {
    QueryView {
        labels: seq![seq!["PG-error-handling"@]],
        repos: seq!["rust-lang/rust"@, "rust-lang/project-error-handling"@],
        ..base_query("PG Error Handling"@)
    }
}

fn pg_error_handling() -> (q: GithubQuery)
    ensures
        q@ == pg_error_handling_query(),
{
    let mut q = GithubQuery::new("PG Error Handling");
    let l0: &[&str] = &["PG-error-handling"];
    assert(l0@.map_values(|s: &str| s@) =~= seq!["PG-error-handling"@]);
    q.labels(l0);
    q.repo("rust-lang/rust");
    q.repo("rust-lang/project-error-handling");
    assert(q@.labels =~= pg_error_handling_query().labels);
    assert(q@.excluded_labels =~= pg_error_handling_query().excluded_labels);
    assert(q@.repos =~= pg_error_handling_query().repos);
    q
}

/// The "Area Error Handling" section of the error handling agenda.
pub open spec fn area_error_handling_query() -> QueryView {
    QueryView {
        labels: seq![seq!["A-error-handling"@]],
        repos: seq!["rust-lang/rust"@],
        ..base_query("Area Error Handling"@)
    }
}

fn area_error_handling() -> (q: GithubQuery)
    ensures
        q@ == area_error_handling_query(),
{
    let mut q = GithubQuery::new("Area Error Handling");
    let l0: &[&str] = &["A-error-handling"];
    assert(l0@.map_values(|s: &str| s@) =~= seq!["A-error-handling"@]);
    q.labels(l0);
    q.repo("rust-lang/rust");
    assert(q@.labels =~= area_error_handling_query().labels);
    assert(q@.excluded_labels =~= area_error_handling_query().excluded_labels);
    assert(q@.repos =~= area_error_handling_query().repos);
    q
}

/// The last section of the error handling agenda, which names no labels.
pub open spec fn pg_unlabelled_query() -> QueryView {
    QueryView {
        repos: seq!["rust-lang/project-error-handling"@],
        ..base_query("PG Error Handling"@)
    }
}

fn pg_unlabelled() -> (q: GithubQuery)
    ensures
        q@ == pg_unlabelled_query(),
{
    let mut q = GithubQuery::new("PG Error Handling");
    q.repo("rust-lang/project-error-handling");
    assert(q@.excluded_labels =~= pg_unlabelled_query().excluded_labels);
    assert(q@.labels =~= pg_unlabelled_query().labels);
    assert(q@.repos =~= pg_unlabelled_query().repos);
    q
}

/// The queries of the triage part of the libs agenda, in order.
pub open spec fn libs_triage_queries() -> Seq<QueryView> {
    seq![
        critical_query(),
        backports_query(),
        prioritization_query(),
        nominated_query(),
        waiting_on_team_query(),
        needs_decision_query(),
        regressions_query(),
    ]
}

/// The queries of the error handling agenda, in order.
pub open spec fn error_handling_queries() -> Seq<QueryView> {
    seq![pg_nominated_query(), pg_error_handling_query(), area_error_handling_query(), pg_unlabelled_query()]
}

/// The text and the seen urls after running `qs`, the `k`-th on the fetched groups
/// `fetched[k]` in the orders `chosen[k]`, starting from `text` and `seen`.
pub open spec fn run_queries(
    qs: Seq<QueryView>,
    fetched: Seq<Seq<Seq<IssueView>>>,
    chosen: Seq<Seq<Seq<IssueView>>>,
    text: Seq<char>,
    seen: Seq<(Seq<char>, ())>,
) -> Option<(Seq<char>, Seq<(Seq<char>, ())>)>
    decreases qs.len(),
{
    if qs.len() == 0 {
        Some((text, seen))
    } else {
        match run_queries(qs.drop_last(), fetched, chosen, text, seen) {
            None => None,
            Some((t, s)) => match run_groups(qs.last(), fetched[qs.len() - 1], chosen[qs.len() - 1], s) {
                Some(r) => Some((t + query_text(r), r.seen)),
                None => None,
            },
        }
    }
}

/// The first lines of the libs agenda.
pub open spec fn libs_header(date: Seq<char>) -> Seq<char> {
    "# Libs Meeting "@ + date + "\n\n###### tags: `Libs Meetings` `Minutes`\n\n**Meeting Link**: https://meet.jit.si/rust-libs-meeting-crxoz2at8hiccp7b3ixf89qgxfymlbwr\n**Attendees**: ...\n\n## Agenda\n\n- Nominated items\n- Regressions\n- FCPs (optional)\n- ACPs (optional)\n- Anything else?\n\n"@ + "\n"@ + "## Triage\n\n"@ + "\n"@
}

/// The last line of both agendas.
pub open spec fn footer() -> Seq<char> {
    "_Generated by [fully-automatic-rust-libs-team-triage-meeting-agenda-generator](https://github.com/rust-lang/libs-team/tree/main/tools/agenda-generator)_"@ + "\n"@
}

/// The first lines of the error handling agenda.
pub open spec fn error_handling_header(date: Seq<char>) -> Seq<char> {
    "# Project Group Error Handling Meeting "@ + date + "\n\n###### tags: `Error Handling` `Minutes`\n\n**Attendees**: ...\n\n## Agenda Items\n\n- [Open action items](https://hackmd.io/@rust-libs/Hyj7kRSld)\n- Triage\n- Individual Status Updates\n\n## Triage\n"@ + "\n"@
}

/// The actions at the end of the error handling agenda.
pub open spec fn error_handling_actions() -> Seq<char> {
    "## Actions\n\n- [ ] Reply to all issues/PRs discussed in this meeting, or add them to the [open action items](https://hackmd.io/UrERZvi5RwyxfGvo-RtC6g).\n"@ + "\n"@
}

/// The urls of a list of issues.
pub open spec fn urls_of(issues: Seq<IssueView>) -> Seq<Seq<char>> {
    issues.map_values(|i: IssueView| i.html_url)
}

/// The libs agenda for `date`, given the issues fetched for each query (`fetched`,
/// one list per endpoint of the query), the order each shuffled group got
/// (`chosen`), and the FCP section's order `order`; `None` where `chosen` is not an
/// order the queries may give.
pub open spec fn libs_agenda_text(
    start: Seq<char>,
    seen: Seq<(Seq<char>, ())>,
    date: Seq<char>,
    fetched: Seq<Seq<Seq<IssueView>>>,
    chosen: Seq<Seq<Seq<IssueView>>>,
    order: Seq<(FcpView, CheckView)>,
) -> Option<Seq<char>> {
    match run_queries(libs_triage_queries(), fetched, chosen, start + libs_header(date), seen) {
        None => None,
        Some((t, s)) => {
            let t2 = t + fcp_section(order) + "## ACPs\n\n"@ + "\n"@;
            match run_groups(new_proposals_query(), fetched[7], chosen[7], s) {
                None => None,
                Some(r8) => match run_groups(
                    QueryView { to_skip: urls_of(r8.issues), ..stalled_proposals_query() },
                    fetched[8],
                    chosen[8],
                    r8.seen,
                ) {
                    None => None,
                    Some(r9) => Some(t2 + query_text(r8) + query_text(r9) + footer()),
                },
            }
        },
    }
}

/// The order of the FCP section is the agenda's order of the FCPs labelled `T-libs`.
pub open spec fn libs_fcp_order(fcps: Seq<FcpView>, fcp_teams: &FcpTeams, teams: &Teams, order: Seq<(FcpView, CheckView)>) -> bool {
    stably_sorted(
        with_tally(
            labelled(fcps, "T-libs"@),
            people_of(fcp_teams.teams@, fcp_teams.teams@.len() as int, fcp_teams.people@),
            (teams.libs.members@, teams.libs.alumni@),
        ),
        order,
    )
}

/// The queries of the libs agenda, in order, without what the last one skips.
pub open spec fn libs_queries() -> Seq<QueryView> {
    libs_triage_queries() + seq![new_proposals_query(), stalled_proposals_query()]
}

/// The fetched lists fit the endpoints of the queries.
pub open spec fn fits_endpoints(fetched: Seq<Vec<Vec<Issue>>>, qs: Seq<QueryView>) -> bool {
    &&& fetched.len() == qs.len()
    &&& forall|k: int| 0 <= k < qs.len() ==> #[trigger] fetched[k]@.len() == qs[k].repos.len() * qs[k].labels.len()
}

/// The views of the lists fetched for each query.
pub open spec fn fetched_views(fetched: Seq<Vec<Vec<Issue>>>) -> Seq<Seq<Seq<IssueView>>> {
    fetched.map_values(|f: Vec<Vec<Issue>>| issue_lists(f@))
}

fn triage_queries() -> (res: Vec<GithubQuery>)
    ensures
        res@.map_values(|q: GithubQuery| q@) == libs_triage_queries(),
{
    let mut v: Vec<GithubQuery> = Vec::new();
    v.push(critical());
    v.push(backports());
    v.push(prioritization());
    v.push(nominated());
    v.push(waiting_on_team());
    v.push(needs_decision());
    v.push(regressions());
    assert(v@.map_values(|q: GithubQuery| q@) =~= libs_triage_queries());
    v
}

fn eh_queries() -> (res: Vec<GithubQuery>)
    ensures
        res@.map_values(|q: GithubQuery| q@) == error_handling_queries(),
{
    let mut v: Vec<GithubQuery> = Vec::new();
    v.push(pg_nominated());
    v.push(pg_error_handling());
    v.push(area_error_handling());
    v.push(pg_unlabelled());
    assert(v@.map_values(|q: GithubQuery| q@) =~= error_handling_queries());
    v
}

/// The endpoints that the libs agenda asks, for each query in order.
pub fn libs_agenda_endpoints() -> (res: Vec<Vec<String>>)
    ensures
        res@.len() == libs_queries().len(),
        forall|k: int| 0 <= k < res@.len() ==> string_views(#[trigger] res@[k]@) == query_endpoints(libs_queries()[k]),
{
    let mut qs = triage_queries();
    qs.push(new_proposals());
    qs.push(stalled_proposals());
    let ghost qv = qs@.map_values(|q: GithubQuery| q@);
    assert(qv =~= libs_queries());
    let mut res: Vec<Vec<String>> = Vec::new();
    let mut k: usize = 0;
    while k < qs.len()
        invariant
            k <= qs@.len(),
            qv == qs@.map_values(|q: GithubQuery| q@),
            qv == libs_queries(),
            res@.len() == k,
            forall|j: int| 0 <= j < k ==> string_views(#[trigger] res@[j]@) == query_endpoints(libs_queries()[j]),
        decreases qs@.len() - k,
    {
        res.push(qs[k].endpoints());
        k = k + 1;
    }
    res
}

/// The endpoints that the error handling agenda asks, for each query in order.
pub fn error_handling_agenda_endpoints() -> (res: Vec<Vec<String>>)
    ensures
        res@.len() == error_handling_queries().len(),
        forall|k: int| 0 <= k < res@.len() ==> string_views(#[trigger] res@[k]@) == query_endpoints(error_handling_queries()[k]),
{
    let qs = eh_queries();
    let ghost qv = qs@.map_values(|q: GithubQuery| q@);
    let mut res: Vec<Vec<String>> = Vec::new();
    let mut k: usize = 0;
    while k < qs.len()
        invariant
            k <= qs@.len(),
            qv == qs@.map_values(|q: GithubQuery| q@),
            qv == error_handling_queries(),
            res@.len() == k,
            forall|j: int| 0 <= j < k ==> string_views(#[trigger] res@[j]@) == query_endpoints(error_handling_queries()[j]),
        decreases qs@.len() - k,
    {
        res.push(qs[k].endpoints());
        k = k + 1;
    }
    res
}

/// Running queries reads only the orders given to those queries.
proof fn lemma_run_queries_prefix(
    qs: Seq<QueryView>,
    fetched: Seq<Seq<Seq<IssueView>>>,
    c1: Seq<Seq<Seq<IssueView>>>,
    c2: Seq<Seq<Seq<IssueView>>>,
    text: Seq<char>,
    seen: Seq<(Seq<char>, ())>,
)
    requires
        qs.len() <= c1.len(),
        qs.len() <= c2.len(),
        forall|i: int| 0 <= i < qs.len() ==> c1[i] == c2[i],
    ensures
        run_queries(qs, fetched, c1, text, seen) == run_queries(qs, fetched, c2, text, seen),
    decreases qs.len(),
{
    if qs.len() > 0 {
        lemma_run_queries_prefix(qs.drop_last(), fetched, c1, c2, text, seen);
    }
}

/// The error handling agenda for `date`, given the issues fetched for each query
/// and the orders `chosen`; `None` where `chosen` is not an order the queries may give.
pub open spec fn error_handling_agenda_text(
    start: Seq<char>,
    seen: Seq<(Seq<char>, ())>,
    date: Seq<char>,
    fetched: Seq<Seq<Seq<IssueView>>>,
    chosen: Seq<Seq<Seq<IssueView>>>,
) -> Option<Seq<char>> {
    match run_queries(error_handling_queries(), fetched, chosen, start + error_handling_header(date), seen) {
        None => None,
        Some((t, _)) => Some(t + error_handling_actions() + footer()),
    }
}

impl Generator {
    /// Runs `qs` on the next fetched lists of `rev` (which holds them last first).
    fn run_query_list(
        &mut self,
        qs: &Vec<GithubQuery>,
        rev: &mut Vec<Vec<Vec<Issue>>>,
        Ghost(fetched): Ghost<Seq<Vec<Vec<Issue>>>>,
        Ghost(all): Ghost<Seq<QueryView>>,
    ) -> (chosen: Ghost<Seq<Seq<Seq<IssueView>>>>)
        requires
            qs@.map_values(|q: GithubQuery| q@) == all.take(qs@.len() as int),
            qs@.len() <= all.len(),
            fits_endpoints(fetched, all),
            old(rev)@ == fetched.reverse(),
        ensures
            final(rev)@ == fetched.skip(qs@.len() as int).reverse(),
            chosen@.len() == qs@.len(),
            run_queries(all.take(qs@.len() as int), fetched_views(fetched), chosen@, old(self).agenda_view(), old(self).seen_view())
                == Some((final(self).agenda_view(), final(self).seen_view())),
    {
        let ghost fv = fetched_views(fetched);
        let ghost start = self.agenda_view();
        let ghost seen0 = self.seen_view();
        let ghost mut chosen: Seq<Seq<Seq<IssueView>>> = Seq::empty();
        assert(fetched.skip(0) =~= fetched);
        assert(all.take(0) =~= Seq::<QueryView>::empty());
        let mut k: usize = 0;
        while k < qs.len()
            invariant
                k <= qs@.len(),
                qs@.len() <= all.len(),
                qs@.map_values(|q: GithubQuery| q@) == all.take(qs@.len() as int),
                fits_endpoints(fetched, all),
                fv == fetched_views(fetched),
                rev@ == fetched.skip(k as int).reverse(),
                chosen.len() == k,
                run_queries(all.take(k as int), fv, chosen, start, seen0) == Some((self.agenda_view(), self.seen_view())),
            decreases qs@.len() - k,
        {
            assert(rev@.len() == fetched.len() - k);
            let list = rev.pop().unwrap();
            assert(list == fetched[k as int]);
            assert(rev@ =~= fetched.skip(k + 1).reverse());
            let q = &qs[k];
            assert(q@ == all[k as int]) by {
                assert(all.take(qs@.len() as int)[k as int] == all[k as int]);
            }
            assert(list@.len() == all[k as int].repos.len() * all[k as int].labels.len());
            let ghost before_agenda = self.agenda_view();
            let ghost before_seen = self.seen_view();
            let ghost lv = issue_lists(list@);
            assert(lv == fv[k as int]);
            let written = q.write(self, list);
            proof {
                let ch = choose|ch: Seq<Seq<IssueView>>| #[trigger] query_outcome(q@, lv, ch, before_seen, before_agenda, self.agenda_view(), self.seen_view(), issue_views(written@));
                let prev = chosen;
                chosen = chosen.push(ch);
                lemma_run_queries_prefix(all.take(k as int), fv, prev, chosen, start, seen0);
                let qk = all.take(k + 1);
                assert(qk.drop_last() =~= all.take(k as int));
                assert(qk.last() == q@);
            }
            k = k + 1;
        }
        Ghost(chosen)
    }

    /// The libs agenda for `date`: the triage queries, the FCPs labelled `T-libs`,
    /// and the API change proposals, written after what the generator holds;
    /// `fetched` holds, for each query in order, what the API answered at each of its
    /// endpoints (see `libs_agenda_endpoints`).
    pub fn libs_agenda_on(
        self,
        date: &str,
        fetched: Vec<Vec<Vec<Issue>>>,
        fcps: Vec<FcpWithInfo>,
        fcp_teams: FcpTeams,
        teams: &Teams,
    ) -> (res: String)
        requires
            fits_endpoints(fetched@, libs_queries()),
        ensures
            exists|chosen: Seq<Seq<Seq<IssueView>>>, order: Seq<(FcpView, CheckView)>| {
                &&& libs_fcp_order(fcp_views(fcps@), &fcp_teams, teams, order)
                &&& #[trigger] libs_agenda_text(self.agenda_view(), self.seen_view(), date@, fetched_views(fetched@), chosen, order) == Some(res@)
            },
    {
        let mut g = self;
        let ghost start = g.agenda_view();
        let ghost seen0 = g.seen_view();
        let ghost fetched_seq = fetched@;
        let ghost fv = fetched_views(fetched_seq);
        let ghost fcps_view = fcp_views(fcps@);
        g.write_str("# Libs Meeting ");
        g.write_str(date);
        g.write_str("\n\n###### tags: `Libs Meetings` `Minutes`\n\n**Meeting Link**: https://meet.jit.si/rust-libs-meeting-crxoz2at8hiccp7b3ixf89qgxfymlbwr\n**Attendees**: ...\n\n## Agenda\n\n- Nominated items\n- Regressions\n- FCPs (optional)\n- ACPs (optional)\n- Anything else?\n\n");
        g.write_str("\n");
        g.write_str("## Triage\n\n");
        g.write_str("\n");
        assert(g.agenda_view() =~= start + libs_header(date@));
        let mut rev = crate::issues::reverse_vec(fetched);
        let qs = triage_queries();
        assert(qs@.map_values(|q: GithubQuery| q@) =~= libs_queries().take(7));
        let Ghost(chosen7) = g.run_query_list(&qs, &mut rev, Ghost(fetched_seq), Ghost(libs_queries()));
        assert(libs_queries().take(7) =~= libs_triage_queries());
        let ghost t7 = g.agenda_view();
        let ghost s7 = g.seen_view();
        let ghost fcp_teams_v = fcp_teams;
        g.fcps("T-libs", fcps, fcp_teams, teams);
        let ghost order = choose|order: Seq<(FcpView, CheckView)>| {
            &&& stably_sorted(
                with_tally(
                    labelled(fcps_view, "T-libs"@),
                    people_of(fcp_teams_v.teams@, fcp_teams_v.teams@.len() as int, fcp_teams_v.people@),
                    (teams.libs.members@, teams.libs.alumni@),
                ),
                order,
            )
            &&& g.agenda_view() == t7 + fcp_section(order)
        };
        g.write_str("## ACPs\n\n");
        g.write_str("\n");
        let ghost t_acp = g.agenda_view();
        assert(rev@.len() == 2);
        let list8 = rev.pop().unwrap();
        let list9 = rev.pop().unwrap();
        assert(list8 == fetched_seq[7]);
        assert(list9 == fetched_seq[8]);
        assert(libs_queries()[7] == new_proposals_query());
        assert(libs_queries()[8] == stalled_proposals_query());
        let new_q = new_proposals();
        let ghost seen8 = g.seen_view();
        let new_issues = new_q.write(&mut g, list8);
        let ghost ch8 = choose|ch: Seq<Seq<IssueView>>| #[trigger] query_outcome(new_proposals_query(), fv[7], ch, seen8, t_acp, g.agenda_view(), g.seen_view(), issue_views(new_issues@));
        let ghost t8 = g.agenda_view();
        let ghost seen9 = g.seen_view();
        let mut stalled_q = stalled_proposals();
        stalled_q.skip(&new_issues);
        let stalled_issues = stalled_q.write(&mut g, list9);
        let ghost ch9 = choose|ch: Seq<Seq<IssueView>>| #[trigger] query_outcome(stalled_q@, fv[8], ch, seen9, t8, g.agenda_view(), g.seen_view(), issue_views(stalled_issues@));
        g.write_str("_Generated by [fully-automatic-rust-libs-team-triage-meeting-agenda-generator](https://github.com/rust-lang/libs-team/tree/main/tools/agenda-generator)_");
        g.write_str("\n");
        proof {
            let chosen = chosen7.push(ch8).push(ch9);
            lemma_run_queries_prefix(libs_triage_queries(), fv, chosen7, chosen, start + libs_header(date@), seen0);
            assert(chosen[7] == ch8);
            assert(chosen[8] == ch9);
            assert(libs_fcp_order(fcps_view, &fcp_teams_v, teams, order));
            assert(libs_agenda_text(start, seen0, date@, fv, chosen, order) == Some(g.agenda_view()));
        }
        g.agenda_text()
    }

    /// The error handling agenda for `date`, written after what the generator holds;
    /// `fetched` holds, for each query in order, what the API answered at each of its
    /// endpoints (see `error_handling_agenda_endpoints`).
    pub fn error_handling_pg_agenda_on(self, date: &str, fetched: Vec<Vec<Vec<Issue>>>) -> (res: String)
        requires
            fits_endpoints(fetched@, error_handling_queries()),
        ensures
            exists|chosen: Seq<Seq<Seq<IssueView>>>|
                #[trigger] error_handling_agenda_text(self.agenda_view(), self.seen_view(), date@, fetched_views(fetched@), chosen) == Some(res@),
    {
        let mut g = self;
        let ghost start = g.agenda_view();
        let ghost seen0 = g.seen_view();
        let ghost fetched_seq = fetched@;
        g.write_str("# Project Group Error Handling Meeting ");
        g.write_str(date);
        g.write_str("\n\n###### tags: `Error Handling` `Minutes`\n\n**Attendees**: ...\n\n## Agenda Items\n\n- [Open action items](https://hackmd.io/@rust-libs/Hyj7kRSld)\n- Triage\n- Individual Status Updates\n\n## Triage\n");
        g.write_str("\n");
        assert(g.agenda_view() =~= start + error_handling_header(date@));
        let mut rev = crate::issues::reverse_vec(fetched);
        let qs = eh_queries();
        assert(error_handling_queries().take(4) =~= error_handling_queries());
        let Ghost(chosen) = g.run_query_list(&qs, &mut rev, Ghost(fetched_seq), Ghost(error_handling_queries()));
        g.write_str("## Actions\n\n- [ ] Reply to all issues/PRs discussed in this meeting, or add them to the [open action items](https://hackmd.io/UrERZvi5RwyxfGvo-RtC6g).\n");
        g.write_str("\n");
        g.write_str("_Generated by [fully-automatic-rust-libs-team-triage-meeting-agenda-generator](https://github.com/rust-lang/libs-team/tree/main/tools/agenda-generator)_");
        g.write_str("\n");
        proof {
            assert(error_handling_agenda_text(start, seen0, date@, fetched_views(fetched_seq), chosen) == Some(g.agenda_view()));
        }
        g.agenda_text()
    }

    /// The libs agenda for today's date (in UTC).
    pub fn libs_agenda(
        self,
        fetched: Vec<Vec<Vec<Issue>>>,
        fcps: Vec<FcpWithInfo>,
        fcp_teams: FcpTeams,
        teams: &Teams,
    ) -> (res: String)
        requires
            fits_endpoints(fetched@, libs_queries()),
        ensures
            exists|date: Seq<char>, chosen: Seq<Seq<Seq<IssueView>>>, order: Seq<(FcpView, CheckView)>| {
                &&& is_date_text(date)
                &&& libs_fcp_order(fcp_views(fcps@), &fcp_teams, teams, order)
                &&& #[trigger] libs_agenda_text(self.agenda_view(), self.seen_view(), date, fetched_views(fetched@), chosen, order) == Some(res@)
            },
    {
        let date = utc_today();
        self.libs_agenda_on(date.as_str(), fetched, fcps, fcp_teams, teams)
    }

    /// The error handling agenda for today's date (in UTC).
    pub fn error_handling_pg_agenda(self, fetched: Vec<Vec<Vec<Issue>>>) -> (res: String)
        requires
            fits_endpoints(fetched@, error_handling_queries()),
        ensures
            exists|date: Seq<char>, chosen: Seq<Seq<Seq<IssueView>>>|
                is_date_text(date) && #[trigger] error_handling_agenda_text(self.agenda_view(), self.seen_view(), date, fetched_views(fetched@), chosen) == Some(res@),
    {
        let date = utc_today();
        self.error_handling_pg_agenda_on(date.as_str(), fetched)
    }
}

/// `chrono::Utc::now`, as the year, month and day of its date
/// (`DateTime::date_naive`, then `Datelike::{year, month, day}`). It depends on the
/// clock, so only the ranges are promised: `Utc::now` panics on a clock before 1970
/// and on a date past chrono's last year, and months and days are those of a date.
#[verifier::external_body]
fn utc_date() -> (res: (i32, u32, u32))
    ensures
        1970 <= res.0 <= 262142,
        1 <= res.1 <= 12,
        1 <= res.2 <= 31,
{
    let d = chrono::Utc::now().date_naive();
    (chrono::Datelike::year(&d), chrono::Datelike::month(&d), chrono::Datelike::day(&d))
}

/// A number below one hundred in two digits.
pub open spec fn two_digits(n: nat) -> Seq<char> {
    seq![digit_char(n / 10), digit_char(n % 10)]
}

/// A year as chrono writes `%Y`: four digits, zero-padded, up to 9999, and a `+`
/// before the number from 10000 on.
pub open spec fn year_text(y: nat) -> Seq<char> {
    if y < 10000 {
        seq![digit_char(y / 1000), digit_char(y / 100 % 10), digit_char(y / 10 % 10), digit_char(y % 10)]
    } else {
        seq!['+'] + decimal(y)
    }
}

/// A date written as `%Y-%m-%d`.
pub open spec fn date_text(y: nat, m: nat, d: nat) -> Seq<char> {
    year_text(y) + seq!['-'] + two_digits(m) + seq!['-'] + two_digits(d)
}

/// Writes a date as `%Y-%m-%d`.
pub fn format_date(y: u32, m: u32, d: u32) -> (res: String)
    requires
        m < 100,
        d < 100,
    ensures
        res@ == date_text(y as nat, m as nat, d as nat),
{
    let mut out: Vec<char> = Vec::new();
    if y < 10000 {
        let y64 = y as u64;
        out.push(digit(y64 / 1000));
        out.push(digit(y64 / 100 % 10));
        out.push(digit(y64 / 10 % 10));
        out.push(digit(y64 % 10));
    } else {
        out.push('+');
        let mut ds = format_u64(y as u64);
        out.append(&mut ds);
    }
    assert(out@ =~= year_text(y as nat));
    out.push('-');
    out.push(digit(m as u64 / 10));
    out.push(digit(m as u64 % 10));
    out.push('-');
    out.push(digit(d as u64 / 10));
    out.push(digit(d as u64 % 10));
    assert(out@ =~= date_text(y as nat, m as nat, d as nat));
    string_of(&out)
}

/// Today's date in UTC, as `%Y-%m-%d`.
fn utc_today() -> (res: String)
    ensures
        exists|y: nat, m: nat, d: nat| 1970 <= y && 1 <= m <= 12 && 1 <= d <= 31 && res@ == #[trigger] date_text(y, m, d),
{
    let (y, m, d) = utc_date();
    let res = format_date(y as u32, m, d);
    assert(res@ == date_text(y as nat, m as nat, d as nat));
    res
}

/// A date as `%Y-%m-%d`, of a day from 1970 on.
pub open spec fn is_date_text(t: Seq<char>) -> bool {
    exists|y: nat, m: nat, d: nat| 1970 <= y && 1 <= m <= 12 && 1 <= d <= 31 && t == #[trigger] date_text(y, m, d)
}

/// The urls seen after the first `k` queries of `qs`.
pub open spec fn seen_after(
    qs: Seq<QueryView>,
    fetched: Seq<Seq<Seq<IssueView>>>,
    chosen: Seq<Seq<Seq<IssueView>>>,
    seen: Seq<(Seq<char>, ())>,
    k: int,
) -> Seq<(Seq<char>, ())> {
    match run_queries(qs.take(k), fetched, chosen, Seq::empty(), seen) {
        Some((_, s)) => s,
        None => seen,
    }
}

/// The issues that section `k` of `qs` shows.
pub open spec fn section_issues(
    qs: Seq<QueryView>,
    fetched: Seq<Seq<Seq<IssueView>>>,
    chosen: Seq<Seq<Seq<IssueView>>>,
    seen: Seq<(Seq<char>, ())>,
    k: int,
) -> Seq<IssueView> {
    match run_groups(qs[k], fetched[k], chosen[k], seen_after(qs, fetched, chosen, seen, k)) {
        Some(r) => r.issues,
        None => Seq::empty(),
    }
}

/// What the queries see does not depend on the text written before them.
proof fn lemma_run_queries_text(
    qs: Seq<QueryView>,
    fetched: Seq<Seq<Seq<IssueView>>>,
    chosen: Seq<Seq<Seq<IssueView>>>,
    t1: Seq<char>,
    t2: Seq<char>,
    seen: Seq<(Seq<char>, ())>,
)
    ensures
        match (run_queries(qs, fetched, chosen, t1, seen), run_queries(qs, fetched, chosen, t2, seen)) {
            (Some((_, s1)), Some((_, s2))) => s1 == s2,
            (None, None) => true,
            _ => false,
        },
    decreases qs.len(),
{
    if qs.len() > 0 {
        lemma_run_queries_text(qs.drop_last(), fetched, chosen, t1, t2, seen);
    }
}

/// Where the queries run, so do the first `k` of them.
proof fn lemma_run_queries_take(
    qs: Seq<QueryView>,
    fetched: Seq<Seq<Seq<IssueView>>>,
    chosen: Seq<Seq<Seq<IssueView>>>,
    text: Seq<char>,
    seen: Seq<(Seq<char>, ())>,
    k: int,
)
    requires
        0 <= k <= qs.len(),
        run_queries(qs, fetched, chosen, text, seen) is Some,
    ensures
        run_queries(qs.take(k), fetched, chosen, Seq::empty(), seen) is Some,
    decreases qs.len(),
{
    lemma_run_queries_text(qs.take(k), fetched, chosen, text, Seq::empty(), seen);
    if k == qs.len() {
        assert(qs.take(k) =~= qs);
    } else {
        assert(qs.drop_last().take(k) =~= qs.take(k));
        lemma_run_queries_take(qs.drop_last(), fetched, chosen, text, seen, k);
        lemma_run_queries_text(qs.take(k), fetched, chosen, Seq::empty(), text, seen);
    }
}

/// Running one more query adds its section's urls to those seen, and keeps the others.
proof fn lemma_seen_step(
    qs: Seq<QueryView>,
    fetched: Seq<Seq<Seq<IssueView>>>,
    chosen: Seq<Seq<Seq<IssueView>>>,
    seen: Seq<(Seq<char>, ())>,
    k: int,
)
    requires
        0 <= k < qs.len(),
        run_queries(qs.take(k + 1), fetched, chosen, Seq::empty(), seen) is Some,
    ensures
        run_queries(qs.take(k), fetched, chosen, Seq::empty(), seen) is Some,
        run_groups(qs[k], fetched[k], chosen[k], seen_after(qs, fetched, chosen, seen, k)) is Some,
        seen_after(qs, fetched, chosen, seen, k + 1)
            == run_groups(qs[k], fetched[k], chosen[k], seen_after(qs, fetched, chosen, seen, k))->0.seen,
{
    let t = qs.take(k + 1);
    assert(t.drop_last() =~= qs.take(k));
    assert(t.last() == qs[k]);
}

/// The urls seen only grow from one query to the next.
proof fn lemma_seen_grows(
    qs: Seq<QueryView>,
    fetched: Seq<Seq<Seq<IssueView>>>,
    chosen: Seq<Seq<Seq<IssueView>>>,
    seen: Seq<(Seq<char>, ())>,
    k: int,
    m: int,
    u: Seq<char>,
)
    requires
        0 <= k <= m <= qs.len(),
        run_queries(qs.take(m), fetched, chosen, Seq::empty(), seen) is Some,
        in_set(seen_after(qs, fetched, chosen, seen, k), u),
    ensures
        in_set(seen_after(qs, fetched, chosen, seen, m), u),
    decreases m - k,
{
    if k < m {
        lemma_seen_step(qs, fetched, chosen, seen, m - 1);
        lemma_seen_grows(qs, fetched, chosen, seen, k, m - 1, u);
        law_section_shows_once(qs[m - 1], fetched[m - 1], chosen[m - 1], seen_after(qs, fetched, chosen, seen, m - 1));
    }
}

/// An agenda shows each issue once: where a list of queries runs, no url shown by
/// one section is shown again, neither in that section nor in a later one.
pub proof fn law_agenda_shows_once(
    qs: Seq<QueryView>,
    fetched: Seq<Seq<Seq<IssueView>>>,
    chosen: Seq<Seq<Seq<IssueView>>>,
    text: Seq<char>,
    seen: Seq<(Seq<char>, ())>,
    i: int,
    j: int,
    x: int,
    y: int,
)
    requires
        run_queries(qs, fetched, chosen, text, seen) is Some,
        0 <= i <= j < qs.len(),
        0 <= x < section_issues(qs, fetched, chosen, seen, i).len(),
        0 <= y < section_issues(qs, fetched, chosen, seen, j).len(),
        i < j || x < y,
    ensures
        section_issues(qs, fetched, chosen, seen, i)[x].html_url != section_issues(qs, fetched, chosen, seen, j)[y].html_url,
{
    lemma_run_queries_take(qs, fetched, chosen, text, seen, j + 1);
    lemma_seen_step(qs, fetched, chosen, seen, j);
    let sj = seen_after(qs, fetched, chosen, seen, j);
    law_section_shows_once(qs[j], fetched[j], chosen[j], sj);
    if i < j {
        lemma_run_queries_take(qs, fetched, chosen, text, seen, i + 1);
        lemma_seen_step(qs, fetched, chosen, seen, i);
        let si = seen_after(qs, fetched, chosen, seen, i);
        law_section_shows_once(qs[i], fetched[i], chosen[i], si);
        let u = section_issues(qs, fetched, chosen, seen, i)[x].html_url;
        assert(in_set(seen_after(qs, fetched, chosen, seen, i + 1), u));
        lemma_seen_grows(qs, fetched, chosen, seen, i + 1, j, u);
        assert(!in_set(sj, section_issues(qs, fetched, chosen, seen, j)[y].html_url));
    }
}

/// The Regressions section of the libs agenda shows no issue labelled `P-low`, nor
/// one labelled `I-libs-nominated` (those are shown among the nominated items).
pub proof fn law_regressions_skip_low_priority(
    fetched: Seq<Seq<Seq<IssueView>>>,
    chosen: Seq<Seq<Seq<IssueView>>>,
    seen: Seq<(Seq<char>, ())>,
    x: int,
)
    requires
        0 <= x < section_issues(libs_triage_queries(), fetched, chosen, seen, 6).len(),
    ensures
        libs_triage_queries()[6].name == "Regressions"@,
        !section_issues(libs_triage_queries(), fetched, chosen, seen, 6)[x].labels.contains("P-low"@),
        !section_issues(libs_triage_queries(), fetched, chosen, seen, 6)[x].labels.contains("I-libs-nominated"@),
{
    let qs = libs_triage_queries();
    let q = qs[6];
    assert(q == regressions_query());
    let sk = seen_after(qs, fetched, chosen, seen, 6);
    let issue = section_issues(qs, fetched, chosen, seen, 6)[x];
    if run_groups(q, fetched[6], chosen[6], sk) is Some {
        law_section_keeps(q, fetched[6], chosen[6], sk);
        assert(issue == run_groups(q, fetched[6], chosen[6], sk)->0.issues[x]);
        let low = q.excluded_labels[1];
        let nominated = q.excluded_labels[0];
        assert(low == seq!["P-low"@]);
        assert(nominated == seq!["I-libs-nominated"@]);
        assert(!carries_all(issue.labels, low));
        assert(!carries_all(issue.labels, nominated));
        if issue.labels.contains("P-low"@) {
            assert(low[0] == "P-low"@);
            assert(carries_all(issue.labels, low));
        }
        if issue.labels.contains("I-libs-nominated"@) {
            assert(nominated[0] == "I-libs-nominated"@);
            assert(carries_all(issue.labels, nominated));
        }
    }
}

} // verus!
