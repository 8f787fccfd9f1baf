//! Queries for issues: the GitHub API endpoints they ask, and how the issues that
//! come back are written to an agenda.

use vstd::prelude::*;

use crate::issues::{
    contains_str, dedup_issues, in_set, issue_entries, issue_views, law_dedup_once, reverse_vec, Generator,
    Issue, IssueView,
};
use crate::text::{chars_of, join, join_strings, push_chars, push_str, string_of, string_views};

verus! {

/// `b` holds the items of `a` in some order.
pub open spec fn permutes<T>(a: Seq<T>, b: Seq<T>) -> bool {
    &&& a.len() == b.len()
    &&& exists|p: Seq<int>| is_index_permutation(p, a.len() as int) && forall|i: int| 0 <= i < b.len() ==> #[trigger] b[i] == a[p[i]]
}

/// `p` lists each index below `n` exactly once.
pub open spec fn is_index_permutation(p: Seq<int>, n: int) -> bool {
    &&& p.len() == n
    &&& forall|i: int| 0 <= i < n ==> 0 <= #[trigger] p[i] < n
    &&& forall|i: int, j: int| 0 <= i < n && 0 <= j < n && i != j ==> #[trigger] p[i] != #[trigger] p[j]
}

/// The random number generator of the current thread (`rand::rngs::ThreadRng`).
#[verifier::external_type_specification]
#[verifier::external_body]
pub struct ExThreadRng(rand::rngs::ThreadRng);

/// `rand::thread_rng`: the generator of the current thread; nothing is promised of
/// what it will produce.
#[verifier::external_body]
fn thread_rng() -> rand::rngs::ThreadRng {
    rand::thread_rng()
}

/// `rand::seq::SliceRandom::shuffle`: puts the items in a random order. Its
/// documentation promises only that the items are shuffled in place, so the
/// contract says that the result holds the same items, and nothing of their order.
#[verifier::external_body]
fn shuffle_with<T>(v: &mut Vec<T>, rng: &mut rand::rngs::ThreadRng)
    ensures
        permutes(old(v)@, final(v)@),
{
    rand::seq::SliceRandom::shuffle(v.as_mut_slice(), rng);
}

/// The order in which GitHub lists issues.
#[derive(PartialEq, Eq, Structural, Clone, Copy, Debug)]
pub enum Sort {
    Newest,
    Oldest,
    MostCommented,
    LeastCommented,
    MostRecentlyUpdated,
    LeastRecentlyUpdated,
}

/// The parameters that ask the API for an order.
pub open spec fn sort_api(s: Sort) -> Seq<char> {
    match s {
        Sort::Newest => "&sort=created&direction=desc"@,
        Sort::Oldest => "&sort=created&direction=asc"@,
        Sort::MostCommented => "&sort=comments&direction=asc"@,
        Sort::LeastCommented => "&sort=comments&direction=desc"@,
        Sort::MostRecentlyUpdated => "&sort=updated&direction=desc"@,
        Sort::LeastRecentlyUpdated => "&sort=updated&direction=asc"@,
    }
}

/// The search terms that ask the web interface for an order.
pub open spec fn sort_web(s: Sort) -> Seq<char> {
    match s {
        Sort::Newest => "+sort:created-desc"@,
        Sort::Oldest => "+sort:created-asc"@,
        Sort::MostCommented => "+sort:comments-desc"@,
        Sort::LeastCommented => "+sort:comments-asc"@,
        Sort::MostRecentlyUpdated => "+sort:updated-desc"@,
        Sort::LeastRecentlyUpdated => "+sort:updated-asc"@,
    }
}

impl Sort {
    /// The parameters that ask the API for this order.
    pub fn api_str(&self) -> (res: &'static str)
        ensures
            res@ == sort_api(*self),
    {
        match self {
            Sort::Newest => "&sort=created&direction=desc",
            Sort::Oldest => "&sort=created&direction=asc",
            Sort::MostCommented => "&sort=comments&direction=asc",
            Sort::LeastCommented => "&sort=comments&direction=desc",
            Sort::MostRecentlyUpdated => "&sort=updated&direction=desc",
            Sort::LeastRecentlyUpdated => "&sort=updated&direction=asc",
        }
    }

    /// The search terms that ask the web interface for this order.
    pub fn web_ui_str(&self) -> (res: &'static str)
        ensures
            res@ == sort_web(*self),
    {
        match self {
            Sort::Newest => "+sort:created-desc",
            Sort::Oldest => "+sort:created-asc",
            Sort::MostCommented => "+sort:comments-desc",
            Sort::LeastCommented => "+sort:comments-asc",
            Sort::MostRecentlyUpdated => "+sort:updated-desc",
            Sort::LeastRecentlyUpdated => "+sort:updated-asc",
        }
    }
}

/// Which issues a query asks for, by whether they are open.
#[derive(PartialEq, Eq, Structural, Clone, Copy, Debug)]
pub enum State {
    Open,
    Closed,
    Any,
}

/// The parameter that asks the API for a state.
pub open spec fn state_api(s: State) -> Seq<char> {
    match s {
        State::Open => "&state=open"@,
        State::Closed => "&state=closed"@,
        State::Any => "&state=all"@,
    }
}

/// The search term that asks the web interface for a state.
pub open spec fn state_web(s: State) -> Seq<char> {
    match s {
        State::Open => "+is:open"@,
        State::Closed => "+is:closed"@,
        State::Any => ""@,
    }
}

impl State {
    /// The parameter that asks the API for this state.
    pub fn api_str(&self) -> (res: &'static str)
        ensures
            res@ == state_api(*self),
    {
        match self {
            State::Open => "&state=open",
            State::Closed => "&state=closed",
            State::Any => "&state=all",
        }
    }

    /// The search term that asks the web interface for this state.
    pub fn web_ui_str(&self) -> (res: &'static str)
        ensures
            res@ == state_web(*self),
    {
        match self {
            State::Open => "+is:open",
            State::Closed => "+is:closed",
            State::Any => "",
        }
    }
}

/// A query for one section of an agenda.
pub struct GithubQuery {
    pub name: String,
    pub labels: Vec<Vec<String>>,
    pub excluded_labels: Vec<Vec<String>>,
    pub repos: Vec<String>,
    pub sort: Option<Sort>,
    pub count: Option<usize>,
    pub to_skip: Vec<String>,
    pub shuffle: bool,
    pub rev: bool,
    pub state: State,
}

/// What a query asks for, as text.
pub struct QueryView {
    pub name: Seq<char>,
    pub labels: Seq<Seq<Seq<char>>>,
    pub excluded_labels: Seq<Seq<Seq<char>>>,
    pub repos: Seq<Seq<char>>,
    pub sort: Option<Sort>,
    pub count: Option<usize>,
    pub to_skip: Seq<Seq<char>>,
    pub shuffle: bool,
    pub rev: bool,
    pub state: State,
}

/// The views of groups of labels.
pub open spec fn label_groups(v: Seq<Vec<String>>) -> Seq<Seq<Seq<char>>> {
    v.map_values(|g: Vec<String>| string_views(g@))
}

impl View for GithubQuery {
    type V = QueryView;

    open spec fn view(&self) -> QueryView {
        QueryView {
            name: self.name@,
            labels: label_groups(self.labels@),
            excluded_labels: label_groups(self.excluded_labels@),
            repos: string_views(self.repos@),
            sort: self.sort,
            count: self.count,
            to_skip: string_views(self.to_skip@),
            shuffle: self.shuffle,
            rev: self.rev,
            state: self.state,
        }
    }
}

/// The API endpoint that lists the issues of `repo` that carry all of `labels`.
pub open spec fn endpoint(q: QueryView, repo: Seq<char>, labels: Seq<Seq<char>>) -> Seq<char> {
    "repos/"@ + repo + "/issues?labels="@ + join(labels, ","@) + state_api(q.state) + match q.sort {
        Some(s) => sort_api(s),
        None => Seq::empty(),
    }
}

/// The endpoints for the first `m` repositories, each with every group of labels.
pub open spec fn endpoints_upto(q: QueryView, m: int) -> Seq<Seq<char>>
    decreases m,
{
    if m <= 0 {
        Seq::empty()
    } else {
        endpoints_upto(q, m - 1) + Seq::new(q.labels.len(), |l: int| endpoint(q, q.repos[m - 1], q.labels[l]))
    }
}

/// The endpoints that a query asks, in the order it asks them.
pub open spec fn query_endpoints(q: QueryView) -> Seq<Seq<char>> {
    endpoints_upto(q, q.repos.len() as int)
}

/// An issue carries every label of `group`.
pub open spec fn carries_all(labels: Seq<Seq<char>>, group: Seq<Seq<char>>) -> bool {
    forall|m: int| 0 <= m < group.len() ==> labels.contains(#[trigger] group[m])
}

/// An issue carries every label of one of the excluded groups.
pub open spec fn excluded_by(groups: Seq<Seq<Seq<char>>>, labels: Seq<Seq<char>>) -> bool {
    exists|g: int| 0 <= g < groups.len() && carries_all(labels, #[trigger] groups[g])
}

/// The query keeps an issue: it is not excluded by its labels nor skipped by its url.
pub open spec fn keeps(q: QueryView, i: IssueView) -> bool {
    !excluded_by(q.excluded_labels, i.labels) && !q.to_skip.contains(i.html_url)
}

/// The issues that the query keeps, in order.
pub open spec fn kept_issues(q: QueryView, s: Seq<IssueView>) -> Seq<IssueView>
    decreases s.len(),
{
    if s.len() == 0 {
        Seq::empty()
    } else if keeps(q, s.last()) {
        kept_issues(q, s.drop_last()).push(s.last())
    } else {
        kept_issues(q, s.drop_last())
    }
}

/// The issues of one group as the query writes them: at most `count` of them, last
/// first where the query says so.
pub open spec fn arranged(q: QueryView, s: Seq<IssueView>) -> Seq<IssueView> {
    let t = match q.count {
        Some(c) => if c < s.len() { s.take(c as int) } else { s },
        None => s,
    };
    if q.rev { t.reverse() } else { t }
}

/// `chosen` is an order the query may give to the issues `kept` of a group: any
/// order when it shuffles, theirs when it does not.
pub open spec fn may_order(q: QueryView, kept: Seq<IssueView>, chosen: Seq<IssueView>) -> bool {
    if q.shuffle { permutes(kept, chosen) } else { chosen == kept }
}

/// The state of a query that has written some groups.
pub struct RunView {
    pub text: Seq<char>,
    pub seen: Seq<(Seq<char>, ())>,
    pub issues: Seq<IssueView>,
    pub written: bool,
}

/// What a query writes for one more fetched group of issues, put in the order
/// `chosen` gives it, after the state `r`; `None` where `chosen` is not an order
/// the query may give.
pub open spec fn group_step(q: QueryView, r: RunView, group: Seq<IssueView>, chosen: Seq<IssueView>) -> Option<RunView> {
    let (fresh, seen2) = dedup_issues(r.seen, group);
    let kept = kept_issues(q, fresh);
    if kept.len() == 0 {
        if chosen.len() == 0 {
            Some(RunView { seen: seen2, ..r })
        } else {
            None
        }
    } else if !may_order(q, kept, chosen) {
        None
    } else {
        let a = arranged(q, chosen);
        Some(RunView {
            text: r.text + (if r.written { Seq::empty() } else { "### "@ + q.name + "\n\n"@ }) + issue_entries(a),
            seen: seen2,
            issues: r.issues + a,
            written: true,
        })
    }
}

/// What a query writes for the fetched groups of issues, each put in the order
/// `chosen` gives it; `None` where `chosen` is not an order the query may give.
pub open spec fn run_groups(
    q: QueryView,
    fetched: Seq<Seq<IssueView>>,
    chosen: Seq<Seq<IssueView>>,
    seen: Seq<(Seq<char>, ())>,
) -> Option<RunView>
    decreases fetched.len(),
{
    if fetched.len() == 0 {
        if chosen.len() == 0 {
            Some(RunView { text: Seq::empty(), seen, issues: Seq::empty(), written: false })
        } else {
            None
        }
    } else if chosen.len() == 0 {
        None
    } else {
        match run_groups(q, fetched.drop_last(), chosen.drop_last(), seen) {
            None => None,
            Some(r) => group_step(q, r, fetched.last(), chosen.last()),
        }
    }
}

/// The views of a list of lists of issues.
pub open spec fn issue_lists(v: Seq<Vec<Issue>>) -> Seq<Seq<IssueView>> {
    v.map_values(|l: Vec<Issue>| issue_views(l@))
}

/// What a query writes after it has written all its groups.
pub open spec fn query_text(r: RunView) -> Seq<char> {
    r.text + if r.written { "\n"@ } else { Seq::empty() }
}

fn strings_of(items: &[&str]) -> (res: Vec<String>)
    ensures
        string_views(res@) == items@.map_values(|s: &str| s@),
{
    let mut res: Vec<String> = Vec::new();
    let mut i: usize = 0;
    while i < items.len()
        invariant
            i <= items.len(),
            string_views(res@) == items@.map_values(|s: &str| s@).take(i as int),
        decreases items.len() - i,
    {
        let s = items[i].to_owned();
        let ghost before = res@;
        res.push(s);
        assert(string_views(res@) =~= string_views(before).push(s@));
        i = i + 1;
        assert(items@.map_values(|s: &str| s@).take(i as int) =~= items@.map_values(|s: &str| s@).take(i - 1).push(items@[i - 1]@));
    }
    assert(items@.map_values(|s: &str| s@).take(items.len() as int) =~= items@.map_values(|s: &str| s@));
    res
}

impl GithubQuery {
    /// A query for the section `name`: open issues, in GitHub's order, all of them.
    pub fn new(name: &str) -> (res: Self)
        ensures
            res@ == (QueryView {
                name: name@,
                labels: Seq::empty(),
                excluded_labels: Seq::empty(),
                repos: Seq::empty(),
                sort: None,
                count: None,
                to_skip: Seq::empty(),
                shuffle: false,
                rev: false,
                state: State::Open,
            }),
    {
        let res = GithubQuery {
            name: name.to_owned(),
            labels: Vec::new(),
            excluded_labels: Vec::new(),
            repos: Vec::new(),
            sort: None,
            to_skip: Vec::new(),
            count: None,
            shuffle: false,
            rev: false,
            state: State::Open,
        };
        assert(res@.labels =~= Seq::<Seq<Seq<char>>>::empty());
        assert(res@.excluded_labels =~= Seq::<Seq<Seq<char>>>::empty());
        assert(res@.repos =~= Seq::<Seq<char>>::empty());
        assert(res@.to_skip =~= Seq::<Seq<char>>::empty());
        res
    }

    /// Also asks for the issues that carry all of `labels`.
    pub fn labels(&mut self, labels: &[&str]) -> (res: &mut Self)
        ensures
            *final(self) == *final(res),
            res@ == (QueryView { labels: old(self)@.labels.push(labels@.map_values(|s: &str| s@)), ..old(self)@ }),
    {
        let group = strings_of(labels);
        let ghost before = self.labels@;
        self.labels.push(group);
        assert(label_groups(self.labels@) =~= label_groups(before).push(labels@.map_values(|s: &str| s@)));
        self
    }

    /// Also leaves out the issues that carry all of `labels`.
    pub fn exclude_labels(&mut self, labels: &[&str]) -> (res: &mut Self)
        ensures
            *final(self) == *final(res),
            res@ == (QueryView { excluded_labels: old(self)@.excluded_labels.push(labels@.map_values(|s: &str| s@)), ..old(self)@ }),
    {
        let group = strings_of(labels);
        let ghost before = self.excluded_labels@;
        self.excluded_labels.push(group);
        assert(label_groups(self.excluded_labels@) =~= label_groups(before).push(labels@.map_values(|s: &str| s@)));
        self
    }

    /// Also asks the repository `repo`.
    pub fn repo(&mut self, repo: &str) -> (res: &mut Self)
        ensures
            *final(self) == *final(res),
            res@ == (QueryView { repos: old(self)@.repos.push(repo@), ..old(self)@ }),
    {
        let ghost before = self.repos@;
        self.repos.push(repo.to_owned());
        assert(string_views(self.repos@) =~= string_views(before).push(repo@));
        self
    }

    /// Asks for the issues in the order `sort`.
    pub fn sort(&mut self, sort: Sort) -> (res: &mut Self)
        ensures
            *final(self) == *final(res),
            res@ == (QueryView { sort: Some(sort), ..old(self)@ }),
    {
        self.sort = Some(sort);
        self
    }

    /// Puts the issues of each group in a random order, or not.
    pub fn shuffle(&mut self, shuffle: bool) -> (res: &mut Self)
        ensures
            *final(self) == *final(res),
            res@ == (QueryView { shuffle, ..old(self)@ }),
    {
        self.shuffle = shuffle;
        self
    }

    /// Leaves out the issues with these urls.
    pub fn skip(&mut self, to_skip: &Vec<Issue>) -> (res: &mut Self)
        ensures
            *final(self) == *final(res),
            res@ == (QueryView { to_skip: issue_views(to_skip@).map_values(|i: IssueView| i.html_url), ..old(self)@ }),
    {
        let mut urls: Vec<String> = Vec::new();
        let mut i: usize = 0;
        while i < to_skip.len()
            invariant
                i <= to_skip.len(),
                string_views(urls@) == issue_views(to_skip@).map_values(|i: IssueView| i.html_url).take(i as int),
            decreases to_skip.len() - i,
        {
            let u = to_skip[i].html_url.clone();
            let ghost before = urls@;
            urls.push(u);
            assert(string_views(urls@) =~= string_views(before).push(u@));
            i = i + 1;
            assert(issue_views(to_skip@).map_values(|i: IssueView| i.html_url).take(i as int) =~= issue_views(to_skip@).map_values(|i: IssueView| i.html_url).take(i - 1).push(to_skip@[i - 1].html_url@));
        }
        assert(issue_views(to_skip@).map_values(|i: IssueView| i.html_url).take(to_skip.len() as int) =~= issue_views(to_skip@).map_values(|i: IssueView| i.html_url));
        self.to_skip = urls;
        self
    }

    /// Writes at most `count` issues of each group.
    pub fn take(&mut self, count: usize) -> (res: &mut Self)
        ensures
            *final(self) == *final(res),
            res@ == (QueryView { count: Some(count), ..old(self)@ }),
    {
        self.count = Some(count);
        self
    }

    /// Writes the issues of each group in the opposite order, or not.
    pub fn rev(&mut self, rev: bool) -> (res: &mut Self)
        ensures
            *final(self) == *final(res),
            res@ == (QueryView { rev, ..old(self)@ }),
    {
        self.rev = rev;
        self
    }

    /// Asks for the issues in the state `state`.
    pub fn state(&mut self, state: State) -> (res: &mut Self)
        ensures
            *final(self) == *final(res),
            res@ == (QueryView { state, ..old(self)@ }),
    {
        self.state = state;
        self
    }

    /// The API endpoints that the query asks: for each repository, one for each group
    /// of labels.
    pub fn endpoints(&self) -> (res: Vec<String>)
        ensures
            string_views(res@) == query_endpoints(self@),
    {
        let ghost q = self@;
        let mut res: Vec<String> = Vec::new();
        let mut r: usize = 0;
        while r < self.repos.len()
            invariant
                r <= self.repos.len(),
                q == self@,
                string_views(res@) == endpoints_upto(q, r as int),
            decreases self.repos.len() - r,
        {
            let ghost before = string_views(res@);
            let mut l: usize = 0;
            while l < self.labels.len()
                invariant
                    r < self.repos.len(),
                    l <= self.labels.len(),
                    q == self@,
                    string_views(res@) == before + Seq::new(l as nat, |j: int| endpoint(q, q.repos[r as int], q.labels[j])),
                decreases self.labels.len() - l,
            {
                let mut e: Vec<char> = Vec::new();
                push_str(&mut e, "repos/");
                push_str(&mut e, self.repos[r].as_str());
                push_str(&mut e, "/issues?labels=");
                let joined = join_strings(&self.labels[l], ",");
                push_chars(&mut e, &joined);
                push_str(&mut e, self.state.api_str());
                match self.sort {
                    Some(s) => push_str(&mut e, s.api_str()),
                    None => {},
                }
                assert(e@ =~= endpoint(q, q.repos[r as int], q.labels[l as int]));
                let es = string_of(&e);
                let ghost prev = res@;
                res.push(es);
                assert(string_views(res@) =~= string_views(prev).push(es@));
                l = l + 1;
                assert(string_views(res@) =~= before + Seq::new(l as nat, |j: int| endpoint(q, q.repos[r as int], q.labels[j])));
            }
            r = r + 1;
            assert(endpoints_upto(q, r as int) == endpoints_upto(q, r - 1) + Seq::new(q.labels.len(), |j: int| endpoint(q, q.repos[r - 1], q.labels[j])));
        }
        res
    }
}

/// Whether the query keeps `issue`.
fn keeps_issue(q: &GithubQuery, issue: &Issue) -> (res: bool)
    ensures
        res == keeps(q@, issue@),
{
    let ghost qv = q@;
    let mut g: usize = 0;
    while g < q.excluded_labels.len()
        invariant
            g <= q.excluded_labels.len(),
            qv == q@,
            forall|h: int| 0 <= h < g ==> !carries_all(issue@.labels, #[trigger] qv.excluded_labels[h]),
        decreases q.excluded_labels.len() - g,
    {
        let group = &q.excluded_labels[g];
        let mut all = true;
        let mut m: usize = 0;
        while m < group.len()
            invariant
                m <= group.len(),
                qv == q@,
                g < q.excluded_labels.len(),
                *group == q.excluded_labels@[g as int],
                all == (forall|n: int| 0 <= n < m ==> issue@.labels.contains(#[trigger] qv.excluded_labels[g as int][n])),
            decreases group.len() - m,
        {
            assert(qv.excluded_labels[g as int][m as int] == group@[m as int]@);
            if !contains_str(&issue.labels, group[m].as_str()) {
                all = false;
            }
            m = m + 1;
            assert(all == (forall|n: int| 0 <= n < m ==> issue@.labels.contains(#[trigger] qv.excluded_labels[g as int][n])));
        }
        if all {
            assert(carries_all(issue@.labels, qv.excluded_labels[g as int]));
            return false;
        }
        g = g + 1;
    }
    if contains_str(&q.to_skip, issue.html_url.as_str()) {
        return false;
    }
    true
}

/// The query, given the fetched groups in `fetched` and the orders `chosen`, turns
/// a generator whose agenda was `before` and whose seen urls were `seen` into one
/// whose agenda is `after` and whose seen urls are `seen_after`, and returns `issues`.
pub open spec fn query_outcome(
    q: QueryView,
    fetched: Seq<Seq<IssueView>>,
    chosen: Seq<Seq<IssueView>>,
    seen: Seq<(Seq<char>, ())>,
    before: Seq<char>,
    after: Seq<char>,
    seen_after: Seq<(Seq<char>, ())>,
    issues: Seq<IssueView>,
) -> bool {
    match run_groups(q, fetched, chosen, seen) {
        Some(r) => after == before + query_text(r) && seen_after == r.seen && issues == r.issues,
        None => false,
    }
}

/// A permutation of values is a permutation of their views.
proof fn lemma_permutes_views(a: Seq<Issue>, b: Seq<Issue>)
    requires
        permutes(a, b),
    ensures
        permutes(issue_views(a), issue_views(b)),
{
    let p = choose|p: Seq<int>| is_index_permutation(p, a.len() as int) && forall|i: int| 0 <= i < b.len() ==> #[trigger] b[i] == a[p[i]];
    assert forall|i: int| 0 <= i < issue_views(b).len() implies #[trigger] issue_views(b)[i] == issue_views(a)[p[i]] by {
        assert(b[i] == a[p[i]]);
    }
    assert(is_index_permutation(p, issue_views(a).len() as int));
}

/// The issues of `v` that the query keeps, in order.
fn kept_by(q: &GithubQuery, v: Vec<Issue>) -> (res: Vec<Issue>)
    ensures
        issue_views(res@) == kept_issues(q@, issue_views(v@)),
{
    let ghost orig = v@;
    let n = v.len();
    let mut rev = reverse_vec(v);
    let mut res: Vec<Issue> = Vec::new();
    let mut i: usize = 0;
    while i < n
        invariant
            i <= n,
            n == orig.len(),
            rev@ == orig.skip(i as int).reverse(),
            issue_views(res@) == kept_issues(q@, issue_views(orig.take(i as int))),
        decreases n - i,
    {
        assert(rev@.len() == n - i);
        let x = rev.pop().unwrap();
        assert(x == orig[i as int]);
        assert(rev@ =~= orig.skip(i + 1).reverse());
        assert(issue_views(orig.take(i + 1)).drop_last() =~= issue_views(orig.take(i as int)));
        assert(issue_views(orig.take(i + 1)).last() == x@);
        if keeps_issue(q, &x) {
            let ghost before = res@;
            res.push(x);
            assert(issue_views(res@) =~= issue_views(before).push(x@));
        }
        i = i + 1;
    }
    assert(orig.take(n as int) =~= orig);
    res
}

impl GithubQuery {
    /// Writes the section of this query: `fetched` holds what the API answered at each
    /// endpoint of the query, in order. The issues of each group are deduplicated,
    /// filtered, put in order, cut to `count` and written; the section title goes
    /// before the first group that has an issue left. Returns the issues written.
    /// Writes one fetched group of issues after the state `r`: the issues the
    /// generator has not seen, kept by the query, put in order and cut to
    /// `count`, with the section title where none was written yet. Returns the
    /// issues written, whether the title has been written, and the order chosen.
    fn write_group(
        &self,
        generator: &mut Generator,
        list: Vec<Issue>,
        written_category: bool,
        Ghost(r): Ghost<RunView>,
        Ghost(agenda0): Ghost<Seq<char>>,
    ) -> (res: (Vec<Issue>, bool, Ghost<Seq<IssueView>>))
        requires
            old(generator).agenda_view() == agenda0 + r.text,
            old(generator).seen_view() == r.seen,
            written_category == r.written,
        ensures
            group_step(self@, r, issue_views(list@), res.2@) matches Some(r2) && {
                &&& final(generator).agenda_view() == agenda0 + r2.text
                &&& final(generator).seen_view() == r2.seen
                &&& r2.issues == r.issues + issue_views(res.0@)
                &&& r2.written == res.1
            },
    {
        let ghost q = self@;
        let fresh = generator.dedup(list);
        let mut kept = kept_by(self, fresh);
        if kept.len() == 0 {
            assert(r.issues + issue_views(kept@) =~= r.issues);
            return (kept, written_category, Ghost(Seq::empty()));
        }
        let ghost kept0 = kept@;
        if self.shuffle {
            let mut rng = thread_rng();
            shuffle_with(&mut kept, &mut rng);
            proof {
                lemma_permutes_views(kept0, kept@);
            }
        }
        let ghost ch = issue_views(kept@);
        match self.count {
            Some(c) => {
                kept.truncate(c);
            },
            None => {},
        }
        if self.rev {
            kept = reverse_vec(kept);
        }
        proof {
            let a = arranged(q, ch);
            assert(issue_views(kept@) =~= a);
        }
        if !written_category {
            generator.write_str("### ");
            let name = chars_of(self.name.as_str());
            generator.write_chars(&name);
            generator.write_str("\n\n");
        }
        generator.write_issues(&kept);
        proof {
            let a = arranged(q, ch);
            if !written_category {
                assert(generator.agenda_view() =~= agenda0 + (r.text + ("### "@ + q.name + "\n\n"@) + issue_entries(a)));
            } else {
                assert(generator.agenda_view() =~= agenda0 + (r.text + Seq::<char>::empty() + issue_entries(a)));
            }
        }
        (kept, true, Ghost(ch))
    }

    pub fn write(&self, generator: &mut Generator, fetched: Vec<Vec<Issue>>) -> (res: Vec<Issue>)
        requires
            fetched@.len() == self@.repos.len() * self@.labels.len(),
        ensures
            exists|chosen: Seq<Seq<IssueView>>| #[trigger] query_outcome(
                self@,
                issue_lists(fetched@),
                chosen,
                old(generator).seen_view(),
                old(generator).agenda_view(),
                final(generator).agenda_view(),
                final(generator).seen_view(),
                issue_views(res@),
            ),
    {
        let ghost q = self@;
        let ghost orig = fetched@;
        let ghost fv = issue_lists(orig);
        let ghost seen0 = generator.seen_view();
        let ghost agenda0 = generator.agenda_view();
        let n = fetched.len();
        let mut rev = reverse_vec(fetched);
        let mut all_issues: Vec<Issue> = Vec::new();
        let mut written_category = false;
        let ghost mut chosen: Seq<Seq<IssueView>> = Seq::empty();
        let mut i: usize = 0;
        while i < n
            invariant
                i <= n,
                n == orig.len(),
                q == self@,
                fv == issue_lists(orig),
                rev@ == orig.skip(i as int).reverse(),
                chosen.len() == i,
                run_groups(q, fv.take(i as int), chosen, seen0) matches Some(r) && {
                    &&& generator.agenda_view() == agenda0 + r.text
                    &&& generator.seen_view() == r.seen
                    &&& issue_views(all_issues@) == r.issues
                    &&& written_category == r.written
                },
            decreases n - i,
        {
            assert(rev@.len() == n - i);
            let list = rev.pop().unwrap();
            assert(list == orig[i as int]);
            assert(rev@ =~= orig.skip(i + 1).reverse());
            assert(fv.take(i + 1).drop_last() =~= fv.take(i as int));
            assert(fv.take(i + 1).last() == issue_views(list@));
            let ghost r = run_groups(q, fv.take(i as int), chosen, seen0)->0;
            let (mut kept, written, Ghost(ch)) = self.write_group(generator, list, written_category, Ghost(r), Ghost(agenda0));
            written_category = written;
            let ghost before_all = all_issues@;
            let ghost kv = kept@;
            all_issues.append(&mut kept);
            assert(issue_views(all_issues@) =~= issue_views(before_all) + issue_views(kv));
            proof {
                let prev = chosen;
                chosen = chosen.push(ch);
                assert(chosen.drop_last() =~= prev);
            }
            i = i + 1;
        }
        assert(fv.take(n as int) =~= fv);
        let ghost r = run_groups(q, fv, chosen, seen0)->0;
        assert(run_groups(q, fv, chosen, seen0) is Some);
        if written_category {
            generator.write_str("\n");
        }
        assert(generator.agenda_view() =~= agenda0 + query_text(r));
        assert(query_outcome(q, fv, chosen, seen0, agenda0, generator.agenda_view(), generator.seen_view(), issue_views(all_issues@)));
        all_issues
    }
}

/// A query that does not shuffle writes one thing: whatever orders are chosen for
/// the fetched groups, where the query may give them, the text, the issues and the
/// urls seen afterwards are the same.
pub proof fn law_unshuffled_deterministic(
    q: QueryView,
    fetched: Seq<Seq<IssueView>>,
    chosen1: Seq<Seq<IssueView>>,
    chosen2: Seq<Seq<IssueView>>,
    seen: Seq<(Seq<char>, ())>,
)
    requires
        !q.shuffle,
        run_groups(q, fetched, chosen1, seen) is Some,
        run_groups(q, fetched, chosen2, seen) is Some,
    ensures
        run_groups(q, fetched, chosen1, seen) == run_groups(q, fetched, chosen2, seen),
        chosen1 == chosen2,
    decreases fetched.len(),
{
    if fetched.len() > 0 {
        law_unshuffled_deterministic(q, fetched.drop_last(), chosen1.drop_last(), chosen2.drop_last(), seen);
        let r = run_groups(q, fetched.drop_last(), chosen1.drop_last(), seen)->0;
        let kept = kept_issues(q, dedup_issues(r.seen, fetched.last()).0);
        if kept.len() == 0 {
            assert(chosen1.last() =~= chosen2.last());
        } else {
            assert(chosen1.last() == kept);
            assert(chosen2.last() == kept);
        }
        assert(chosen1 =~= chosen1.drop_last().push(chosen1.last()));
        assert(chosen2 =~= chosen2.drop_last().push(chosen2.last()));
    } else {
        assert(chosen1 =~= chosen2);
    }
}

/// The urls of `s` are distinct, none was in `before`, and all are in `after`.
pub open spec fn urls_fresh(s: Seq<IssueView>, before: Seq<(Seq<char>, ())>, after: Seq<(Seq<char>, ())>) -> bool {
    &&& forall|i: int, j: int| 0 <= i < j < s.len() ==> #[trigger] s[i].html_url != #[trigger] s[j].html_url
    &&& forall|i: int| 0 <= i < s.len() ==> !in_set(before, #[trigger] s[i].html_url) && in_set(after, s[i].html_url)
}

proof fn lemma_kept_fresh(q: QueryView, s: Seq<IssueView>, before: Seq<(Seq<char>, ())>, after: Seq<(Seq<char>, ())>)
    requires
        urls_fresh(s, before, after),
    ensures
        urls_fresh(kept_issues(q, s), before, after),
        forall|i: int| 0 <= i < kept_issues(q, s).len() ==> exists|j: int| 0 <= j < s.len() && #[trigger] kept_issues(q, s)[i] == s[j],
    decreases s.len(),
{
    if s.len() > 0 {
        let init = s.drop_last();
        assert forall|i: int, j: int| 0 <= i < j < init.len() implies #[trigger] init[i].html_url != #[trigger] init[j].html_url by {
            assert(init[i] == s[i] && init[j] == s[j]);
        }
        assert forall|i: int| 0 <= i < init.len() implies !in_set(before, #[trigger] init[i].html_url) && in_set(after, init[i].html_url) by {
            assert(init[i] == s[i]);
        }
        lemma_kept_fresh(q, init, before, after);
        let k0 = kept_issues(q, init);
        let k = kept_issues(q, s);
        assert forall|i: int| 0 <= i < k0.len() implies exists|j: int| 0 <= j < s.len() && #[trigger] k0[i] == s[j] by {
            let j = choose|j: int| 0 <= j < init.len() && k0[i] == init[j];
            assert(k0[i] == s[j]);
        }
        if keeps(q, s.last()) {
            assert(k == k0.push(s.last()));
            assert forall|i: int| 0 <= i < k.len() implies exists|j: int| 0 <= j < s.len() && #[trigger] k[i] == s[j] by {
                if i < k0.len() {
                    assert(k[i] == k0[i]);
                } else {
                    assert(k[i] == s[s.len() - 1]);
                }
            }
            assert forall|i: int, j: int| 0 <= i < j < k.len() implies #[trigger] k[i].html_url != #[trigger] k[j].html_url by {
                assert(k[i] == k0[i]);
                if j < k0.len() {
                    assert(k[j] == k0[j]);
                } else {
                    let m = choose|m: int| 0 <= m < s.len() && k0[i] == s[m];
                    assert(k0[i] == init[m]) by {
                        let m2 = choose|m2: int| 0 <= m2 < init.len() && k0[i] == init[m2];
                        assert(init[m2] == s[m2]);
                        if m2 != m {
                            assert(s[m2].html_url != s[m].html_url || m2 == m);
                        }
                    }
                    let m2 = choose|m2: int| 0 <= m2 < init.len() && k0[i] == init[m2];
                    assert(init[m2] == s[m2]);
                    assert(m2 < s.len() - 1);
                    assert(s[m2].html_url != s[s.len() - 1].html_url);
                }
            }
            assert forall|i: int| 0 <= i < k.len() implies !in_set(before, #[trigger] k[i].html_url) && in_set(after, k[i].html_url) by {
                if i < k0.len() {
                    assert(k[i] == k0[i]);
                } else {
                    assert(k[i] == s[s.len() - 1]);
                }
            }
        }
    }
}

proof fn lemma_permuted_fresh(a: Seq<IssueView>, b: Seq<IssueView>, before: Seq<(Seq<char>, ())>, after: Seq<(Seq<char>, ())>)
    requires
        urls_fresh(a, before, after),
        permutes(a, b),
    ensures
        urls_fresh(b, before, after),
{
    let p = choose|p: Seq<int>| is_index_permutation(p, a.len() as int) && forall|i: int| 0 <= i < b.len() ==> #[trigger] b[i] == a[p[i]];
    assert forall|i: int, j: int| 0 <= i < j < b.len() implies #[trigger] b[i].html_url != #[trigger] b[j].html_url by {
        assert(b[i] == a[p[i]] && b[j] == a[p[j]]);
        assert(p[i] != p[j]);
        if p[i] < p[j] {
            assert(a[p[i]].html_url != a[p[j]].html_url);
        } else {
            assert(a[p[j]].html_url != a[p[i]].html_url);
        }
    }
    assert forall|i: int| 0 <= i < b.len() implies !in_set(before, #[trigger] b[i].html_url) && in_set(after, b[i].html_url) by {
        assert(b[i] == a[p[i]]);
    }
}

proof fn lemma_arranged_fresh(q: QueryView, c: Seq<IssueView>, before: Seq<(Seq<char>, ())>, after: Seq<(Seq<char>, ())>)
    requires
        urls_fresh(c, before, after),
    ensures
        urls_fresh(arranged(q, c), before, after),
{
    let t = match q.count {
        Some(n) => if n < c.len() { c.take(n as int) } else { c },
        None => c,
    };
    assert forall|i: int, j: int| 0 <= i < j < t.len() implies #[trigger] t[i].html_url != #[trigger] t[j].html_url by {
        assert(t[i] == c[i] && t[j] == c[j]);
    }
    assert forall|i: int| 0 <= i < t.len() implies !in_set(before, #[trigger] t[i].html_url) && in_set(after, t[i].html_url) by {
        assert(t[i] == c[i]);
    }
    if q.rev {
        let r = t.reverse();
        assert forall|i: int, j: int| 0 <= i < j < r.len() implies #[trigger] r[i].html_url != #[trigger] r[j].html_url by {
            assert(r[i] == t[t.len() - 1 - i] && r[j] == t[t.len() - 1 - j]);
        }
        assert forall|i: int| 0 <= i < r.len() implies !in_set(before, #[trigger] r[i].html_url) && in_set(after, r[i].html_url) by {
            assert(r[i] == t[t.len() - 1 - i]);
        }
    }
}

/// A section shows each url once: the issues a query writes have distinct urls,
/// none of them seen before the query, all of them seen after it, and every url
/// seen before is still seen after.
pub proof fn law_section_shows_once(
    q: QueryView,
    fetched: Seq<Seq<IssueView>>,
    chosen: Seq<Seq<IssueView>>,
    seen: Seq<(Seq<char>, ())>,
)
    requires
        run_groups(q, fetched, chosen, seen) is Some,
    ensures
        urls_fresh(run_groups(q, fetched, chosen, seen)->0.issues, seen, run_groups(q, fetched, chosen, seen)->0.seen),
        forall|k: Seq<char>| in_set(seen, k) ==> #[trigger] in_set(run_groups(q, fetched, chosen, seen)->0.seen, k),
    decreases fetched.len(),
{
    let r2 = run_groups(q, fetched, chosen, seen)->0;
    if fetched.len() > 0 {
        law_section_shows_once(q, fetched.drop_last(), chosen.drop_last(), seen);
        let r = run_groups(q, fetched.drop_last(), chosen.drop_last(), seen)->0;
        let group = fetched.last();
        let ch = chosen.last();
        law_dedup_once(r.seen, group);
        let (fresh, seen2) = dedup_issues(r.seen, group);
        let kept = kept_issues(q, fresh);
        assert(urls_fresh(fresh, r.seen, seen2));
        if kept.len() > 0 {
            lemma_kept_fresh(q, fresh, r.seen, seen2);
            if q.shuffle {
                lemma_permuted_fresh(kept, ch, r.seen, seen2);
            }
            lemma_arranged_fresh(q, ch, r.seen, seen2);
            let a = arranged(q, ch);
            let all = r.issues + a;
            assert(r2.issues == all);
            assert forall|i: int, j: int| 0 <= i < j < all.len() implies #[trigger] all[i].html_url != #[trigger] all[j].html_url by {
                if j < r.issues.len() {
                    assert(all[i] == r.issues[i] && all[j] == r.issues[j]);
                } else if i < r.issues.len() {
                    assert(all[i] == r.issues[i]);
                    assert(all[j] == a[j - r.issues.len()]);
                    assert(in_set(r.seen, r.issues[i].html_url));
                    assert(!in_set(r.seen, a[j - r.issues.len()].html_url));
                } else {
                    assert(all[i] == a[i - r.issues.len()] && all[j] == a[j - r.issues.len()]);
                }
            }
            assert forall|i: int| 0 <= i < all.len() implies !in_set(seen, #[trigger] all[i].html_url) && in_set(seen2, all[i].html_url) by {
                if i < r.issues.len() {
                    assert(all[i] == r.issues[i]);
                    assert(in_set(r.seen, r.issues[i].html_url));
                } else {
                    assert(all[i] == a[i - r.issues.len()]);
                    if in_set(seen, a[i - r.issues.len()].html_url) {
                        assert(in_set(r.seen, a[i - r.issues.len()].html_url));
                    }
                }
            }
        } else {
            assert forall|i: int| 0 <= i < r2.issues.len() implies !in_set(seen, #[trigger] r2.issues[i].html_url) && in_set(r2.seen, r2.issues[i].html_url) by {
                assert(in_set(r.seen, r.issues[i].html_url));
            }
        }
    }
}

/// Every issue of `s` is one the query keeps.
pub open spec fn all_kept(q: QueryView, s: Seq<IssueView>) -> bool {
    forall|i: int| 0 <= i < s.len() ==> keeps(q, #[trigger] s[i])
}

proof fn lemma_kept_issues_kept(q: QueryView, s: Seq<IssueView>)
    ensures
        all_kept(q, kept_issues(q, s)),
    decreases s.len(),
{
    if s.len() > 0 {
        lemma_kept_issues_kept(q, s.drop_last());
        let k0 = kept_issues(q, s.drop_last());
        let k = kept_issues(q, s);
        if keeps(q, s.last()) {
            assert forall|i: int| 0 <= i < k.len() implies keeps(q, #[trigger] k[i]) by {
                if i < k0.len() {
                    assert(k[i] == k0[i]);
                }
            }
        }
    }
}

proof fn lemma_arranged_kept(q: QueryView, kept: Seq<IssueView>, chosen: Seq<IssueView>)
    requires
        all_kept(q, kept),
        may_order(q, kept, chosen),
    ensures
        all_kept(q, arranged(q, chosen)),
{
    assert(all_kept(q, chosen)) by {
        if q.shuffle {
            let p = choose|p: Seq<int>| is_index_permutation(p, kept.len() as int) && forall|i: int| 0 <= i < chosen.len() ==> #[trigger] chosen[i] == kept[p[i]];
            assert forall|i: int| 0 <= i < chosen.len() implies keeps(q, #[trigger] chosen[i]) by {
                assert(chosen[i] == kept[p[i]]);
            }
        }
    }
    let t = match q.count {
        Some(n) => if n < chosen.len() { chosen.take(n as int) } else { chosen },
        None => chosen,
    };
    assert forall|i: int| 0 <= i < t.len() implies keeps(q, #[trigger] t[i]) by {
        assert(t[i] == chosen[i]);
    }
    if q.rev {
        let r = t.reverse();
        assert forall|i: int| 0 <= i < r.len() implies keeps(q, #[trigger] r[i]) by {
            assert(r[i] == t[t.len() - 1 - i]);
        }
    }
}

/// A section shows only issues its query keeps: none carries all the labels of an
/// excluded group, and none is one the query skips.
pub proof fn law_section_keeps(
    q: QueryView,
    fetched: Seq<Seq<IssueView>>,
    chosen: Seq<Seq<IssueView>>,
    seen: Seq<(Seq<char>, ())>,
)
    requires
        run_groups(q, fetched, chosen, seen) is Some,
    ensures
        forall|i: int| 0 <= i < run_groups(q, fetched, chosen, seen)->0.issues.len() ==> {
            let issue = #[trigger] run_groups(q, fetched, chosen, seen)->0.issues[i];
            &&& forall|g: int| 0 <= g < q.excluded_labels.len() ==> !carries_all(issue.labels, #[trigger] q.excluded_labels[g])
            &&& !q.to_skip.contains(issue.html_url)
        },
    decreases fetched.len(),
{
    let r2 = run_groups(q, fetched, chosen, seen)->0;
    if fetched.len() > 0 {
        law_section_keeps(q, fetched.drop_last(), chosen.drop_last(), seen);
        let r = run_groups(q, fetched.drop_last(), chosen.drop_last(), seen)->0;
        let (fresh, seen2) = dedup_issues(r.seen, fetched.last());
        let kept = kept_issues(q, fresh);
        lemma_kept_issues_kept(q, fresh);
        if kept.len() > 0 {
            lemma_arranged_kept(q, kept, chosen.last());
            let a = arranged(q, chosen.last());
            assert(r2.issues == r.issues + a);
            assert forall|i: int| 0 <= i < r2.issues.len() implies keeps(q, #[trigger] r2.issues[i]) by {
                if i < r.issues.len() {
                    assert(r2.issues[i] == r.issues[i]);
                } else {
                    assert(r2.issues[i] == a[i - r.issues.len()]);
                }
            }
        }
    }
    assert forall|i: int| 0 <= i < r2.issues.len() implies {
        let issue = #[trigger] r2.issues[i];
        &&& forall|g: int| 0 <= g < q.excluded_labels.len() ==> !carries_all(issue.labels, #[trigger] q.excluded_labels[g])
        &&& !q.to_skip.contains(issue.html_url)
    } by {
        if fetched.len() > 0 {
            let r = run_groups(q, fetched.drop_last(), chosen.drop_last(), seen)->0;
            let (fresh, seen2) = dedup_issues(r.seen, fetched.last());
            if kept_issues(q, fresh).len() == 0 {
                assert(r2.issues == r.issues);
            }
        }
        assert(keeps(q, r2.issues[i]));
    }
}

} // verus!
