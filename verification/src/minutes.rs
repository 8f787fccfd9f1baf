//! The minutes of a libs meeting: the open FCPs as the rfcbot page lists them, the
//! nominated issues, and the frame of the minutes around them.

use vstd::prelude::*;

use crate::contributors::{counts_view, cval};
use crate::issues::{dedup_with, issue_views, dedup_issues, Issue, IssueView};
use crate::markdown::{escape_all, escape_everything};
use crate::strmap::{lemma_insert_lookup, lemma_map_vals, lookup, seq_insert, StrMap};
use crate::text::{
    chars_of, decimal, ends_with_str, format_u64, has_prefix, has_suffix, lines, lines_of,
    push_chars, push_str, rsplit_at, rsplit_sub, split_once, split_once_at, starts_with_str,
    string_of, suffix_from, trim, trim_end, trim_end_of, trim_of,
};

verus! {

/// An FCP as the rfcbot page lists it.
pub struct RfcbotFcp {
    pub title: String,
    pub repo: String,
    pub number: String,
    pub disposition: String,
    pub url: String,
    /// The team members whose checkboxes are left.
    pub reviewers: Vec<String>,
    /// Whether a concern blocks it.
    pub concerns: bool,
}

/// What an FCP of the rfcbot page holds, as text.
pub struct RfcbotFcpView {
    pub title: Seq<char>,
    pub repo: Seq<char>,
    pub number: Seq<char>,
    pub disposition: Seq<char>,
    pub url: Seq<char>,
    pub reviewers: Seq<Seq<char>>,
    pub concerns: bool,
}

impl View for RfcbotFcp {
    type V = RfcbotFcpView;

    open spec fn view(&self) -> RfcbotFcpView {
        RfcbotFcpView {
            title: self.title@,
            repo: self.repo@,
            number: self.number@,
            disposition: self.disposition@,
            url: self.url@,
            reviewers: self.reviewers@.map_values(|r: String| r@),
            concerns: self.concerns,
        }
    }
}

/// Why the rfcbot page could not be read.
#[derive(PartialEq, Eq, Structural, Clone, Copy, Debug)]
pub enum PageError {
    /// The page has no section for the libs team.
    MissingSection,
    /// The section ends early or an FCP in it is not laid out as expected.
    Malformed,
}

/// Where the reading of the rfcbot page stands.
#[derive(PartialEq, Eq, Structural, Clone, Copy, Debug)]
pub enum Mode {
    /// Looking for the heading of the libs section.
    Seeking,
    /// In the libs section, between FCPs.
    Scanning,
    /// After `<li>`: the disposition comes next.
    Disposition,
    /// The link to the FCP comes next.
    Url,
    /// The target of the link comes next.
    Target,
    /// The title, repository and number come next.
    Title,
    /// Reading the members and concerns of an FCP.
    Reviewers,
    /// The libs section has ended.
    Done,
    /// A line was not laid out as expected.
    Failed,
}

/// The state of the reading: the mode, the FCPs read, the checkboxes left of each
/// member, and the FCP being read.
pub struct PageView {
    pub mode: Mode,
    pub fcps: Seq<RfcbotFcpView>,
    pub counts: Seq<(Seq<char>, int)>,
    pub cur: RfcbotFcpView,
}

/// The heading of the libs section.
pub open spec fn libs_heading() -> Seq<char> {
    "<h4><code>T-libs</code></h4>"@
}

/// What comes before the link of an FCP.
pub open spec fn link_start() -> Seq<char> {
    "<b><a href=\""@
}

/// What comes after the title of an FCP.
pub open spec fn title_end() -> Seq<char> {
    ")</a></b>"@
}

/// What comes before the name of a member.
pub open spec fn reviewer_start() -> Seq<char> {
    "<a href=\"/fcp/"@
}

/// The members of the libs team whose checkboxes are counted.
pub open spec fn reviewer_names() -> Seq<Seq<char>> {
    seq!["Amanieu"@, "BurntSushi"@, "dtolnay"@, "KodrAus"@, "m-ou-se"@, "sfackler"@, "withoutboats"@]
}

/// The first `n` members, each with no checkbox counted yet.
pub open spec fn zero_counts(names: Seq<Seq<char>>, n: int) -> Seq<(Seq<char>, int)>
    decreases n,
{
    if n <= 0 {
        Seq::empty()
    } else {
        seq_insert(zero_counts(names, n - 1), names[n - 1], 0)
    }
}

/// An FCP with nothing read yet.
pub open spec fn blank_fcp() -> RfcbotFcpView {
    RfcbotFcpView {
        title: Seq::empty(),
        repo: Seq::empty(),
        number: Seq::empty(),
        disposition: Seq::empty(),
        url: Seq::empty(),
        reviewers: Seq::empty(),
        concerns: false,
    }
}

/// The state before the first line.
pub open spec fn page_start() -> PageView {
    PageView {
        mode: Mode::Seeking,
        fcps: Seq::empty(),
        counts: zero_counts(reviewer_names(), 7),
        cur: blank_fcp(),
    }
}

/// The state after reading one more line of the page.
pub open spec fn page_step(st: PageView, line: Seq<char>) -> PageView {
    let t = trim_of(line);
    let failed = PageView { mode: Mode::Failed, ..st };
    match st.mode {
        Mode::Seeking => if trim_end_of(line) == libs_heading() {
            PageView { mode: Mode::Scanning, ..st }
        } else {
            st
        },
        Mode::Scanning => if has_prefix(line, "<h4>"@) {
            PageView { mode: Mode::Done, ..st }
        } else if t == "<li>"@ {
            PageView { mode: Mode::Disposition, cur: blank_fcp(), ..st }
        } else {
            st
        },
        Mode::Disposition => if has_suffix(t, ":"@) {
            PageView { mode: Mode::Url, cur: RfcbotFcpView { disposition: t.drop_last(), ..st.cur }, ..st }
        } else {
            failed
        },
        Mode::Url => if has_prefix(t, link_start()) && has_suffix(t.skip(link_start().len() as int), "\""@) {
            let u = t.skip(link_start().len() as int).drop_last();
            PageView { mode: Mode::Target, cur: RfcbotFcpView { url: u, ..st.cur }, ..st }
        } else {
            failed
        },
        Mode::Target => if t == "target=\"_blank\">"@ {
            PageView { mode: Mode::Title, ..st }
        } else {
            failed
        },
        Mode::Title => if has_suffix(t, title_end()) {
            match rsplit_at(t.take(t.len() - title_end().len()), " ("@) {
                Some((title, rest)) => match split_once_at(rest, '#') {
                    Some((repo, number)) => PageView {
                        mode: Mode::Reviewers,
                        cur: RfcbotFcpView { title, repo, number, ..st.cur },
                        ..st
                    },
                    None => failed,
                },
                None => failed,
            }
        } else {
            failed
        },
        Mode::Reviewers => if t == "</li>"@ {
            PageView { mode: Mode::Scanning, fcps: st.fcps.push(st.cur), cur: blank_fcp(), ..st }
        } else if t == "pending concerns"@ {
            PageView { cur: RfcbotFcpView { concerns: true, ..st.cur }, ..st }
        } else if has_prefix(t, reviewer_start()) {
            match split_once_at(t.skip(reviewer_start().len() as int), '"') {
                Some((r, _)) => if lookup(st.counts, r) is Some {
                    PageView {
                        counts: seq_insert(st.counts, r, cval(st.counts, r) + 1),
                        cur: RfcbotFcpView { reviewers: st.cur.reviewers.push(r), ..st.cur },
                        ..st
                    }
                } else {
                    st
                },
                None => failed,
            }
        } else {
            st
        },
        Mode::Done => st,
        Mode::Failed => st,
    }
}

/// The state after reading the first `n` lines.
pub open spec fn page_run(ls: Seq<Seq<char>>, n: int) -> PageView
    decreases n,
{
    if n <= 0 {
        page_start()
    } else {
        page_step(page_run(ls, n - 1), ls[n - 1])
    }
}

/// What the rfcbot page gives: the FCPs of the libs section, in the order of the
/// page, and the checkboxes left of each member; or why it could not be read.
pub open spec fn page_outcome(page: Seq<char>) -> Result<(Seq<RfcbotFcpView>, Seq<(Seq<char>, int)>), PageError> {
    let ls = lines_of(page);
    let st = page_run(ls, ls.len() as int);
    match st.mode {
        Mode::Done => Ok((st.fcps, st.counts)),
        Mode::Seeking => Err(PageError::MissingSection),
        _ => Err(PageError::Malformed),
    }
}

/// One more line never adds more than one checkbox to anyone.
proof fn lemma_step_counts(st: PageView, line: Seq<char>)
    ensures
        forall|a: Seq<char>| #[trigger] cval(page_step(st, line).counts, a) <= cval(st.counts, a) + 1,
        forall|a: Seq<char>| cval(st.counts, a) >= 0 ==> #[trigger] cval(page_step(st, line).counts, a) >= 0,
{
    let t = trim_of(line);
    if st.mode == Mode::Reviewers && t != "</li>"@ && t != "pending concerns"@ && has_prefix(t, reviewer_start()) {
        match split_once_at(t.skip(reviewer_start().len() as int), '"') {
            Some((r, _)) => {
                lemma_insert_lookup(st.counts, r, cval(st.counts, r) + 1);
            },
            None => {},
        }
    }
}

/// Reading `n` lines leaves no count above `n`.
proof fn lemma_run_counts(ls: Seq<Seq<char>>, n: int)
    requires
        n >= 0,
    ensures
        forall|a: Seq<char>| 0 <= #[trigger] cval(page_run(ls, n).counts, a) <= n,
    decreases n,
{
    if n == 0 {
        lemma_zero_counts(reviewer_names(), 7);
    } else {
        lemma_run_counts(ls, n - 1);
        lemma_step_counts(page_run(ls, n - 1), ls[n - 1]);
        assert forall|a: Seq<char>| 0 <= #[trigger] cval(page_run(ls, n).counts, a) <= n by {
            assert(cval(page_run(ls, n - 1).counts, a) <= n - 1);
        }
    }
}

/// Every count starts at zero.
proof fn lemma_zero_counts(names: Seq<Seq<char>>, n: int)
    ensures
        forall|a: Seq<char>| #[trigger] cval(zero_counts(names, n), a) == 0,
    decreases n,
{
    if n > 0 {
        lemma_zero_counts(names, n - 1);
        lemma_insert_lookup(zero_counts(names, n - 1), names[n - 1], 0);
        assert forall|a: Seq<char>| #[trigger] cval(zero_counts(names, n), a) == 0 by {
            assert(cval(zero_counts(names, n - 1), a) == 0);
        }
    }
}

/// Whether the characters `v` are the text `s`.
fn is_text(v: &Vec<char>, s: &str) -> (res: bool)
    ensures
        res == (v@ == s@),
{
    let sc = chars_of(s);
    crate::strmap::compare_chars(v, &sc) == crate::strmap::TextOrder::Equal
}

/// An FCP with nothing read yet.
fn blank_rfcbot_fcp() -> (res: RfcbotFcp)
    ensures
        res@ == blank_fcp(),
{
    let res = RfcbotFcp {
        title: String::new(),
        repo: String::new(),
        number: String::new(),
        disposition: String::new(),
        url: String::new(),
        reviewers: Vec::new(),
        concerns: false,
    };
    assert(res@.reviewers =~= Seq::<Seq<char>>::empty());
    res
}

/// The reading of the rfcbot page, line by line.
struct PageParser {
    mode: Mode,
    fcps: Vec<RfcbotFcp>,
    counts: StrMap<usize>,
    cur: RfcbotFcp,
}

impl View for PageParser {
    type V = PageView;

    closed spec fn view(&self) -> PageView {
        PageView {
            mode: self.mode,
            fcps: self.fcps@.map_values(|f: RfcbotFcp| f@),
            counts: counts_view(self.counts@),
            cur: self.cur@,
        }
    }
}

impl PageParser {
    /// The reading before the first line.
    fn new() -> (res: Self)
        ensures
            res@ == page_start(),
    {
        let mut counts: StrMap<usize> = StrMap::new();
        let ghost names = reviewer_names();
        assert(counts_view(counts@) =~= zero_counts(names, 0));
        counts.insert("Amanieu".to_owned(), 0);
        proof { lemma_map_vals(Seq::empty(), names[0], 0usize, |n: usize| n as int); }
        assert(counts_view(counts@) == zero_counts(names, 1));
        let ghost c = counts@;
        counts.insert("BurntSushi".to_owned(), 0);
        proof { lemma_map_vals(c, names[1], 0usize, |n: usize| n as int); }
        assert(counts_view(counts@) == zero_counts(names, 2));
        let ghost c = counts@;
        counts.insert("dtolnay".to_owned(), 0);
        proof { lemma_map_vals(c, names[2], 0usize, |n: usize| n as int); }
        assert(counts_view(counts@) == zero_counts(names, 3));
        let ghost c = counts@;
        counts.insert("KodrAus".to_owned(), 0);
        proof { lemma_map_vals(c, names[3], 0usize, |n: usize| n as int); }
        assert(counts_view(counts@) == zero_counts(names, 4));
        let ghost c = counts@;
        counts.insert("m-ou-se".to_owned(), 0);
        proof { lemma_map_vals(c, names[4], 0usize, |n: usize| n as int); }
        assert(counts_view(counts@) == zero_counts(names, 5));
        let ghost c = counts@;
        counts.insert("sfackler".to_owned(), 0);
        proof { lemma_map_vals(c, names[5], 0usize, |n: usize| n as int); }
        assert(counts_view(counts@) == zero_counts(names, 6));
        let ghost c = counts@;
        counts.insert("withoutboats".to_owned(), 0);
        proof { lemma_map_vals(c, names[6], 0usize, |n: usize| n as int); }
        assert(counts_view(counts@) == zero_counts(names, 7));
        let res = PageParser { mode: Mode::Seeking, fcps: Vec::new(), counts, cur: blank_rfcbot_fcp() };
        assert(res@.fcps =~= Seq::<RfcbotFcpView>::empty());
        res
    }

    /// Reads one more line.
    fn step(&mut self, line: &Vec<char>)
        requires
            forall|a: Seq<char>| #[trigger] cval(old(self)@.counts, a) < usize::MAX,
        ensures
            final(self)@ == page_step(old(self)@, line@),
    {
        let ghost st = self@;
        let t = trim(line);
        match self.mode {
            Mode::Seeking => {
                let te = trim_end(line);
                if is_text(&te, "<h4><code>T-libs</code></h4>") {
                    self.mode = Mode::Scanning;
                }
            },
            Mode::Scanning => {
                if starts_with_str(line, "<h4>") {
                    self.mode = Mode::Done;
                } else if is_text(&t, "<li>") {
                    self.mode = Mode::Disposition;
                    self.cur = blank_rfcbot_fcp();
                }
            },
            Mode::Disposition => {
                if ends_with_str(&t, ":") {
                    proof {
                        reveal_strlit(":");
                    }
                    let d = crate::text::prefix_to(&t, t.len() - 1);
                    assert(d@ =~= t@.drop_last());
                    self.cur.disposition = string_of(&d);
                    self.mode = Mode::Url;
                } else {
                    self.mode = Mode::Failed;
                }
            },
            Mode::Url => {
                let start = chars_of("<b><a href=\"");
                if starts_with_str(&t, "<b><a href=\"") {
                    let rest = suffix_from(&t, start.len());
                    if ends_with_str(&rest, "\"") {
                        proof {
                            reveal_strlit("\"");
                        }
                        let u = crate::text::prefix_to(&rest, rest.len() - 1);
                        assert(u@ =~= rest@.drop_last());
                        self.cur.url = string_of(&u);
                        self.mode = Mode::Target;
                    } else {
                        self.mode = Mode::Failed;
                    }
                } else {
                    self.mode = Mode::Failed;
                }
            },
            Mode::Target => {
                if is_text(&t, "target=\"_blank\">") {
                    self.mode = Mode::Title;
                } else {
                    self.mode = Mode::Failed;
                }
            },
            Mode::Title => {
                let end = chars_of(")</a></b>");
                if ends_with_str(&t, ")</a></b>") {
                    let tn = crate::text::prefix_to(&t, t.len() - end.len());
                    match rsplit_sub(&tn, " (") {
                        Some((title, rest)) => match split_once(&rest, '#') {
                            Some((repo, number)) => {
                                self.cur.title = string_of(&title);
                                self.cur.repo = string_of(&repo);
                                self.cur.number = string_of(&number);
                                self.mode = Mode::Reviewers;
                            },
                            None => {
                                self.mode = Mode::Failed;
                            },
                        },
                        None => {
                            self.mode = Mode::Failed;
                        },
                    }
                } else {
                    self.mode = Mode::Failed;
                }
            },
            Mode::Reviewers => {
                if is_text(&t, "</li>") {
                    let mut done = blank_rfcbot_fcp();
                    std::mem::swap(&mut done, &mut self.cur);
                    let ghost before = self.fcps@;
                    self.fcps.push(done);
                    assert(self.fcps@.map_values(|f: RfcbotFcp| f@) =~= before.map_values(|f: RfcbotFcp| f@).push(st.cur));
                    self.mode = Mode::Scanning;
                } else if is_text(&t, "pending concerns") {
                    self.cur.concerns = true;
                } else if starts_with_str(&t, "<a href=\"/fcp/") {
                    let start = chars_of("<a href=\"/fcp/");
                    let r = suffix_from(&t, start.len());
                    match split_once(&r, '"') {
                        Some((name, _)) => {
                            let ns = string_of(&name);
                            proof {
                                lemma_map_vals(self.counts@, ns@, 0usize, |n: usize| n as int);
                            }
                            let found: Option<usize> = match self.counts.get(ns.as_str()) {
                                Some(c) => Some(*c),
                                None => None,
                            };
                            match found {
                                Some(c) => {
                                    assert(c == cval(st.counts, ns@));
                                    let ghost cv = self.counts@;
                                    self.counts.insert(ns.clone(), c + 1);
                                    proof {
                                        lemma_map_vals(cv, ns@, (c + 1) as usize, |n: usize| n as int);
                                    }
                                    let ghost rs = self.cur.reviewers@;
                                    self.cur.reviewers.push(ns);
                                    assert(self.cur.reviewers@.map_values(|r: String| r@) =~= rs.map_values(|r: String| r@).push(name@));
                                },
                                None => {},
                            }
                        },
                        None => {
                            self.mode = Mode::Failed;
                        },
                    }
                }
            },
            Mode::Done => {},
            Mode::Failed => {},
        }
    }
}

/// The libs section of the rfcbot page: its FCPs in the order of the page, and the
/// checkboxes left of each member.
pub struct RfcbotPage {
    pub fcps: Vec<RfcbotFcp>,
    pub counts: StrMap<usize>,
}

/// Reads the libs section of the rfcbot page.
pub fn parse_rfcbot_page(page: &str) -> (res: Result<RfcbotPage, PageError>)
    ensures
        match res {
            Ok(p) => page_outcome(page@) == Ok::<_, PageError>((fcp_views(p.fcps@), counts_view(p.counts@))),
            Err(e) => page_outcome(page@) == Err::<(Seq<RfcbotFcpView>, Seq<(Seq<char>, int)>), _>(e),
        },
{
    let ls = lines(page);
    let ghost lv = lines_of(page@);
    let mut parser = PageParser::new();
    let mut i: usize = 0;
    while i < ls.len()
        invariant
            i <= ls@.len(),
            ls@.map_values(|l: Vec<char>| l@) == lv,
            parser@ == page_run(lv, i as int),
        decreases ls@.len() - i,
    {
        proof {
            lemma_run_counts(lv, i as int);
        }
        assert(ls@[i as int]@ == lv[i as int]);
        parser.step(&ls[i]);
        i = i + 1;
    }
    match parser.mode {
        Mode::Done => Ok(RfcbotPage { fcps: parser.fcps, counts: parser.counts }),
        Mode::Seeking => Err(PageError::MissingSection),
        _ => Err(PageError::Malformed),
    }
}

/// The FCPs already grouped under `repo`.
pub open spec fn group_of(groups: Seq<(Seq<char>, Seq<RfcbotFcpView>)>, repo: Seq<char>) -> Seq<RfcbotFcpView> {
    match lookup(groups, repo) {
        Some(g) => g,
        None => Seq::empty(),
    }
}

/// The first `n` FCPs grouped by repository, the repositories in order and the
/// FCPs of each in the order of the page.
pub open spec fn group_by_repo(fcps: Seq<RfcbotFcpView>, n: int) -> Seq<(Seq<char>, Seq<RfcbotFcpView>)>
    decreases n,
{
    if n <= 0 {
        Seq::empty()
    } else {
        let t = group_by_repo(fcps, n - 1);
        let f = fcps[n - 1];
        seq_insert(t, f.repo, group_of(t, f.repo).push(f))
    }
}

/// The line of one FCP, and a second line where a concern blocks it.
pub open spec fn fcp_line(f: RfcbotFcpView) -> Seq<char> {
    "  - [["@ + f.disposition + " "@ + f.number + "]("@ + f.url + ")] *"@ + escape_everything(f.title) + "*"@
        + " - ("@ + decimal(f.reviewers.len()) + " checkboxes left)\n"@
        + if f.concerns {
        "    Blocked on an open concern.\n"@
    } else {
        Seq::empty()
    }
}

/// The lines of the first `n` FCPs.
pub open spec fn fcp_lines(fs: Seq<RfcbotFcpView>, n: int) -> Seq<char>
    decreases n,
{
    if n <= 0 {
        Seq::empty()
    } else {
        fcp_lines(fs, n - 1) + fcp_line(fs[n - 1])
    }
}

/// The folding block of the FCPs of one repository.
pub open spec fn repo_block(repo: Seq<char>, fs: Seq<RfcbotFcpView>) -> Seq<char> {
    "<details><summary><a href=\"https://github.com/"@ + repo
        + "/issues?q=is%3Aopen+label%3AT-libs+label%3Aproposed-final-comment-period\">"@
        + decimal(fs.len()) + " <code>"@ + repo + "</code> FCPs</a></summary>\n\n"@
        + fcp_lines(fs, fs.len() as int) + "</details>\n"@
}

/// The blocks of the first `n` repositories.
pub open spec fn repo_blocks(groups: Seq<(Seq<char>, Seq<RfcbotFcpView>)>, n: int) -> Seq<char>
    decreases n,
{
    if n <= 0 {
        Seq::empty()
    } else {
        repo_blocks(groups, n - 1) + repo_block(groups[n - 1].0, groups[n - 1].1)
    }
}

/// The link to the FCPs of one member, with the checkboxes left.
pub open spec fn reviewer_link(r: Seq<char>, count: int) -> Seq<char> {
    "["@ + r + " ("@ + decimal(count as nat) + ")](https://rfcbot.rs/fcp/"@ + r + ")"@
}

/// The links of the first `n` members, separated by commas.
pub open spec fn reviewer_links(counts: Seq<(Seq<char>, int)>, n: int) -> Seq<char>
    decreases n,
{
    if n <= 0 {
        Seq::empty()
    } else {
        reviewer_links(counts, n - 1) + (if n > 1 { ", "@ } else { Seq::empty() }) + reviewer_link(
            counts[n - 1].0,
            counts[n - 1].1,
        )
    }
}

/// The FCP section of the minutes.
pub open spec fn fcps_text(fcps: Seq<RfcbotFcpView>, counts: Seq<(Seq<char>, int)>) -> Seq<char> {
    let groups = group_by_repo(fcps, fcps.len() as int);
    "### FCPs\n\n"@ + decimal(fcps.len()) + " open T-libs FCPs:\n"@ + repo_blocks(groups, groups.len() as int)
        + "<p></p>\n\n"@ + reviewer_links(counts, counts.len() as int) + "\n\n"@
}

/// The views of a list of FCPs.
pub open spec fn fcp_views(fs: Seq<RfcbotFcp>) -> Seq<RfcbotFcpView> {
    fs.map_values(|f: RfcbotFcp| f@)
}

/// The groups with each FCP as text.
pub open spec fn group_views(m: Seq<(Seq<char>, Seq<RfcbotFcp>)>) -> Seq<(Seq<char>, Seq<RfcbotFcpView>)> {
    crate::strmap::map_vals(m, |g: Seq<RfcbotFcp>| fcp_views(g))
}

/// Groups the FCPs by repository.
fn group_fcps(fcps: Vec<RfcbotFcp>) -> (res: StrMap<Vec<RfcbotFcp>>)
    ensures
        group_views(res@) == group_by_repo(fcp_views(fcps@), fcps@.len() as int),
{
    let ghost orig = fcps@;
    let ghost fv = fcp_views(orig);
    let n = fcps.len();
    let mut rev = crate::issues::reverse_vec(fcps);
    let mut groups: StrMap<Vec<RfcbotFcp>> = StrMap::new();
    assert(group_views(groups@) =~= group_by_repo(fv, 0));
    let mut i: usize = 0;
    while i < n
        invariant
            i <= n,
            n == orig.len(),
            fv == fcp_views(orig),
            rev@ == orig.skip(i as int).reverse(),
            group_views(groups@) == group_by_repo(fv, i as int),
        decreases n - i,
    {
        proof {
            use_type_invariant(&groups);
        }
        assert(rev@.len() == n - i);
        let f = rev.pop().unwrap();
        assert(f == orig[i as int]);
        assert(rev@ =~= orig.skip(i + 1).reverse());
        let ghost g0 = groups@;
        let ghost t = group_views(g0);
        let repo = f.repo.clone();
        let mut g = match groups.remove(repo.as_str()) {
            Some(g) => g,
            None => Vec::new(),
        };
        proof {
            lemma_map_vals(g0, repo@, Seq::empty(), |g: Seq<RfcbotFcp>| fcp_views(g));
            assert(fcp_views(Seq::<RfcbotFcp>::empty()) =~= Seq::<RfcbotFcpView>::empty());
            assert(fcp_views(g@) == group_of(t, repo@));
        }
        let ghost gb = g@;
        g.push(f);
        assert(fcp_views(g@) =~= fcp_views(gb).push(fv[i as int]));
        groups.insert(repo, g);
        proof {
            let nv = g@;
            crate::strmap::lemma_insert_after_remove(g0, repo@, nv);
            lemma_map_vals(g0, repo@, nv, |g: Seq<RfcbotFcp>| fcp_views(g));
        }
        i = i + 1;
    }
    groups
}

/// Appends the decimal notation of `n`.
fn push_count(out: &mut Vec<char>, n: usize)
    ensures
        final(out)@ == old(out)@ + decimal(n as nat),
{
    let d = format_u64(n as u64);
    push_chars(out, &d);
}

/// Appends the line of one FCP.
fn push_fcp_line(out: &mut Vec<char>, f: &RfcbotFcp)
    ensures
        final(out)@ == old(out)@ + fcp_line(f@),
{
    let ghost start = out@;
    push_str(out, "  - [[");
    push_str(out, f.disposition.as_str());
    push_str(out, " ");
    push_str(out, f.number.as_str());
    push_str(out, "](");
    push_str(out, f.url.as_str());
    push_str(out, ")] *");
    let t = escape_all(f.title.as_str());
    push_str(out, t.as_str());
    push_str(out, "*");
    push_str(out, " - (");
    push_count(out, f.reviewers.len());
    push_str(out, " checkboxes left)\n");
    if f.concerns {
        push_str(out, "    Blocked on an open concern.\n");
    }
    assert(out@ =~= start + fcp_line(f@));
}

/// Appends the folding block of the FCPs of one repository.
fn push_repo_block(out: &mut Vec<char>, repo: &String, fs: &Vec<RfcbotFcp>)
    ensures
        final(out)@ == old(out)@ + repo_block(repo@, fcp_views(fs@)),
{
    let ghost start = out@;
    let ghost fv = fcp_views(fs@);
    push_str(out, "<details><summary><a href=\"https://github.com/");
    push_str(out, repo.as_str());
    push_str(out, "/issues?q=is%3Aopen+label%3AT-libs+label%3Aproposed-final-comment-period\">");
    push_count(out, fs.len());
    push_str(out, " <code>");
    push_str(out, repo.as_str());
    push_str(out, "</code> FCPs</a></summary>\n\n");
    let ghost head = out@;
    let mut k: usize = 0;
    while k < fs.len()
        invariant
            k <= fs@.len(),
            fv == fcp_views(fs@),
            out@ == head + fcp_lines(fv, k as int),
        decreases fs@.len() - k,
    {
        push_fcp_line(out, &fs[k]);
        k = k + 1;
        assert(out@ =~= head + fcp_lines(fv, k as int));
    }
    push_str(out, "</details>\n");
    assert(out@ =~= start + repo_block(repo@, fv));
}

/// The FCP section of the minutes, from the libs section of the rfcbot page.
pub fn fcps_section(page: RfcbotPage) -> (res: String)
    ensures
        res@ == fcps_text(fcp_views(page.fcps@), counts_view(page.counts@)),
{
    let ghost fv = fcp_views(page.fcps@);
    let ghost cv = counts_view(page.counts@);
    let total = page.fcps.len();
    let counts = page.counts;
    let groups = group_fcps(page.fcps);
    let ghost gv = group_views(groups@);
    let mut out: Vec<char> = Vec::new();
    push_str(&mut out, "### FCPs\n\n");
    push_count(&mut out, total);
    push_str(&mut out, " open T-libs FCPs:\n");
    let ghost head = out@;
    let mut i: usize = 0;
    while i < groups.len()
        invariant
            i <= groups@.len(),
            gv == group_views(groups@),
            out@ == head + repo_blocks(gv, i as int),
        decreases groups@.len() - i,
    {
        let (repo, fs) = groups.entry_at(i);
        proof {
            lemma_map_vals(groups@, repo@, fs@, |g: Seq<RfcbotFcp>| fcp_views(g));
            assert(gv[i as int] == (repo@, fcp_views(fs@)));
        }
        push_repo_block(&mut out, repo, fs);
        i = i + 1;
        assert(out@ =~= head + repo_blocks(gv, i as int));
    }
    push_str(&mut out, "<p></p>\n\n");
    let ghost mid = out@;
    let mut j: usize = 0;
    while j < counts.len()
        invariant
            j <= counts@.len(),
            cv == counts_view(counts@),
            out@ == mid + reviewer_links(cv, j as int),
        decreases counts@.len() - j,
    {
        let (r, c) = counts.entry_at(j);
        assert(cv[j as int] == (r@, *c as int));
        if j > 0 {
            push_str(&mut out, ", ");
        }
        push_str(&mut out, "[");
        push_str(&mut out, r.as_str());
        push_str(&mut out, " (");
        push_count(&mut out, *c);
        push_str(&mut out, ")](https://rfcbot.rs/fcp/");
        push_str(&mut out, r.as_str());
        push_str(&mut out, ")");
        j = j + 1;
        assert(out@ =~= mid + reviewer_links(cv, j as int));
    }
    push_str(&mut out, "\n\n");
    assert(out@ =~= fcps_text(fv, cv));
    string_of(&out)
}

/// The FCP section of the minutes from the rfcbot page, or why the page could not
/// be read.
pub fn show_fcps(page: &str) -> (res: Result<String, PageError>)
    ensures
        match (res, page_outcome(page@)) {
            (Ok(s), Ok((fs, cs))) => s@ == fcps_text(fs, cs),
            (Err(e), Err(f)) => e == f,
            _ => false,
        },
{
    match parse_rfcbot_page(page) {
        Ok(p) => {
            let ghost fs = fcp_views(p.fcps@);
            let ghost cs = counts_view(p.counts@);
            let s = fcps_section(p);
            Ok(s)
        },
        Err(e) => Err(e),
    }
}

/// The line of one issue in the minutes, with a second line where its FCP has
/// finished.
pub open spec fn minutes_issue_line(i: IssueView) -> Seq<char> {
    "  - [["@ + decimal(i.number as nat) + "]("@ + i.html_url + ")] *"@ + escape_everything(i.title) + "*\n"@
        + if i.labels.contains("finished-final-comment-period"@) {
        "    FCP finished."@ + crate::issues::disposition_questions(i.labels) + "\n"@
    } else {
        Seq::empty()
    }
}

/// The lines of a list of issues, the last issue first.
pub open spec fn minutes_issue_lines(issues: Seq<IssueView>) -> Seq<char>
    decreases issues.len(),
{
    if issues.len() == 0 {
        Seq::empty()
    } else {
        minutes_issue_line(issues.last()) + minutes_issue_lines(issues.drop_last())
    }
}

/// The heading line of a list of issues: how many there are, and where GitHub
/// lists them.
pub open spec fn count_line(n: nat, repo: Seq<char>, label: Seq<char>) -> Seq<char> {
    "- ["@ + decimal(n) + " `rust-lang/"@ + repo + "` items](https://github.com/rust-lang/"@ + repo
        + "/issues?q=is%3Aopen+label%3AT-libs+label%3A"@ + label + ")\n"@
}

/// A list of issues under its heading line.
pub open spec fn issue_list(issues: Seq<IssueView>, repo: Seq<char>, label: Seq<char>) -> Seq<char> {
    count_line(issues.len(), repo, label) + minutes_issue_lines(issues)
}

/// The issue sections of the minutes. The lists are given in the order in which
/// their issues are kept the first time they come: nominated issues and RFCs,
/// those waiting on the team, and those that need a decision; each url is shown
/// once.
pub open spec fn issues_text(
    nominated_issues: Seq<IssueView>,
    nominated_rfcs: Seq<IssueView>,
    waiting_issues: Seq<IssueView>,
    waiting_rfcs: Seq<IssueView>,
    decision_issues: Seq<IssueView>,
) -> Seq<char> {
    let d1 = dedup_issues(Seq::empty(), nominated_issues);
    let d2 = dedup_issues(d1.1, nominated_rfcs);
    let d3 = dedup_issues(d2.1, waiting_issues);
    let d4 = dedup_issues(d3.1, waiting_rfcs);
    let d5 = dedup_issues(d4.1, decision_issues);
    "### Nominated\n\n"@ + issue_list(d2.0, "rfcs"@, "I-nominated"@) + issue_list(d1.0, "rust"@, "I-nominated"@)
        + "\n"@ + "### Waiting on team\n\n"@ + issue_list(d4.0, "rfcs"@, "S-waiting-on-team"@)
        + issue_list(d3.0, "rust"@, "S-waiting-on-team"@) + "\n"@ + "### Needs decision\n\n"@
        + issue_list(d5.0, "rust"@, "I-needs-decision"@) + "\n"@
}

/// Appends the line of one issue.
fn push_minutes_issue(out: &mut Vec<char>, issue: &Issue)
    ensures
        final(out)@ == old(out)@ + minutes_issue_line(issue@),
{
    let ghost start = out@;
    push_str(out, "  - [[");
    let d = format_u64(issue.number as u64);
    push_chars(out, &d);
    push_str(out, "](");
    push_str(out, issue.html_url.as_str());
    push_str(out, ")] *");
    let t = escape_all(issue.title.as_str());
    push_str(out, t.as_str());
    push_str(out, "*\n");
    if crate::issues::contains_str(&issue.labels, "finished-final-comment-period") {
        push_str(out, "    FCP finished.");
        crate::issues::push_disposition_questions(out, &issue.labels);
        push_str(out, "\n");
    }
    assert(out@ =~= start + minutes_issue_line(issue@));
}

/// Appends a list of issues under its heading line.
fn push_issue_list(out: &mut Vec<char>, issues: &Vec<Issue>, repo: &str, label: &str)
    ensures
        final(out)@ == old(out)@ + issue_list(issue_views(issues@), repo@, label@),
{
    let ghost start = out@;
    let ghost iv = issue_views(issues@);
    push_str(out, "- [");
    push_count(out, issues.len());
    push_str(out, " `rust-lang/");
    push_str(out, repo);
    push_str(out, "` items](https://github.com/rust-lang/");
    push_str(out, repo);
    push_str(out, "/issues?q=is%3Aopen+label%3AT-libs+label%3A");
    push_str(out, label);
    push_str(out, ")\n");
    assert(out@ =~= start + count_line(iv.len(), repo@, label@));
    let ghost head = out@;
    let mut k: usize = issues.len();
    assert(iv.take(k as int) =~= iv);
    while k > 0
        invariant
            k <= issues@.len(),
            iv == issue_views(issues@),
            out@ + minutes_issue_lines(iv.take(k as int)) == head + minutes_issue_lines(iv),
        decreases k,
    {
        let ghost before = out@;
        k = k - 1;
        push_minutes_issue(out, &issues[k]);
        proof {
            let t = iv.take(k + 1);
            assert(t.drop_last() =~= iv.take(k as int));
            assert(t.last() == issues@[k as int]@);
            assert(minutes_issue_lines(t) == minutes_issue_line(issues@[k as int]@) + minutes_issue_lines(iv.take(k as int)));
            assert(out@ + minutes_issue_lines(iv.take(k as int)) =~= before + minutes_issue_lines(t));
        }
    }
    assert(iv.take(0) =~= Seq::<IssueView>::empty());
    assert(out@ + minutes_issue_lines(iv.take(0)) =~= out@);
    assert(out@ =~= start + issue_list(iv, repo@, label@));
}

/// The issue sections of the minutes, from the issues GitHub lists for each query
/// of `minutes_endpoints`, in that order.
pub fn show_issues(
    nominated_issues: Vec<Issue>,
    nominated_rfcs: Vec<Issue>,
    waiting_issues: Vec<Issue>,
    waiting_rfcs: Vec<Issue>,
    decision_issues: Vec<Issue>,
) -> (res: String)
    ensures
        res@ == issues_text(
            issue_views(nominated_issues@),
            issue_views(nominated_rfcs@),
            issue_views(waiting_issues@),
            issue_views(waiting_rfcs@),
            issue_views(decision_issues@),
        ),
{
    let ghost v1 = issue_views(nominated_issues@);
    let ghost v2 = issue_views(nominated_rfcs@);
    let ghost v3 = issue_views(waiting_issues@);
    let ghost v4 = issue_views(waiting_rfcs@);
    let ghost v5 = issue_views(decision_issues@);
    let mut seen: StrMap<()> = StrMap::new();
    let n_issues = dedup_with(&mut seen, nominated_issues);
    let n_rfcs = dedup_with(&mut seen, nominated_rfcs);
    let w_issues = dedup_with(&mut seen, waiting_issues);
    let w_rfcs = dedup_with(&mut seen, waiting_rfcs);
    let d_issues = dedup_with(&mut seen, decision_issues);
    let mut out: Vec<char> = Vec::new();
    push_str(&mut out, "### Nominated\n\n");
    push_issue_list(&mut out, &n_rfcs, "rfcs", "I-nominated");
    push_issue_list(&mut out, &n_issues, "rust", "I-nominated");
    push_str(&mut out, "\n");
    push_str(&mut out, "### Waiting on team\n\n");
    push_issue_list(&mut out, &w_rfcs, "rfcs", "S-waiting-on-team");
    push_issue_list(&mut out, &w_issues, "rust", "S-waiting-on-team");
    push_str(&mut out, "\n");
    push_str(&mut out, "### Needs decision\n\n");
    push_issue_list(&mut out, &d_issues, "rust", "I-needs-decision");
    push_str(&mut out, "\n");
    assert(out@ =~= issues_text(v1, v2, v3, v4, v5));
    string_of(&out)
}

/// The GitHub queries of the issue sections, in the order `show_issues` takes
/// their results.
pub open spec fn minutes_endpoint_list() -> Seq<Seq<char>> {
    seq![
        "repos/rust-lang/rust/issues?labels=T-libs,I-nominated"@,
        "repos/rust-lang/rfcs/issues?labels=T-libs,I-nominated"@,
        "repos/rust-lang/rust/issues?labels=T-libs,S-waiting-on-team"@,
        "repos/rust-lang/rfcs/issues?labels=T-libs,S-waiting-on-team"@,
        "repos/rust-lang/rust/issues?labels=T-libs,I-needs-decision"@,
    ]
}

/// The GitHub queries of the issue sections.
pub fn minutes_endpoints() -> (res: Vec<String>)
    ensures
        crate::text::string_views(res@) == minutes_endpoint_list(),
{
    let mut v: Vec<String> = Vec::new();
    v.push("repos/rust-lang/rust/issues?labels=T-libs,I-nominated".to_owned());
    v.push("repos/rust-lang/rfcs/issues?labels=T-libs,I-nominated".to_owned());
    v.push("repos/rust-lang/rust/issues?labels=T-libs,S-waiting-on-team".to_owned());
    v.push("repos/rust-lang/rfcs/issues?labels=T-libs,S-waiting-on-team".to_owned());
    v.push("repos/rust-lang/rust/issues?labels=T-libs,I-needs-decision".to_owned());
    assert(crate::text::string_views(v@) =~= minutes_endpoint_list());
    v
}

/// The head of the minutes of the meeting on `date`.
pub open spec fn minutes_head(date: Seq<char>) -> Seq<char> {
    "# Libs Meeting "@ + date
        + "\n\n###### tags: `Libs Meetings` `Minutes`\n\n**Attendees**: ...\n\n## Agenda\n\n- Triage\n- Anything else?\n\n## Triage\n\n"@
}

/// The head of the minutes of the meeting on `date`.
pub fn minutes_header(date: &str) -> (res: String)
    ensures
        res@ == minutes_head(date@),
{
    let mut out: Vec<char> = Vec::new();
    push_str(&mut out, "# Libs Meeting ");
    push_str(&mut out, date);
    push_str(
        &mut out,
        "\n\n###### tags: `Libs Meetings` `Minutes`\n\n**Attendees**: ...\n\n## Agenda\n\n- Triage\n- Anything else?\n\n## Triage\n\n",
    );
    assert(out@ =~= minutes_head(date@));
    string_of(&out)
}

/// The end of the minutes: room for notes and the standing actions.
pub open spec fn minutes_tail() -> Seq<char> {
    "## Notes\n\n...\n\n## Actions\n\n- [ ] Finish action items from the last meeting.\n- [ ] Reply to all issues/PRs discussed in this meeting.\n\n"@
}

/// The end of the minutes.
pub fn minutes_footer() -> (res: String)
    ensures
        res@ == minutes_tail(),
{
    "## Notes\n\n...\n\n## Actions\n\n- [ ] Finish action items from the last meeting.\n- [ ] Reply to all issues/PRs discussed in this meeting.\n\n".to_owned()
}

/// How many times `r` stands in `rs`.
pub open spec fn count_in(rs: Seq<Seq<char>>, r: Seq<char>) -> int
    decreases rs.len(),
{
    if rs.len() == 0 {
        0
    } else {
        count_in(rs.drop_last(), r) + if rs.last() == r { 1int } else { 0int }
    }
}

/// How many times the FCPs `fs` list `r` among the members whose checkboxes are left.
pub open spec fn fcp_reviews(fs: Seq<RfcbotFcpView>, r: Seq<char>) -> int
    decreases fs.len(),
{
    if fs.len() == 0 {
        0
    } else {
        fcp_reviews(fs.drop_last(), r) + count_in(fs.last().reviewers, r)
    }
}

/// What every state of the reading keeps: each count is what the FCPs read and
/// the FCP being read list, and between FCPs none is being read.
pub open spec fn tally_holds(st: PageView) -> bool {
    &&& forall|r: Seq<char>| #[trigger] cval(st.counts, r) == fcp_reviews(st.fcps, r) + count_in(st.cur.reviewers, r)
    &&& (st.mode == Mode::Seeking || st.mode == Mode::Scanning || st.mode == Mode::Done) ==> st.cur.reviewers.len() == 0
}

proof fn lemma_step_tally(st: PageView, line: Seq<char>)
    requires
        tally_holds(st),
        st.mode != Mode::Failed,
    ensures
        page_step(st, line).mode != Mode::Failed ==> tally_holds(page_step(st, line)),
{
    let t = trim_of(line);
    let nx = page_step(st, line);
    assert(blank_fcp().reviewers.len() == 0);
    if st.mode == Mode::Reviewers {
        if t == "</li>"@ {
            assert(nx.fcps.drop_last() =~= st.fcps);
            assert forall|r: Seq<char>| #[trigger] cval(nx.counts, r) == fcp_reviews(nx.fcps, r) + count_in(nx.cur.reviewers, r) by {
                assert(cval(st.counts, r) == fcp_reviews(st.fcps, r) + count_in(st.cur.reviewers, r));
            }
        } else if t == "pending concerns"@ {
        } else if has_prefix(t, reviewer_start()) {
            match split_once_at(t.skip(reviewer_start().len() as int), '"') {
                Some((name, _)) => {
                    if lookup(st.counts, name) is Some {
                        lemma_insert_lookup(st.counts, name, cval(st.counts, name) + 1);
                        assert(nx.cur.reviewers.drop_last() =~= st.cur.reviewers);
                        assert forall|r: Seq<char>| #[trigger] cval(nx.counts, r) == fcp_reviews(nx.fcps, r) + count_in(nx.cur.reviewers, r) by {
                            assert(cval(st.counts, r) == fcp_reviews(st.fcps, r) + count_in(st.cur.reviewers, r));
                        }
                    }
                },
                None => {},
            }
        }
    } else if st.mode == Mode::Scanning {
        if !has_prefix(line, "<h4>"@) && t == "<li>"@ {
            assert forall|r: Seq<char>| #[trigger] cval(nx.counts, r) == fcp_reviews(nx.fcps, r) + count_in(nx.cur.reviewers, r) by {
                assert(cval(st.counts, r) == fcp_reviews(st.fcps, r) + count_in(st.cur.reviewers, r));
            }
        }
    }
}

proof fn lemma_run_tally(ls: Seq<Seq<char>>, n: int)
    requires
        n >= 0,
    ensures
        page_run(ls, n).mode != Mode::Failed ==> tally_holds(page_run(ls, n)),
    decreases n,
{
    if n == 0 {
        lemma_zero_counts(reviewer_names(), 7);
        assert forall|r: Seq<char>| #[trigger] cval(page_start().counts, r) == fcp_reviews(page_start().fcps, r) + count_in(page_start().cur.reviewers, r) by {
            assert(cval(zero_counts(reviewer_names(), 7), r) == 0);
        }
    } else {
        lemma_run_tally(ls, n - 1);
        let prev = page_run(ls, n - 1);
        if prev.mode != Mode::Failed {
            lemma_step_tally(prev, ls[n - 1]);
        } else {
            assert(page_run(ls, n).mode == Mode::Failed);
        }
    }
}

/// The checkboxes left of each member are the FCPs that list them: on a page that
/// reads, each member's count is the number of times the FCPs of the libs
/// section list that member.
pub proof fn law_checkbox_tally(page: Seq<char>)
    requires
        page_outcome(page) is Ok,
    ensures
        page_outcome(page) matches Ok((fs, cs)) && forall|r: Seq<char>| #[trigger] cval(cs, r) == fcp_reviews(fs, r),
{
    let ls = lines_of(page);
    lemma_run_tally(ls, ls.len() as int);
    let st = page_run(ls, ls.len() as int);
    assert forall|r: Seq<char>| #[trigger] cval(st.counts, r) == fcp_reviews(st.fcps, r) by {
        assert(cval(st.counts, r) == fcp_reviews(st.fcps, r) + count_in(st.cur.reviewers, r));
        assert(st.cur.reviewers =~= Seq::<Seq<char>>::empty());
    }
}

/// The FCPs of a repository.
pub open spec fn of_repo(repo: Seq<char>) -> spec_fn(RfcbotFcpView) -> bool {
    |f: RfcbotFcpView| f.repo == repo
}

proof fn lemma_group_prefix(fcps: Seq<RfcbotFcpView>, repo: Seq<char>, n: int)
    requires
        0 <= n <= fcps.len(),
    ensures
        group_of(group_by_repo(fcps, n), repo) == fcps.take(n).filter(of_repo(repo)),
    decreases n,
{
    reveal(Seq::filter);
    if n == 0 {
        assert(fcps.take(0) =~= Seq::<RfcbotFcpView>::empty());
        assert(group_by_repo(fcps, 0) =~= Seq::<(Seq<char>, Seq<RfcbotFcpView>)>::empty());
    } else {
        lemma_group_prefix(fcps, repo, n - 1);
        let t = group_by_repo(fcps, n - 1);
        let f = fcps[n - 1];
        lemma_insert_lookup(t, f.repo, group_of(t, f.repo).push(f));
        assert(fcps.take(n).drop_last() =~= fcps.take(n - 1));
        assert(fcps.take(n).last() == f);
    }
}

/// Each repository's block lists exactly the FCPs of that repository, in the order
/// of the page.
pub proof fn law_groups_keep_page_order(fcps: Seq<RfcbotFcpView>, repo: Seq<char>)
    ensures
        group_of(group_by_repo(fcps, fcps.len() as int), repo) == fcps.filter(of_repo(repo)),
{
    lemma_group_prefix(fcps, repo, fcps.len() as int);
    assert(fcps.take(fcps.len() as int) =~= fcps);
}

} // verus!
