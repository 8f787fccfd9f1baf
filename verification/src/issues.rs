//! Issues as GitHub reports them, and the queries that select them for an agenda.

use vstd::prelude::*;

use crate::markdown::{escape, escaped, shorten, shortened, Shorten};
use crate::strmap::{lemma_insert_lookup, lookup, seq_insert, StrMap};
use crate::text::{
    chars_of, has_prefix, push_chars, push_str, starts_with_str, string_views,
    suffix_from, trim, trim_of,
};

verus! {

/// An issue or pull request.
pub struct Issue {
    pub number: u32,
    pub html_url: String,
    pub title: String,
    pub labels: Vec<String>,
}

/// What an issue holds, as text.
pub struct IssueView {
    pub number: u32,
    pub html_url: Seq<char>,
    pub title: Seq<char>,
    pub labels: Seq<Seq<char>>,
}

impl View for Issue {
    type V = IssueView;

    open spec fn view(&self) -> IssueView {
        IssueView {
            number: self.number,
            html_url: self.html_url@,
            title: self.title@,
            labels: string_views(self.labels@),
        }
    }
}

/// The views of a list of issues.
pub open spec fn issue_views(v: Seq<Issue>) -> Seq<IssueView> {
    v.map_values(|i: Issue| i@)
}

/// Whether `key` is in the set that `s` holds.
pub open spec fn in_set(s: Seq<(Seq<char>, ())>, key: Seq<char>) -> bool {
    lookup(s, key) is Some
}

/// The issues that are new to `seen`, each url kept once, in their order, and the
/// urls seen after them.
pub open spec fn dedup_issues(seen: Seq<(Seq<char>, ())>, issues: Seq<IssueView>) -> (Seq<IssueView>, Seq<(Seq<char>, ())>)
    decreases issues.len(),
{
    if issues.len() == 0 {
        (Seq::empty(), seen)
    } else {
        let (kept, s) = dedup_issues(seen, issues.drop_last());
        let x = issues.last();
        if in_set(s, x.html_url) {
            (kept, s)
        } else {
            (kept.push(x), seq_insert(s, x.html_url, ()))
        }
    }
}

/// The labels of an issue that start with `P-`, each as `` `label` `` after a space.
pub open spec fn priority_labels(labels: Seq<Seq<char>>) -> Seq<char>
    decreases labels.len(),
{
    if labels.len() == 0 {
        Seq::empty()
    } else {
        priority_labels(labels.drop_last()) + (if has_prefix(labels.last(), "P-"@) {
            " `"@ + labels.last() + "`"@
        } else {
            Seq::empty()
        })
    }
}

/// For each `disposition-X` label, the question ` Should be Xd?`.
pub open spec fn disposition_questions(labels: Seq<Seq<char>>) -> Seq<char>
    decreases labels.len(),
{
    if labels.len() == 0 {
        Seq::empty()
    } else {
        disposition_questions(labels.drop_last()) + (if has_prefix(labels.last(), "disposition-"@) {
            " Should be "@ + labels.last().skip(12) + "d?"@
        } else {
            Seq::empty()
        })
    }
}

/// The lines that an agenda shows for one issue.
pub open spec fn issue_entry(i: IssueView) -> Seq<char> {
    "#### "@ + shortened(i.html_url, Shorten::Text) + priority_labels(i.labels) + " "@ + trim_of(
        escaped(i.title),
    ) + "\n"@ + (if i.labels.contains("finished-final-comment-period"@) {
        "FCP finished."@ + disposition_questions(i.labels) + "\n"@
    } else {
        Seq::empty()
    }) + "\n"@
}

/// The entries of a list of issues, the last issue first.
pub open spec fn issue_entries(issues: Seq<IssueView>) -> Seq<char>
    decreases issues.len(),
{
    if issues.len() == 0 {
        Seq::empty()
    } else {
        issue_entry(issues.last()) + issue_entries(issues.drop_last())
    }
}

/// Builds an agenda from the issues and FCPs of GitHub.
pub struct Generator {
    agenda: Vec<char>,
    seen: StrMap<()>,
}

impl Generator {
    /// The agenda written so far.
    pub closed spec fn agenda_view(&self) -> Seq<char> {
        self.agenda@
    }

    /// The urls of the issues written so far, in order.
    pub closed spec fn seen_view(&self) -> Seq<(Seq<char>, ())> {
        self.seen@
    }

    /// A generator with an empty agenda that has seen no issue.
    pub fn new() -> (res: Self)
        ensures
            res.agenda_view() == Seq::<char>::empty(),
            res.seen_view() == Seq::<(Seq<char>, ())>::empty(),
    {
        Generator { agenda: Vec::new(), seen: StrMap::new() }
    }

    /// The agenda written so far.
    pub fn agenda_text(&self) -> (res: String)
        ensures
            res@ == self.agenda_view(),
    {
        crate::text::string_of(&self.agenda)
    }

    /// Appends text to the agenda.
    pub(crate) fn write_chars(&mut self, cs: &Vec<char>)
        ensures
            final(self).agenda_view() == old(self).agenda_view() + cs@,
            final(self).seen_view() == old(self).seen_view(),
    {
        push_chars(&mut self.agenda, cs);
    }

    /// Appends text to the agenda.
    pub(crate) fn write_str(&mut self, s: &str)
        ensures
            final(self).agenda_view() == old(self).agenda_view() + s@,
            final(self).seen_view() == old(self).seen_view(),
    {
        push_str(&mut self.agenda, s);
    }

    /// Keeps the issues whose urls the generator has not seen yet, each once, and
    /// remembers their urls.
    pub fn dedup(&mut self, issues: Vec<Issue>) -> (res: Vec<Issue>)
        ensures
            (issue_views(res@), final(self).seen_view()) == dedup_issues(old(self).seen_view(), issue_views(issues@)),
            final(self).agenda_view() == old(self).agenda_view(),
    {
        dedup_with(&mut self.seen, issues)
    }
}

impl Default for Generator {
    /// A generator with an empty agenda that has seen no issue.
    fn default() -> (res: Self)
        ensures
            res.agenda_view() == Seq::<char>::empty(),
            res.seen_view() == Seq::<(Seq<char>, ())>::empty(),
    {
        Generator::new()
    }
}

/// Keeps the issues whose urls are not in `seen` yet, each once, and adds their
/// urls to `seen`.
pub fn dedup_with(seen: &mut StrMap<()>, issues: Vec<Issue>) -> (res: Vec<Issue>)
    ensures
        (issue_views(res@), final(seen)@) == dedup_issues(old(seen)@, issue_views(issues@)),
{
    let ghost orig = issues@;
    let ghost seen0 = seen@;
    let n = issues.len();
    let mut rev = reverse_vec(issues);
    let mut res: Vec<Issue> = Vec::new();
    let mut i: usize = 0;
    while i < n
        invariant
            i <= n,
            n == orig.len(),
            rev@ == orig.skip(i as int).reverse(),
            (issue_views(res@), seen@) == dedup_issues(seen0, issue_views(orig.take(i as int))),
        decreases n - i,
    {
        assert(rev@.len() == n - i);
        let x = rev.pop().unwrap();
        assert(x == orig[i as int]);
        assert(rev@ =~= orig.skip(i + 1).reverse());
        let ghost pre = issue_views(orig.take(i as int));
        assert(issue_views(orig.take(i + 1)).drop_last() =~= pre);
        assert(issue_views(orig.take(i + 1)).last() == x@);
        let url = x.html_url.clone();
        if !seen.contains_key(url.as_str()) {
            seen.insert(url, ());
            let ghost before = res@;
            res.push(x);
            assert(issue_views(res@) =~= issue_views(before).push(x@));
        }
        i = i + 1;
    }
    assert(orig.take(n as int) =~= orig);
    res
}

/// Whether one of the strings of `v` is `s`.
pub fn contains_str(v: &Vec<String>, s: &str) -> (res: bool)
    ensures
        res == string_views(v@).contains(s@),
{
    let mut j: usize = 0;
    while j < v.len()
        invariant
            j <= v.len(),
            forall|k: int| 0 <= k < j ==> #[trigger] v@[k]@ != s@,
        decreases v.len() - j,
    {
        if crate::strmap::compare_text(v[j].as_str(), s) == crate::strmap::TextOrder::Equal {
            assert(string_views(v@)[j as int] == s@);
            return true;
        }
        j = j + 1;
    }
    assert forall|k: int| 0 <= k < string_views(v@).len() implies string_views(v@)[k] != s@ by {
        assert(v@[k]@ != s@);
    }
    false
}

/// The text that an agenda shows for one issue.
pub fn issue_entry_text(issue: &Issue) -> (res: Vec<char>)
    ensures
        res@ == issue_entry(issue@),
{
    let mut out: Vec<char> = Vec::new();
    push_str(&mut out, "#### ");
    let short = shorten(issue.html_url.as_str(), Shorten::Text);
    push_str(&mut out, short.as_str());
    let ghost lv = string_views(issue.labels@);
    let ghost start = out@;
    let mut j: usize = 0;
    while j < issue.labels.len()
        invariant
            j <= issue.labels.len(),
            lv == string_views(issue.labels@),
            out@ == start + priority_labels(lv.take(j as int)),
        decreases issue.labels.len() - j,
    {
        assert(lv.take(j + 1).drop_last() =~= lv.take(j as int));
        let label = chars_of(issue.labels[j].as_str());
        if starts_with_str(&label, "P-") {
            push_str(&mut out, " `");
            push_chars(&mut out, &label);
            push_str(&mut out, "`");
        }
        j = j + 1;
    }
    assert(lv.take(issue.labels.len() as int) =~= lv);
    push_str(&mut out, " ");
    let title = escape(issue.title.as_str());
    let title_chars = chars_of(title.as_str());
    let trimmed = trim(&title_chars);
    push_chars(&mut out, &trimmed);
    push_str(&mut out, "\n");
    if contains_str(&issue.labels, "finished-final-comment-period") {
        push_str(&mut out, "FCP finished.");
        push_disposition_questions(&mut out, &issue.labels);
        push_str(&mut out, "\n");
    }
    push_str(&mut out, "\n");
    res_eq(out)
}

fn res_eq(v: Vec<char>) -> (res: Vec<char>)
    ensures
        res == v,
{
    v
}

impl Generator {
    /// Writes the entries of `issues` to the agenda, the last issue first.
    pub fn write_issues(&mut self, issues: &Vec<Issue>)
        ensures
            final(self).agenda_view() == old(self).agenda_view() + issue_entries(issue_views(issues@)),
            final(self).seen_view() == old(self).seen_view(),
    {
        let ghost iv = issue_views(issues@);
        let ghost start = self.agenda_view();
        let mut k: usize = issues.len();
        assert(iv.take(k as int) =~= iv);
        while k > 0
            invariant
                k <= issues.len(),
                iv == issue_views(issues@),
                self.agenda_view() + issue_entries(iv.take(k as int)) == start + issue_entries(iv),
                self.seen_view() == old(self).seen_view(),
            decreases k,
        {
            let entry = issue_entry_text(&issues[k - 1]);
            let ghost before = self.agenda_view();
            self.write_chars(&entry);
            assert(iv.take(k as int).last() == issues@[k - 1]@);
            assert(iv.take(k as int).drop_last() =~= iv.take(k - 1));
            assert(issue_entries(iv.take(k as int)) == entry@ + issue_entries(iv.take(k - 1)));
            assert(self.agenda_view() + issue_entries(iv.take(k - 1)) =~= before + issue_entries(iv.take(k as int)));
            k = k - 1;
        }
        assert(iv.take(issues.len() as int) =~= iv);
        assert(issue_entries(iv.take(0)) =~= Seq::<char>::empty());
        assert(self.agenda_view() + Seq::<char>::empty() =~= self.agenda_view());
    }
}

/// The items of `v` in reverse order.
pub fn reverse_vec<T>(v: Vec<T>) -> (res: Vec<T>)
    ensures
        res@ == v@.reverse(),
{
    let ghost orig = v@;
    let mut v = v;
    let mut res: Vec<T> = Vec::new();
    while v.len() > 0
        invariant
            v@ == orig.take(v@.len() as int),
            res@ == orig.skip(v@.len() as int).reverse(),
            v@.len() <= orig.len(),
        decreases v.len(),
    {
        let ghost k = v@.len();
        let x = v.pop().unwrap();
        res.push(x);
        assert(v@ =~= orig.take(v@.len() as int));
        assert(res@ =~= orig.skip(v@.len() as int).reverse());
    }
    assert(orig.skip(0) =~= orig);
    res
}

/// Appends ` Should be Xd?` for each `disposition-X` label.
pub fn push_disposition_questions(out: &mut Vec<char>, labels: &Vec<String>)
    ensures
        final(out)@ == old(out)@ + disposition_questions(string_views(labels@)),
{
    let ghost lv = string_views(labels@);
    let ghost start = out@;
    let mut j: usize = 0;
    while j < labels.len()
        invariant
            j <= labels.len(),
            lv == string_views(labels@),
            out@ == start + disposition_questions(lv.take(j as int)),
        decreases labels.len() - j,
    {
        assert(lv.take(j + 1).drop_last() =~= lv.take(j as int));
        let label = chars_of(labels[j].as_str());
        if starts_with_str(&label, "disposition-") {
            push_str(out, " Should be ");
            proof {
                reveal_strlit("disposition-");
            }
            let d = suffix_from(&label, 12);
            push_chars(out, &d);
            push_str(out, "d?");
        }
        j = j + 1;
    }
    assert(lv.take(labels.len() as int) =~= lv);
}

/// Deduplicating issues whose urls are all in the set keeps none and adds nothing.
proof fn lemma_dedup_all_seen(seen: Seq<(Seq<char>, ())>, issues: Seq<IssueView>)
    requires
        forall|i: int| 0 <= i < issues.len() ==> #[trigger] in_set(seen, issues[i].html_url),
    ensures
        dedup_issues(seen, issues).0.len() == 0,
        dedup_issues(seen, issues).1 == seen,
    decreases issues.len(),
{
    if issues.len() > 0 {
        let init = issues.drop_last();
        assert forall|i: int| 0 <= i < init.len() implies #[trigger] in_set(seen, init[i].html_url) by {
            assert(init[i] == issues[i]);
        }
        lemma_dedup_all_seen(seen, init);
        assert(in_set(seen, issues[issues.len() - 1].html_url));
    }
}

/// Each url is shown once: the issues that deduplication keeps have urls the set
/// had not seen, no two of them share a url, the set afterwards holds the urls it
/// held and those of all the issues, and deduplicating the same issues again
/// keeps none.
pub proof fn law_dedup_once(seen: Seq<(Seq<char>, ())>, issues: Seq<IssueView>)
    ensures
        forall|i: int| 0 <= i < dedup_issues(seen, issues).0.len()
            ==> !in_set(seen, #[trigger] dedup_issues(seen, issues).0[i].html_url),
        forall|i: int, j: int| 0 <= i < j < dedup_issues(seen, issues).0.len()
            ==> #[trigger] dedup_issues(seen, issues).0[i].html_url != #[trigger] dedup_issues(seen, issues).0[j].html_url,
        forall|k: Seq<char>| in_set(seen, k) ==> #[trigger] in_set(dedup_issues(seen, issues).1, k),
        forall|i: int| 0 <= i < issues.len() ==> #[trigger] in_set(dedup_issues(seen, issues).1, issues[i].html_url),
        forall|i: int| 0 <= i < dedup_issues(seen, issues).0.len()
            ==> in_set(dedup_issues(seen, issues).1, #[trigger] dedup_issues(seen, issues).0[i].html_url),
        dedup_issues(dedup_issues(seen, issues).1, issues).0.len() == 0,
    decreases issues.len(), 1int,
{
    let kept = dedup_issues(seen, issues).0;
    let seen2 = dedup_issues(seen, issues).1;
    if issues.len() > 0 {
        let init = issues.drop_last();
        law_dedup_once(seen, init);
        let k0 = dedup_issues(seen, init).0;
        let s0 = dedup_issues(seen, init).1;
        let x = issues.last();
        if in_set(s0, x.html_url) {
            assert(kept == k0 && seen2 == s0);
            assert forall|i: int| 0 <= i < issues.len() implies #[trigger] in_set(seen2, issues[i].html_url) by {
                if i < issues.len() - 1 {
                    assert(issues[i] == init[i]);
                    assert(in_set(s0, init[i].html_url));
                }
            }
        } else {
            lemma_insert_lookup(s0, x.html_url, ());
            assert(kept == k0.push(x));
            assert(seen2 == seq_insert(s0, x.html_url, ()));
            assert forall|i: int| 0 <= i < k0.len() implies in_set(s0, #[trigger] k0[i].html_url) by {
                lemma_dedup_members(seen, init, i);
            }
            assert forall|i: int| 0 <= i < kept.len() implies !in_set(seen, #[trigger] kept[i].html_url) by {
                if i < k0.len() {
                    assert(kept[i] == k0[i]);
                } else {
                    assert(kept[i] == x);
                    if in_set(seen, x.html_url) {
                        assert(in_set(s0, x.html_url));
                    }
                }
            }
            assert forall|i: int, j: int| 0 <= i < j < kept.len() implies #[trigger] kept[i].html_url != #[trigger] kept[j].html_url by {
                assert(kept[i] == k0[i]);
                if j < k0.len() {
                    assert(kept[j] == k0[j]);
                } else {
                    assert(kept[j] == x);
                    assert(in_set(s0, k0[i].html_url));
                }
            }
            assert forall|k: Seq<char>| in_set(seen, k) implies #[trigger] in_set(seen2, k) by {
                assert(in_set(s0, k));
            }
            assert forall|i: int| 0 <= i < issues.len() implies #[trigger] in_set(seen2, issues[i].html_url) by {
                if i < issues.len() - 1 {
                    assert(issues[i] == init[i]);
                    assert(in_set(s0, init[i].html_url));
                }
            }
        }
    }
    lemma_dedup_all_seen(seen2, issues);
    assert forall|i: int| 0 <= i < kept.len() implies in_set(seen2, #[trigger] kept[i].html_url) by {
        lemma_dedup_members(seen, issues, i);
    }
}

/// The url of every issue that deduplication keeps is in the set afterwards.
proof fn lemma_dedup_members(seen: Seq<(Seq<char>, ())>, issues: Seq<IssueView>, i: int)
    requires
        0 <= i < dedup_issues(seen, issues).0.len(),
    ensures
        in_set(dedup_issues(seen, issues).1, dedup_issues(seen, issues).0[i].html_url),
    decreases issues.len(), 0int,
{
    if issues.len() > 0 {
        let init = issues.drop_last();
        let (k0, s0) = dedup_issues(seen, init);
        let x = issues.last();
        law_dedup_once(seen, init);
        if in_set(s0, x.html_url) {
            lemma_dedup_members(seen, init, i);
        } else {
            lemma_insert_lookup(s0, x.html_url, ());
            if i < k0.len() {
                lemma_dedup_members(seen, init, i);
            }
        }
    }
}

} // verus!
