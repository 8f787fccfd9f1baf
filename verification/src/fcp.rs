//! Final comment periods (FCPs): whose checkboxes are still missing, in which order
//! the agenda lists them, and how it shows them.

use vstd::prelude::*;

use crate::issues::{contains_str, in_set, reverse_vec, Generator};
use crate::markdown::{escape, escaped, shorten, shortened, Shorten};
use crate::strmap::{
    lemma_insert_after_remove, lookup, seq_insert, StrMap, TextOrder,
};
use crate::text::{
    chars_of, format_i64, format_u64, has_prefix, push_chars, push_str, signed_decimal, decimal,
    split_once, split_once_at, string_views, starts_with_str, suffix_from,
};

verus! {

/// The issue that an FCP is about.
pub struct FcpIssue {
    pub number: i32,
    pub title: String,
    pub labels: Vec<String>,
    pub repository: String,
}

/// A concern raised on an FCP, and the comment that raised it.
pub struct Concern {
    pub name: String,
    pub comment_id: u64,
}

/// An FCP as rfcbot reports it: each member's login with whether their box is
/// checked, the open concerns, the issue, and the comment that shows its status.
pub struct FcpWithInfo {
    pub reviews: Vec<(String, bool)>,
    pub concerns: Vec<Concern>,
    pub issue: FcpIssue,
    pub status_comment_id: u64,
}

/// What an FCP holds, as text.
pub struct FcpView {
    pub reviews: Seq<(Seq<char>, bool)>,
    pub concerns: Seq<(Seq<char>, u64)>,
    pub number: i32,
    pub title: Seq<char>,
    pub labels: Seq<Seq<char>>,
    pub repository: Seq<char>,
    pub status_comment_id: u64,
}

impl View for FcpWithInfo {
    type V = FcpView;

    open spec fn view(&self) -> FcpView {
        FcpView {
            reviews: self.reviews@.map_values(|r: (String, bool)| (r.0@, r.1)),
            concerns: self.concerns@.map_values(|c: Concern| (c.name@, c.comment_id)),
            number: self.issue.number,
            title: self.issue.title@,
            labels: string_views(self.issue.labels@),
            repository: self.issue.repository@,
            status_comment_id: self.status_comment_id,
        }
    }
}

/// The views of a list of FCPs.
pub open spec fn fcp_views(v: Seq<FcpWithInfo>) -> Seq<FcpView> {
    v.map_values(|f: FcpWithInfo| f@)
}

/// The checkboxes of an FCP that are still unchecked.
pub struct Checkboxes {
    pub libs_unchecked: usize,
    pub libs_and_former_fcp_unchecked: usize,
    pub other_unchecked: StrMap<StrMap<()>>,
    pub total_other_unchecked: usize,
}

/// The unchecked boxes, counted: by members of the libs team, by them and former
/// members, and by others; and the members of each team.
pub struct CheckView {
    pub libs: int,
    pub libs_and_former: int,
    pub other: Seq<(Seq<char>, Seq<(Seq<char>, ())>)>,
    pub total_other: int,
}

impl View for Checkboxes {
    type V = CheckView;

    open spec fn view(&self) -> CheckView {
        CheckView {
            libs: self.libs_unchecked as int,
            libs_and_former: self.libs_and_former_fcp_unchecked as int,
            other: self.other_unchecked@,
            total_other: self.total_other_unchecked as int,
        }
    }
}

/// An FCP team.
pub struct FcpTeam {
    pub members: Vec<String>,
}

impl View for FcpTeam {
    type V = Seq<Seq<char>>;

    open spec fn view(&self) -> Seq<Seq<char>> {
        string_views(self.members@)
    }
}

/// The FCP teams by name, and the teams of each person.
pub struct FcpTeams {
    pub teams: StrMap<FcpTeam>,
    pub people: StrMap<StrMap<()>>,
}

/// The members and the alumni of the libs team.
pub struct Libs {
    pub members: StrMap<()>,
    pub alumni: StrMap<()>,
}

/// The teams of the project, as far as the agenda needs them.
pub struct Teams {
    pub libs: Libs,
}

/// The people of the FCP teams, each with the teams they are in: `people` with the
/// members of the first `n` teams of `teams` added.
pub open spec fn people_of(teams: Seq<(Seq<char>, Seq<Seq<char>>)>, n: int, people: Seq<(Seq<char>, Seq<(Seq<char>, ())>)>) -> Seq<(Seq<char>, Seq<(Seq<char>, ())>)>
    decreases n,
{
    if n <= 0 {
        people
    } else {
        add_members(people_of(teams, n - 1, people), teams[n - 1].0, teams[n - 1].1, teams[n - 1].1.len() as int)
    }
}

/// `people` with the first `m` of `members` put in the team `team`.
pub open spec fn add_members(people: Seq<(Seq<char>, Seq<(Seq<char>, ())>)>, team: Seq<char>, members: Seq<Seq<char>>, m: int) -> Seq<(Seq<char>, Seq<(Seq<char>, ())>)>
    decreases m,
{
    if m <= 0 {
        people
    } else {
        let p = add_members(people, team, members, m - 1);
        let person = members[m - 1];
        seq_insert(p, person, seq_insert(set_or_empty(lookup(p, person)), team, ()))
    }
}

/// The set in `o`, or the empty set.
pub open spec fn set_or_empty(o: Option<Seq<(Seq<char>, ())>>) -> Seq<(Seq<char>, ())> {
    match o {
        Some(s) => s,
        None => Seq::empty(),
    }
}

/// The first team of `teams`, in order, that is among `labels`.
pub open spec fn first_team_in(teams: Seq<(Seq<char>, ())>, labels: Seq<Seq<char>>) -> Option<Seq<char>>
    decreases teams.len(),
{
    if teams.len() == 0 {
        None
    } else if labels.contains(teams[0].0) {
        Some(teams[0].0)
    } else {
        first_team_in(teams.drop_first(), labels)
    }
}

/// The team under which a member's unchecked box is counted: `A-libs` for the
/// libs FCP team; else the first of their FCP teams that labels the issue; else
/// `A-libs-former-fcp` for members and alumni of the libs team; else `Z-other`.
pub open spec fn reviewer_team(
    people: Seq<(Seq<char>, Seq<(Seq<char>, ())>)>,
    libs: (Seq<(Seq<char>, ())>, Seq<(Seq<char>, ())>),
    labels: Seq<Seq<char>>,
    reviewer: Seq<char>,
) -> Seq<char> {
    let from_teams = match lookup(people, reviewer) {
        Some(teams) => if in_set(teams, "T-libs"@) {
            Some("A-libs"@)
        } else {
            first_team_in(teams, labels)
        },
        None => None,
    };
    match from_teams {
        Some(t) => t,
        None => if in_set(libs.0, reviewer) || in_set(libs.1, reviewer) {
            "A-libs-former-fcp"@
        } else {
            "Z-other"@
        },
    }
}

/// The unchecked boxes among `reviews`, counted.
pub open spec fn tally(
    reviews: Seq<(Seq<char>, bool)>,
    people: Seq<(Seq<char>, Seq<(Seq<char>, ())>)>,
    libs: (Seq<(Seq<char>, ())>, Seq<(Seq<char>, ())>),
    labels: Seq<Seq<char>>,
) -> CheckView
    decreases reviews.len(),
{
    if reviews.len() == 0 {
        CheckView { libs: 0, libs_and_former: 0, other: Seq::empty(), total_other: 0 }
    } else {
        let c = tally(reviews.drop_last(), people, libs, labels);
        let (reviewer, checked) = reviews.last();
        if checked {
            c
        } else {
            let team = reviewer_team(people, libs, labels, reviewer);
            let other = seq_insert(c.other, team, seq_insert(set_or_empty(lookup(c.other, team)), reviewer, ()));
            if has_prefix(team, "A-"@) {
                CheckView {
                    libs: c.libs + (if team.skip(2) == "libs"@ { 1int } else { 0int }),
                    libs_and_former: c.libs_and_former + 1,
                    other,
                    total_other: c.total_other,
                }
            } else {
                CheckView { other, total_other: c.total_other + 1, ..c }
            }
        }
    }
}

/// The number of unchecked boxes among `reviews`.
pub open spec fn unchecked_count(reviews: Seq<(Seq<char>, bool)>) -> int
    decreases reviews.len(),
{
    if reviews.len() == 0 {
        0
    } else {
        unchecked_count(reviews.drop_last()) + if reviews.last().1 { 0int } else { 1int }
    }
}

/// Every unchecked box is counted exactly once: under libs and former FCP members,
/// or under the other teams; the boxes of libs members are among the former.
pub proof fn law_unchecked_boxes_counted(
    reviews: Seq<(Seq<char>, bool)>,
    people: Seq<(Seq<char>, Seq<(Seq<char>, ())>)>,
    libs: (Seq<(Seq<char>, ())>, Seq<(Seq<char>, ())>),
    labels: Seq<Seq<char>>,
)
    ensures
        0 <= tally(reviews, people, libs, labels).libs <= tally(reviews, people, libs, labels).libs_and_former,
        0 <= tally(reviews, people, libs, labels).total_other,
        tally(reviews, people, libs, labels).libs_and_former + tally(reviews, people, libs, labels).total_other == unchecked_count(reviews),
        0 <= unchecked_count(reviews) <= reviews.len(),
    decreases reviews.len(),
{
    if reviews.len() > 0 {
        law_unchecked_boxes_counted(reviews.drop_last(), people, libs, labels);
    }
}

/// Puts `item` in the set stored under `key`, starting an empty set where there is none.
pub fn add_to_set(map: &mut StrMap<StrMap<()>>, key: &str, item: &str)
    ensures
        final(map)@ == seq_insert(old(map)@, key@, seq_insert(set_or_empty(lookup(old(map)@, key@)), item@, ())),
{
    proof {
        use_type_invariant(&*map);
    }
    let ghost m0 = map@;
    let mut set = match map.remove(key) {
        Some(s) => s,
        None => StrMap::new(),
    };
    assert(set@ == set_or_empty(lookup(m0, key@)));
    set.insert(item.to_owned(), ());
    map.insert(key.to_owned(), set);
    proof {
        lemma_insert_after_remove(m0, key@, seq_insert(set_or_empty(lookup(m0, key@)), item@, ()));
    }
}

/// Adds the members of each FCP team to `people`, each with the teams they are in.
pub fn add_people(teams: &StrMap<FcpTeam>, people: &mut StrMap<StrMap<()>>)
    ensures
        final(people)@ == people_of(teams@, teams@.len() as int, old(people)@),
{
    let ghost tv = teams@;
    let ghost p0 = people@;
    let mut t: usize = 0;
    while t < teams.len()
        invariant
            t <= teams@.len(),
            tv == teams@,
            people@ == people_of(tv, t as int, p0),
        decreases teams@.len() - t,
    {
        let (name, team) = teams.entry_at(t);
        let ghost before = people@;
        let mut m: usize = 0;
        while m < team.members.len()
            invariant
                t < tv.len(),
                m <= team.members.len(),
                name@ == tv[t as int].0,
                team@ == tv[t as int].1,
                people@ == add_members(before, name@, team@, m as int),
            decreases team.members.len() - m,
        {
            add_to_set(people, team.members[m].as_str(), name.as_str());
            m = m + 1;
        }
        t = t + 1;
    }
}

/// The first team of `ts`, in order, that is among `labels`.
fn first_team(ts: &StrMap<()>, labels: &Vec<String>) -> (res: Option<String>)
    ensures
        match res {
            Some(t) => first_team_in(ts@, string_views(labels@)) == Some(t@),
            None => first_team_in(ts@, string_views(labels@)) is None,
        },
{
    let ghost lv = string_views(labels@);
    let ghost tsv = ts@;
    let mut i: usize = 0;
    assert(tsv.skip(0) =~= tsv);
    while i < ts.len()
        invariant
            i <= tsv.len(),
            tsv == ts@,
            lv == string_views(labels@),
            first_team_in(tsv, lv) == first_team_in(tsv.skip(i as int), lv),
        decreases tsv.len() - i,
    {
        let (team, _) = ts.entry_at(i);
        assert(tsv.skip(i as int)[0] == tsv[i as int]);
        assert(tsv.skip(i as int).drop_first() =~= tsv.skip(i + 1));
        if contains_str(labels, team.as_str()) {
            return Some(team.clone());
        }
        i = i + 1;
    }
    assert(tsv.skip(tsv.len() as int) =~= Seq::<(Seq<char>, ())>::empty());
    None
}

/// The team under which a member's unchecked box is counted.
pub fn team_of_reviewer(people: &StrMap<StrMap<()>>, teams: &Teams, labels: &Vec<String>, reviewer: &str) -> (res: String)
    ensures
        res@ == reviewer_team(people@, (teams.libs.members@, teams.libs.alumni@), string_views(labels@), reviewer@),
{
    let found: Option<String> = match people.get(reviewer) {
        Some(ts) => {
            if ts.contains_key("T-libs") {
                Some("A-libs".to_owned())
            } else {
                first_team(ts, labels)
            }
        },
        None => None,
    };
    match found {
        Some(t) => t,
        None => {
            if teams.libs.members.contains_key(reviewer) || teams.libs.alumni.contains_key(reviewer) {
                "A-libs-former-fcp".to_owned()
            } else {
                "Z-other".to_owned()
            }
        },
    }
}

/// Counts the unchecked boxes of an FCP.
pub fn tally_checkboxes(fcp: &FcpWithInfo, people: &StrMap<StrMap<()>>, teams: &Teams) -> (res: Checkboxes)
    ensures
        res@ == tally(fcp@.reviews, people@, (teams.libs.members@, teams.libs.alumni@), fcp@.labels),
{
    let ghost rv = fcp@.reviews;
    let ghost libs = (teams.libs.members@, teams.libs.alumni@);
    let ghost lv = fcp@.labels;
    let mut cb = Checkboxes {
        libs_unchecked: 0,
        libs_and_former_fcp_unchecked: 0,
        other_unchecked: StrMap::new(),
        total_other_unchecked: 0,
    };
    let mut i: usize = 0;
    while i < fcp.reviews.len()
        invariant
            i <= fcp.reviews.len(),
            rv == fcp@.reviews,
            rv.len() == fcp.reviews.len(),
            libs == (teams.libs.members@, teams.libs.alumni@),
            lv == fcp@.labels,
            cb@ == tally(rv.take(i as int), people@, libs, lv),
        decreases fcp.reviews.len() - i,
    {
        proof {
            assert(rv.take(i + 1).drop_last() =~= rv.take(i as int));
            assert(rv.take(i + 1).last() == rv[i as int]);
            law_unchecked_boxes_counted(rv.take(i as int), people@, libs, lv);
            assert(unchecked_count(rv.take(i as int)) <= i);
        }
        let (reviewer, checked) = (&fcp.reviews[i].0, fcp.reviews[i].1);
        if !checked {
            let team = team_of_reviewer(people, teams, &fcp.issue.labels, reviewer.as_str());
            let tc = chars_of(team.as_str());
            if starts_with_str(&tc, "A-") {
                proof {
                    reveal_strlit("A-");
                }
                let name = suffix_from(&tc, 2);
                let libs_name = chars_of("libs");
                if crate::strmap::compare_chars(&name, &libs_name) == TextOrder::Equal {
                    cb.libs_unchecked = cb.libs_unchecked + 1;
                }
                cb.libs_and_former_fcp_unchecked = cb.libs_and_former_fcp_unchecked + 1;
            } else {
                cb.total_other_unchecked = cb.total_other_unchecked + 1;
            }
            add_to_set(&mut cb.other_unchecked, team.as_str(), reviewer.as_str());
        }
        i = i + 1;
    }
    assert(rv.take(fcp.reviews.len() as int) =~= rv);
    cb
}

/// The order of the agenda as a sort key, compared lexicographically: FCPs that
/// wait on nothing from libs and have no concern last; fewer concerns first; those
/// libs can check boxes for first; those where libs would reach the N-2 threshold
/// first; fewer remaining boxes first; more libs boxes first; more boxes of libs and
/// former FCP members first.
pub open spec fn fcp_key(c: CheckView, concerns: int) -> Seq<int> {
    seq![
        if c.libs_and_former == 0 && concerns == 0 { 1int } else { 0int },
        concerns,
        if c.libs_and_former > 0 { 0int } else { 1int },
        if c.total_other <= 2 { 0int } else { 1int },
        c.libs_and_former + c.total_other,
        -c.libs,
        -c.libs_and_former,
    ]
}

/// The sort key of an FCP with its counted boxes.
pub open spec fn entry_key(e: (FcpView, CheckView)) -> Seq<int> {
    fcp_key(e.1, e.0.concerns.len() as int)
}

/// `a` sorts before `b` lexicographically.
pub open spec fn key_lt(a: Seq<int>, b: Seq<int>) -> bool
    decreases a.len(),
{
    if a.len() == 0 || b.len() == 0 {
        a.len() < b.len()
    } else if a[0] != b[0] {
        a[0] < b[0]
    } else {
        key_lt(a.drop_first(), b.drop_first())
    }
}

/// `out` holds the items of `input` sorted by their keys, items with equal keys in
/// their order in `input` (a stable sort).
pub open spec fn stably_sorted(input: Seq<(FcpView, CheckView)>, out: Seq<(FcpView, CheckView)>) -> bool {
    exists|p: Seq<int>| #[trigger] is_stable_order(input, out, p)
}

/// `p` says where each item of `out` stands in `input`, and the order of `out` is
/// the order of keys, then of positions in `input`.
pub open spec fn is_stable_order(input: Seq<(FcpView, CheckView)>, out: Seq<(FcpView, CheckView)>, p: Seq<int>) -> bool {
    &&& crate::query::is_index_permutation(p, input.len() as int)
    &&& out.len() == input.len()
    &&& forall|i: int| 0 <= i < out.len() ==> #[trigger] out[i] == input[p[i]]
    &&& forall|i: int, j: int| 0 <= i < j < out.len() ==> #[trigger] before(out[i], p[i], out[j], p[j])
}

/// An item with key-position `(a, pa)` comes before one with `(b, pb)`.
pub open spec fn before(a: (FcpView, CheckView), pa: int, b: (FcpView, CheckView), pb: int) -> bool {
    key_lt(entry_key(a), entry_key(b)) || (entry_key(a) == entry_key(b) && pa < pb)
}

proof fn lemma_key_lt_total(a: Seq<int>, b: Seq<int>)
    requires
        a.len() == b.len(),
    ensures
        a != b ==> key_lt(a, b) || key_lt(b, a),
        !(key_lt(a, b) && key_lt(b, a)),
        !key_lt(a, a),
    decreases a.len(),
{
    if a.len() > 0 {
        lemma_key_lt_total(a.drop_first(), b.drop_first());
        lemma_key_lt_total(a.drop_first(), a.drop_first());
        if a != b && a[0] == b[0] {
            assert(a =~= seq![a[0]] + a.drop_first());
            assert(b =~= seq![b[0]] + b.drop_first());
        }
    } else {
        assert(a =~= b);
    }
}

proof fn lemma_key_lt_transitive(a: Seq<int>, b: Seq<int>, c: Seq<int>)
    requires
        key_lt(a, b),
        key_lt(b, c),
        a.len() == b.len(),
        b.len() == c.len(),
    ensures
        key_lt(a, c),
    decreases a.len(),
{
    if a.len() > 0 && a[0] == b[0] && b[0] == c[0] {
        lemma_key_lt_transitive(a.drop_first(), b.drop_first(), c.drop_first());
    }
}

/// The sort key of an FCP, as numbers.
fn key_of(e: &(FcpWithInfo, Checkboxes)) -> (k: Vec<i128>)
    ensures
        k@.len() == 7,
        forall|i: int| 0 <= i < 7 ==> #[trigger] k@[i] as int == entry_key((e.0@, e.1@))[i],
{
    let c = &e.1;
    let n = e.0.concerns.len();
    let lf = c.libs_and_former_fcp_unchecked as i128;
    let to = c.total_other_unchecked as i128;
    let mut k: Vec<i128> = Vec::new();
    k.push(if lf == 0 && n == 0 { 1 } else { 0 });
    k.push(n as i128);
    k.push(if lf > 0 { 0 } else { 1 });
    k.push(if to <= 2 { 0 } else { 1 });
    k.push(lf + to);
    k.push(-(c.libs_unchecked as i128));
    k.push(-lf);
    proof {
        let ek = entry_key((e.0@, e.1@));
        assert(e.0@.concerns.len() == n);
        assert(k@[0] as int == ek[0]);
        assert(k@[1] as int == ek[1]);
        assert(k@[6] as int == ek[6]);
    }
    k
}

/// Whether the key `a` sorts before the key `b`.
fn key_less(a: &Vec<i128>, b: &Vec<i128>) -> (res: bool)
    requires
        a@.len() == b@.len(),
    ensures
        res == key_lt(a@.map_values(|x: i128| x as int), b@.map_values(|x: i128| x as int)),
{
    let ghost av = a@.map_values(|x: i128| x as int);
    let ghost bv = b@.map_values(|x: i128| x as int);
    let mut i: usize = 0;
    assert(av.skip(0) =~= av);
    assert(bv.skip(0) =~= bv);
    while i < a.len()
        invariant
            i <= a@.len(),
            a@.len() == b@.len(),
            av == a@.map_values(|x: i128| x as int),
            bv == b@.map_values(|x: i128| x as int),
            key_lt(av, bv) == key_lt(av.skip(i as int), bv.skip(i as int)),
        decreases a.len() - i,
    {
        assert(av.skip(i as int)[0] == a@[i as int] as int);
        assert(bv.skip(i as int)[0] == b@[i as int] as int);
        assert(av.skip(i as int).drop_first() =~= av.skip(i + 1));
        assert(bv.skip(i as int).drop_first() =~= bv.skip(i + 1));
        if a[i] != b[i] {
            return a[i] < b[i];
        }
        i = i + 1;
    }
    false
}

/// Where two keys agree before position `k` and the first is larger at `k`, the
/// first does not sort before the second, and they differ.
proof fn lemma_key_lt_at(a: Seq<int>, b: Seq<int>, k: int)
    requires
        a.len() == b.len(),
        0 <= k < a.len(),
        forall|j: int| 0 <= j < k ==> a[j] == b[j],
        a[k] > b[k],
    ensures
        !key_lt(a, b),
        a != b,
    decreases k,
{
    if k > 0 {
        lemma_key_lt_at(a.drop_first(), b.drop_first(), k - 1);
    }
}

/// An FCP on which libs and former FCP members have nothing left to check and
/// that has no concern.
pub open spec fn settled(e: (FcpView, CheckView)) -> bool {
    e.1.libs_and_former == 0 && e.0.concerns.len() == 0
}

/// The boxes still unchecked on an FCP, by anyone.
pub open spec fn remaining(e: (FcpView, CheckView)) -> int {
    e.1.libs_and_former + e.1.total_other
}

/// Two unsettled FCPs with the same number of concerns, on both of which libs can
/// check boxes or on neither, and both within the N-2 threshold or neither.
pub open spec fn tied_up_to_remaining(a: (FcpView, CheckView), b: (FcpView, CheckView)) -> bool {
    &&& !settled(a) && !settled(b)
    &&& a.0.concerns.len() == b.0.concerns.len()
    &&& (a.1.libs_and_former > 0) == (b.1.libs_and_former > 0)
    &&& (a.1.total_other <= 2) == (b.1.total_other <= 2)
}

/// Among unsettled FCPs with equal concerns, those libs can check boxes on come
/// first; then those within the N-2 threshold; then fewer remaining boxes; then
/// more boxes of libs; then more boxes of libs and former FCP members.
pub proof fn law_fcp_order_by_boxes(input: Seq<(FcpView, CheckView)>, out: Seq<(FcpView, CheckView)>)
    requires
        stably_sorted(input, out),
    ensures
        forall|i: int, j: int| 0 <= i < j < out.len() && !settled(#[trigger] out[i]) && !settled(#[trigger] out[j])
            && out[i].0.concerns.len() == out[j].0.concerns.len() && out[j].1.libs_and_former > 0
            ==> out[i].1.libs_and_former > 0,
        forall|i: int, j: int| 0 <= i < j < out.len() && !settled(#[trigger] out[i]) && !settled(#[trigger] out[j])
            && out[i].0.concerns.len() == out[j].0.concerns.len()
            && (out[i].1.libs_and_former > 0) == (out[j].1.libs_and_former > 0) && out[i].1.total_other > 2
            ==> out[j].1.total_other > 2,
        forall|i: int, j: int| 0 <= i < j < out.len() && #[trigger] tied_up_to_remaining(out[i], out[j])
            ==> remaining(out[i]) <= remaining(out[j]),
        forall|i: int, j: int| 0 <= i < j < out.len() && #[trigger] tied_up_to_remaining(out[i], out[j])
            && remaining(out[i]) == remaining(out[j]) ==> out[i].1.libs >= out[j].1.libs,
        forall|i: int, j: int| 0 <= i < j < out.len() && #[trigger] tied_up_to_remaining(out[i], out[j])
            && remaining(out[i]) == remaining(out[j]) && out[i].1.libs == out[j].1.libs
            ==> out[i].1.libs_and_former >= out[j].1.libs_and_former,
{
    let p = choose|p: Seq<int>| #[trigger] is_stable_order(input, out, p);
    assert forall|i: int, j: int| 0 <= i < j < out.len() implies !key_lt(entry_key(out[j]), entry_key(out[i])) by {
        assert(before(out[i], p[i], out[j], p[j]));
        let a = entry_key(out[i]);
        let b = entry_key(out[j]);
        lemma_key_lt_total(a, b);
    }
    assert forall|i: int, j: int| 0 <= i < j < out.len() && !settled(#[trigger] out[i]) && !settled(#[trigger] out[j])
        && out[i].0.concerns.len() == out[j].0.concerns.len() && out[j].1.libs_and_former > 0
        implies out[i].1.libs_and_former > 0 by {
        assert(!key_lt(entry_key(out[j]), entry_key(out[i])));
        if !(out[i].1.libs_and_former > 0) {
            lemma_key_lt_at(entry_key(out[i]), entry_key(out[j]), 2);
            lemma_key_lt_total(entry_key(out[i]), entry_key(out[j]));
        }
    }
    assert forall|i: int, j: int| 0 <= i < j < out.len() && !settled(#[trigger] out[i]) && !settled(#[trigger] out[j])
        && out[i].0.concerns.len() == out[j].0.concerns.len()
        && (out[i].1.libs_and_former > 0) == (out[j].1.libs_and_former > 0) && out[i].1.total_other > 2
        implies out[j].1.total_other > 2 by {
        assert(!key_lt(entry_key(out[j]), entry_key(out[i])));
        if out[j].1.total_other <= 2 {
            lemma_key_lt_at(entry_key(out[i]), entry_key(out[j]), 3);
            lemma_key_lt_total(entry_key(out[i]), entry_key(out[j]));
        }
    }
    assert forall|i: int, j: int| 0 <= i < j < out.len() && #[trigger] tied_up_to_remaining(out[i], out[j])
        implies remaining(out[i]) <= remaining(out[j]) by {
        assert(!key_lt(entry_key(out[j]), entry_key(out[i])));
        if remaining(out[i]) > remaining(out[j]) {
            lemma_key_lt_at(entry_key(out[i]), entry_key(out[j]), 4);
            lemma_key_lt_total(entry_key(out[i]), entry_key(out[j]));
        }
    }
    assert forall|i: int, j: int| 0 <= i < j < out.len() && #[trigger] tied_up_to_remaining(out[i], out[j])
        && remaining(out[i]) == remaining(out[j]) implies out[i].1.libs >= out[j].1.libs by {
        assert(!key_lt(entry_key(out[j]), entry_key(out[i])));
        if out[i].1.libs < out[j].1.libs {
            lemma_key_lt_at(entry_key(out[i]), entry_key(out[j]), 5);
            lemma_key_lt_total(entry_key(out[i]), entry_key(out[j]));
        }
    }
    assert forall|i: int, j: int| 0 <= i < j < out.len() && #[trigger] tied_up_to_remaining(out[i], out[j])
        && remaining(out[i]) == remaining(out[j]) && out[i].1.libs == out[j].1.libs
        implies out[i].1.libs_and_former >= out[j].1.libs_and_former by {
        assert(!key_lt(entry_key(out[j]), entry_key(out[i])));
        if out[i].1.libs_and_former < out[j].1.libs_and_former {
            lemma_key_lt_at(entry_key(out[i]), entry_key(out[j]), 6);
            lemma_key_lt_total(entry_key(out[i]), entry_key(out[j]));
        }
    }
}

/// In the agenda's order of FCPs, the settled ones come after all others, and among
/// the others those with fewer concerns come first.
pub proof fn law_fcp_order(input: Seq<(FcpView, CheckView)>, out: Seq<(FcpView, CheckView)>)
    requires
        stably_sorted(input, out),
    ensures
        forall|i: int, j: int| 0 <= i < j < out.len() && settled(#[trigger] out[i]) ==> settled(#[trigger] out[j]),
        forall|i: int, j: int| 0 <= i < j < out.len() && !settled(#[trigger] out[i]) && !settled(#[trigger] out[j])
            ==> out[i].0.concerns.len() <= out[j].0.concerns.len(),
{
    let p = choose|p: Seq<int>| #[trigger] is_stable_order(input, out, p);
    assert forall|i: int, j: int| 0 <= i < j < out.len() && settled(#[trigger] out[i]) implies settled(#[trigger] out[j]) by {
        assert(before(out[i], p[i], out[j], p[j]));
        let a = entry_key(out[i]);
        let b = entry_key(out[j]);
        if !settled(out[j]) {
            assert(a[0] == 1 && b[0] == 0);
            assert(!key_lt(a, b));
            assert(a != b);
        }
    }
    assert forall|i: int, j: int| 0 <= i < j < out.len() && !settled(#[trigger] out[i]) && !settled(#[trigger] out[j])
        implies out[i].0.concerns.len() <= out[j].0.concerns.len() by {
        assert(before(out[i], p[i], out[j], p[j]));
        let a = entry_key(out[i]);
        let b = entry_key(out[j]);
        assert(a[0] == 0 && b[0] == 0);
        assert(a.drop_first()[0] == out[i].0.concerns.len());
        assert(b.drop_first()[0] == out[j].0.concerns.len());
        if out[i].0.concerns.len() > out[j].0.concerns.len() {
            assert(!key_lt(a.drop_first(), b.drop_first()));
            assert(!key_lt(a, b));
            assert(a[1] != b[1]);
            assert(a != b);
        }
    }
}

/// The views of FCPs paired with their counted boxes.
pub open spec fn entry_views(v: Seq<(FcpWithInfo, Checkboxes)>) -> Seq<(FcpView, CheckView)> {
    v.map_values(|e: (FcpWithInfo, Checkboxes)| (e.0@, e.1@))
}

/// Sorts FCPs by their sort key, keeping the order of FCPs with equal keys.
pub fn sort_fcps(v: Vec<(FcpWithInfo, Checkboxes)>) -> (res: Vec<(FcpWithInfo, Checkboxes)>)
    ensures
        stably_sorted(entry_views(v@), entry_views(res@)),
{
    let ghost input = entry_views(v@);
    let ghost orig = v@;
    let n = v.len();
    let mut rev = reverse_vec(v);
    assert(orig.skip(0) =~= orig);
    let mut res: Vec<(FcpWithInfo, Checkboxes)> = Vec::new();
    let mut keys: Vec<Vec<i128>> = Vec::new();
    let ghost mut p: Seq<int> = Seq::empty();
    let mut i: usize = 0;
    while i < n
        invariant
            i <= n,
            n == input.len(),
            input == entry_views(orig),
            rev@ == orig.skip(i as int).reverse(),
            res@.len() == i,
            keys@.len() == i,
            p.len() == i,
            forall|j: int| 0 <= j < i ==> 0 <= #[trigger] p[j] < i,
            forall|j: int, k: int| 0 <= j < i && 0 <= k < i && j != k ==> #[trigger] p[j] != #[trigger] p[k],
            forall|j: int| 0 <= j < i ==> #[trigger] entry_views(res@)[j] == input[p[j]],
            forall|j: int| 0 <= j < i ==> (#[trigger] keys@[j])@.len() == 7 && keys@[j]@.map_values(|x: i128| x as int) == entry_key(entry_views(res@)[j]),
            forall|j: int, k: int| 0 <= j < k < i ==> #[trigger] before(entry_views(res@)[j], p[j], entry_views(res@)[k], p[k]),
        decreases n - i,
    {
        assert(rev@.len() == n - i);
        let x = rev.pop().unwrap();
        assert(x == orig[i as int]);
        assert(rev@ =~= orig.skip(i + 1).reverse());
        let kx = key_of(&x);
        let ghost xv = (x.0@, x.1@);
        assert(xv == input[i as int]);
        assert(kx@.map_values(|x: i128| x as int) =~= entry_key(xv));
        // the first position whose key is above that of x
        let mut pos: usize = 0;
        while pos < keys.len() && !key_less(&kx, &keys[pos])
            invariant
                pos <= keys@.len(),
                keys@.len() == i,
                kx@.len() == 7,
                kx@.map_values(|x: i128| x as int) == entry_key(xv),
                forall|j: int| 0 <= j < i ==> (#[trigger] keys@[j])@.len() == 7 && keys@[j]@.map_values(|x: i128| x as int) == entry_key(entry_views(res@)[j]),
                forall|j: int| 0 <= j < pos ==> !key_lt(entry_key(xv), entry_key(#[trigger] entry_views(res@)[j])),
            decreases keys@.len() - pos,
        {
            pos = pos + 1;
        }
        let ghost old_res = entry_views(res@);
        let ghost old_p = p;
        proof {
            // keys after pos are above x: the first one is, and keys only grow
            assert forall|j: int| pos <= j < i implies key_lt(entry_key(xv), entry_key(#[trigger] old_res[j])) by {
                if pos < i {
                    assert(key_lt(entry_key(xv), entry_key(old_res[pos as int])));
                    if j > pos {
                        assert(before(old_res[pos as int], old_p[pos as int], old_res[j], old_p[j]));
                        if key_lt(entry_key(old_res[pos as int]), entry_key(old_res[j])) {
                            lemma_key_lt_transitive(entry_key(xv), entry_key(old_res[pos as int]), entry_key(old_res[j]));
                        }
                    }
                }
            }
        }
        res.insert(pos, x);
        keys.insert(pos, kx);
        proof {
            p = old_p.insert(pos as int, i as int);
            let nr = entry_views(res@);
            assert(nr =~= old_res.insert(pos as int, xv));
            assert forall|j: int| 0 <= j < i + 1 implies #[trigger] entry_views(res@)[j] == input[p[j]] by {
                if j < pos {
                    assert(nr[j] == old_res[j]);
                } else if j > pos {
                    assert(nr[j] == old_res[j - 1]);
                }
            }
            assert forall|j: int, k: int| 0 <= j < k < i + 1 implies #[trigger] before(entry_views(res@)[j], p[j], entry_views(res@)[k], p[k]) by {
                lemma_key_lt_total(entry_key(xv), entry_key(xv));
                if j < pos && k < pos {
                    assert(before(old_res[j], old_p[j], old_res[k], old_p[k]));
                } else if j > pos && k > pos {
                    assert(before(old_res[j - 1], old_p[j - 1], old_res[k - 1], old_p[k - 1]));
                } else if j < pos && k > pos {
                    assert(before(old_res[j], old_p[j], old_res[k - 1], old_p[k - 1]));
                } else if j == pos {
                    assert(key_lt(entry_key(xv), entry_key(old_res[k - 1])));
                } else {
                    // k == pos, j < pos
                    lemma_key_lt_total(entry_key(old_res[j]), entry_key(xv));
                    assert(!key_lt(entry_key(xv), entry_key(old_res[j])));
                }
            }
            assert forall|j: int| 0 <= j < i + 1 implies (#[trigger] keys@[j])@.len() == 7 && keys@[j]@.map_values(|x: i128| x as int) == entry_key(entry_views(res@)[j]) by {
                if j < pos {
                } else if j > pos {
                } else {
                }
            }
        }
        i = i + 1;
    }
    proof {
        assert(crate::query::is_index_permutation(p, n as int));
        assert(is_stable_order(input, entry_views(res@), p));
    }
    res
}

/// The link to a comment on the issue of an FCP.
pub open spec fn comment_link(f: FcpView, comment: u64) -> Seq<char> {
    "https://github.com/"@ + f.repository + "/issues/"@ + signed_decimal(f.number as int) + "#issuecomment-"@ + decimal(comment as nat)
}

/// A team's name as the agenda shows it: the part after its first `-`.
pub open spec fn team_suffix(name: Seq<char>) -> Seq<char> {
    match split_once_at(name, '-') {
        Some((_, after)) => after,
        None => name,
    }
}

/// Links to the rfcbot pages of the members.
pub open spec fn reviewer_links(rs: Seq<(Seq<char>, ())>) -> Seq<char>
    decreases rs.len(),
{
    if rs.len() == 0 {
        Seq::empty()
    } else {
        reviewer_links(rs.drop_last()) + " [@"@ + rs.last().0 + "](https://rfcbot.rs/fcp/"@ + rs.last().0 + ")"@
    }
}

/// One line for each team whose boxes are missing, with its members.
pub open spec fn team_lines(other: Seq<(Seq<char>, Seq<(Seq<char>, ())>)>) -> Seq<char>
    decreases other.len(),
{
    if other.len() == 0 {
        Seq::empty()
    } else {
        let (name, members) = other.last();
        team_lines(other.drop_last()) + "- needs "@ + decimal(members.len()) + " "@ + team_suffix(name) + ":"@
            + reviewer_links(members) + "\n"@
    }
}

/// One line for each concern of the FCP `f`, from the `n`-th on... up to `n`.
pub open spec fn concern_lines(f: FcpView, n: int) -> Seq<char>
    decreases n,
{
    if n <= 0 {
        Seq::empty()
    } else {
        let (c, id) = f.concerns[n - 1];
        concern_lines(f, n - 1) + "- blocked by concern: ["@ + c + "]("@ + shortened(comment_link(f, id), Shorten::Href) + ")\n"@
    }
}

/// What the agenda shows for one FCP.
pub open spec fn fcp_entry(f: FcpView, c: CheckView) -> Seq<char> {
    "#### "@ + shortened(comment_link(f, f.status_comment_id), Shorten::Text) + " "@ + escaped(f.title) + "\n"@
        + (if c.libs_and_former == 0 && c.total_other == 0 {
        "- has all checkboxes\n"@
    } else {
        team_lines(c.other)
    }) + concern_lines(f, f.concerns.len() as int) + "\n"@
}

/// What the agenda shows for a list of FCPs, in order.
pub open spec fn fcp_entries(s: Seq<(FcpView, CheckView)>) -> Seq<char>
    decreases s.len(),
{
    if s.len() == 0 {
        Seq::empty()
    } else {
        fcp_entries(s.drop_last()) + fcp_entry(s.last().0, s.last().1)
    }
}

/// The FCP section of an agenda.
pub open spec fn fcp_section(s: Seq<(FcpView, CheckView)>) -> Seq<char> {
    "## FCPs\n"@ + "\n"@ + fcp_entries(s) + "\n"@
}

/// The FCPs whose issue carries `label`, in order.
pub open spec fn labelled(fs: Seq<FcpView>, label: Seq<char>) -> Seq<FcpView>
    decreases fs.len(),
{
    if fs.len() == 0 {
        Seq::empty()
    } else if fs.last().labels.contains(label) {
        labelled(fs.drop_last(), label).push(fs.last())
    } else {
        labelled(fs.drop_last(), label)
    }
}

/// The FCPs, each with its unchecked boxes counted.
pub open spec fn with_tally(
    fs: Seq<FcpView>,
    people: Seq<(Seq<char>, Seq<(Seq<char>, ())>)>,
    libs: (Seq<(Seq<char>, ())>, Seq<(Seq<char>, ())>),
) -> Seq<(FcpView, CheckView)> {
    fs.map_values(|f: FcpView| (f, tally(f.reviews, people, libs, f.labels)))
}

/// The link to a comment on the issue of an FCP.
fn comment_link_text(f: &FcpWithInfo, comment: u64) -> (res: Vec<char>)
    ensures
        res@ == comment_link(f@, comment),
{
    let mut out: Vec<char> = Vec::new();
    push_str(&mut out, "https://github.com/");
    push_str(&mut out, f.issue.repository.as_str());
    push_str(&mut out, "/issues/");
    let num = format_i64(f.issue.number as i64);
    push_chars(&mut out, &num);
    push_str(&mut out, "#issuecomment-");
    let id = format_u64(comment);
    push_chars(&mut out, &id);
    out
}

/// What the agenda shows for one FCP.
#[verifier::spinoff_prover]
#[verifier::rlimit(40)]
fn fcp_entry_text(f: &FcpWithInfo, c: &Checkboxes) -> (res: Vec<char>)
    ensures
        res@ == fcp_entry(f@, c@),
{
    let mut out: Vec<char> = Vec::new();
    push_str(&mut out, "#### ");
    let link = comment_link_text(f, f.status_comment_id);
    let short = shorten(crate::text::string_of(&link).as_str(), Shorten::Text);
    push_str(&mut out, short.as_str());
    push_str(&mut out, " ");
    let title = escape(f.issue.title.as_str());
    push_str(&mut out, title.as_str());
    push_str(&mut out, "\n");
    if c.libs_and_former_fcp_unchecked == 0 && c.total_other_unchecked == 0 {
        push_str(&mut out, "- has all checkboxes\n");
    } else {
        let ghost ov = c.other_unchecked@;
        let ghost start = out@;
        let mut t: usize = 0;
        while t < c.other_unchecked.len()
            invariant
                t <= ov.len(),
                ov == c.other_unchecked@,
                out@ == start + team_lines(ov.take(t as int)),
            decreases ov.len() - t,
        {
            let (name, team) = c.other_unchecked.entry_at(t);
            assert(ov.take(t + 1).drop_last() =~= ov.take(t as int));
            assert(ov.take(t + 1).last() == ov[t as int]);
            let nc = chars_of(name.as_str());
            let shown = match split_once(&nc, '-') {
                Some((_, after)) => after,
                None => nc,
            };
            push_str(&mut out, "- needs ");
            let count = format_u64(team.len() as u64);
            push_chars(&mut out, &count);
            push_str(&mut out, " ");
            push_chars(&mut out, &shown);
            push_str(&mut out, ":");
            let ghost tv = team@;
            let ghost start2 = out@;
            let mut r: usize = 0;
            while r < team.len()
                invariant
                    r <= tv.len(),
                    tv == team@,
                    out@ == start2 + reviewer_links(tv.take(r as int)),
                decreases tv.len() - r,
            {
                let (reviewer, _) = team.entry_at(r);
                assert(tv.take(r + 1).drop_last() =~= tv.take(r as int));
                assert(tv.take(r + 1).last() == tv[r as int]);
                push_str(&mut out, " [@");
                push_str(&mut out, reviewer.as_str());
                push_str(&mut out, "](https://rfcbot.rs/fcp/");
                push_str(&mut out, reviewer.as_str());
                push_str(&mut out, ")");
                r = r + 1;
            }
            assert(tv.take(tv.len() as int) =~= tv);
            push_str(&mut out, "\n");
            t = t + 1;
        }
        assert(ov.take(ov.len() as int) =~= ov);
    }
    let ghost fv = f@;
    let ghost start3 = out@;
    let mut k: usize = 0;
    while k < f.concerns.len()
        invariant
            k <= f.concerns.len(),
            fv == f@,
            fv.concerns.len() == f.concerns.len(),
            out@ == start3 + concern_lines(fv, k as int),
        decreases f.concerns.len() - k,
    {
        let concern = &f.concerns[k];
        push_str(&mut out, "- blocked by concern: [");
        push_str(&mut out, concern.name.as_str());
        push_str(&mut out, "](");
        let link = comment_link_text(f, concern.comment_id);
        let short = shorten(crate::text::string_of(&link).as_str(), Shorten::Href);
        push_str(&mut out, short.as_str());
        push_str(&mut out, ")\n");
        k = k + 1;
    }
    push_str(&mut out, "\n");
    out
}

impl Generator {
    /// Writes the FCP section: the FCPs whose issue carries `label`, each with the
    /// boxes still unchecked by team, in the order of the agenda (see `fcp_key`).
    pub fn write_fcps(&mut self, label: &str, fcps: Vec<FcpWithInfo>, fcp_teams: &FcpTeams, teams: &Teams)
        ensures
            exists|order: Seq<(FcpView, CheckView)>| {
                &&& stably_sorted(
                    with_tally(labelled(fcp_views(fcps@), label@), fcp_teams.people@, (teams.libs.members@, teams.libs.alumni@)),
                    order,
                )
                &&& final(self).agenda_view() == old(self).agenda_view() + fcp_section(order)
            },
            final(self).seen_view() == old(self).seen_view(),
    {
        let ghost libs = (teams.libs.members@, teams.libs.alumni@);
        let ghost people = fcp_teams.people@;
        let ghost orig = fcps@;
        let ghost fv = fcp_views(orig);
        let n = fcps.len();
        let mut rev = reverse_vec(fcps);
        assert(orig.skip(0) =~= orig);
        let mut tallied: Vec<(FcpWithInfo, Checkboxes)> = Vec::new();
        let mut i: usize = 0;
        while i < n
            invariant
                i <= n,
                n == orig.len(),
                fv == fcp_views(orig),
                rev@ == orig.skip(i as int).reverse(),
                people == fcp_teams.people@,
                libs == (teams.libs.members@, teams.libs.alumni@),
                entry_views(tallied@) == with_tally(labelled(fv.take(i as int), label@), people, libs),
            decreases n - i,
        {
            assert(rev@.len() == n - i);
            let f = rev.pop().unwrap();
            assert(f == orig[i as int]);
            assert(rev@ =~= orig.skip(i + 1).reverse());
            assert(fv.take(i + 1).drop_last() =~= fv.take(i as int));
            assert(fv.take(i + 1).last() == f@);
            if contains_str(&f.issue.labels, label) {
                let c = tally_checkboxes(&f, &fcp_teams.people, teams);
                let ghost before = tallied@;
                let ghost fw = f@;
                let ghost cw = c@;
                assert(labelled(fv.take(i + 1), label@) == labelled(fv.take(i as int), label@).push(fw));
                tallied.push((f, c));
                assert(entry_views(tallied@) =~= entry_views(before).push((fw, cw)));
                assert(with_tally(labelled(fv.take(i + 1), label@), people, libs) =~= with_tally(labelled(fv.take(i as int), label@), people, libs).push((fw, cw)));
            }
            i = i + 1;
        }
        assert(fv.take(n as int) =~= fv);
        let ghost input = entry_views(tallied@);
        let sorted = sort_fcps(tallied);
        let ghost order = entry_views(sorted@);
        self.write_str("## FCPs\n");
        self.write_str("\n");
        let ghost start = self.agenda_view();
        let mut k: usize = 0;
        while k < sorted.len()
            invariant
                k <= sorted.len(),
                order == entry_views(sorted@),
                self.agenda_view() == start + fcp_entries(order.take(k as int)),
                self.seen_view() == old(self).seen_view(),
            decreases sorted.len() - k,
        {
            let e = &sorted[k];
            let text = fcp_entry_text(&e.0, &e.1);
            self.write_chars(&text);
            assert(order.take(k + 1).drop_last() =~= order.take(k as int));
            assert(order.take(k + 1).last() == (e.0@, e.1@));
            k = k + 1;
        }
        assert(order.take(sorted.len() as int) =~= order);
        self.write_str("\n");
        assert(self.agenda_view() =~= old(self).agenda_view() + fcp_section(order));
    }

    /// Writes the FCP section after working out the teams of each person from the
    /// members of each FCP team.
    pub fn fcps(&mut self, label: &str, fcps: Vec<FcpWithInfo>, fcp_teams: FcpTeams, teams: &Teams)
        ensures
            exists|order: Seq<(FcpView, CheckView)>| {
                &&& stably_sorted(
                    with_tally(
                        labelled(fcp_views(fcps@), label@),
                        people_of(fcp_teams.teams@, fcp_teams.teams@.len() as int, fcp_teams.people@),
                        (teams.libs.members@, teams.libs.alumni@),
                    ),
                    order,
                )
                &&& final(self).agenda_view() == old(self).agenda_view() + fcp_section(order)
            },
            final(self).seen_view() == old(self).seen_view(),
    {
        let mut fcp_teams = fcp_teams;
        add_people(&fcp_teams.teams, &mut fcp_teams.people);
        self.write_fcps(label, fcps, &fcp_teams, teams);
    }
}

} // verus!
