//! Contributors to the files of the standard library: reading `git log`, and adding
//! up the contributions of each file to each directory above it.

use vstd::prelude::*;

use crate::strmap::{
    compare_chars, compare_text, keys_sorted, lemma_lookup_index, lemma_lookup_none, lemma_lookup_push,
    lemma_text_lt_irreflexive, text_lt,
    lemma_insert_after_remove, lemma_insert_lookup, lemma_map_vals, lookup, map_vals, seq_insert,
    seq_remove, StrMap, TextOrder,
};
use crate::text::{
    chars_of, find_sub, first_word, first_word_of, lines, lines_of, parse_unsigned, parse_usize,
    push_chars, split_first, split_first_str, string_of, string_views,
};

verus! {

/// The directories above a path and the path itself, as `Path::ancestors` lists
/// them: the path first, then each parent in turn.
pub uninterp spec fn path_ancestors(p: Seq<char>) -> Seq<Seq<char>>;

/// `std::path::Path::ancestors`, each written back as text. Its documentation
/// promises that the path itself comes first; what its parents are is left to the
/// name `path_ancestors`.
#[verifier::external_body]
fn ancestors_of(p: &str) -> (res: Vec<String>)
    ensures
        string_views(res@) == path_ancestors(p@),
        res@.len() >= 1,
        res@[0]@ == p@,
{
    std::path::Path::new(p).ancestors().map(|a| a.to_string_lossy().into_owned()).collect()
}

/// The contributions of each author, as numbers.
pub open spec fn counts_view(m: Seq<(Seq<char>, usize)>) -> Seq<(Seq<char>, int)> {
    map_vals(m, |n: usize| n as int)
}

/// The contributions by directory and author, as numbers.
pub open spec fn table_view(m: Seq<(Seq<char>, Seq<(Seq<char>, usize)>)>) -> Seq<(Seq<char>, Seq<(Seq<char>, int)>)> {
    map_vals(m, |c: Seq<(Seq<char>, usize)>| counts_view(c))
}

/// What `author` has in `counts`: zero where the author is absent.
pub open spec fn cval(counts: Seq<(Seq<char>, int)>, author: Seq<char>) -> int {
    match lookup(counts, author) {
        Some(n) => n,
        None => 0,
    }
}

/// The counts of `dir` in the table: empty where the directory is absent.
pub open spec fn counts_of(table: Seq<(Seq<char>, Seq<(Seq<char>, int)>)>, dir: Seq<char>) -> Seq<(Seq<char>, int)> {
    match lookup(table, dir) {
        Some(c) => c,
        None => Seq::empty(),
    }
}

/// What `author` has under `dir` in the table.
pub open spec fn tval(table: Seq<(Seq<char>, Seq<(Seq<char>, int)>)>, dir: Seq<char>, author: Seq<char>) -> int {
    cval(counts_of(table, dir), author)
}

/// `counts` with `size` added to what `author` has.
pub open spec fn add_count(counts: Seq<(Seq<char>, int)>, author: Seq<char>, size: int) -> Seq<(Seq<char>, int)> {
    seq_insert(counts, author, cval(counts, author) + size)
}

/// `counts` with the first `n` contributions of `contribs` added.
pub open spec fn add_counts(counts: Seq<(Seq<char>, int)>, contribs: Seq<(Seq<char>, int)>, n: int) -> Seq<(Seq<char>, int)>
    decreases n,
{
    if n <= 0 {
        counts
    } else {
        add_count(add_counts(counts, contribs, n - 1), contribs[n - 1].0, contribs[n - 1].1)
    }
}

/// The table with the contributions `contribs` added to each of the first `n`
/// directories of `dirs`.
pub open spec fn add_to_dirs(
    table: Seq<(Seq<char>, Seq<(Seq<char>, int)>)>,
    dirs: Seq<Seq<char>>,
    contribs: Seq<(Seq<char>, int)>,
    n: int,
) -> Seq<(Seq<char>, Seq<(Seq<char>, int)>)>
    decreases n,
{
    if n <= 0 {
        table
    } else {
        let t = add_to_dirs(table, dirs, contribs, n - 1);
        let dir = dirs[n - 1];
        seq_insert(t, dir, add_counts(counts_of(t, dir), contribs, contribs.len() as int))
    }
}

/// The contributions of the first `n` files, added up for each directory above
/// them (and for the files themselves).
pub open spec fn contributions_by_dir(files: Seq<(Seq<char>, Seq<(Seq<char>, int)>)>, n: int) -> Seq<(Seq<char>, Seq<(Seq<char>, int)>)>
    decreases n,
{
    if n <= 0 {
        Seq::empty()
    } else {
        let t = contributions_by_dir(files, n - 1);
        let dirs = path_ancestors(files[n - 1].0);
        add_to_dirs(t, dirs, files[n - 1].1, dirs.len() as int)
    }
}

/// No contribution is negative.
pub open spec fn counts_nonneg(files: Seq<(Seq<char>, Seq<(Seq<char>, int)>)>) -> bool {
    forall|i: int, j: int| 0 <= i < files.len() && 0 <= j < files[i].1.len() ==> #[trigger] files[i].1[j].1 >= 0
}

/// Adding to one author changes what that author has by the size added, and
/// nobody else's count.
proof fn lemma_add_count(counts: Seq<(Seq<char>, int)>, author: Seq<char>, size: int)
    ensures
        forall|a: Seq<char>| #[trigger] cval(add_count(counts, author, size), a)
            == cval(counts, a) + if a == author { size } else { 0 },
{
    lemma_insert_lookup(counts, author, cval(counts, author) + size);
}

/// Adding more non-negative contributions never lowers a count.
proof fn lemma_add_counts_mono(counts: Seq<(Seq<char>, int)>, contribs: Seq<(Seq<char>, int)>, m: int, n: int)
    requires
        0 <= m <= n <= contribs.len(),
        forall|j: int| 0 <= j < contribs.len() ==> #[trigger] contribs[j].1 >= 0,
    ensures
        forall|a: Seq<char>| #[trigger] cval(add_counts(counts, contribs, m), a) <= cval(add_counts(counts, contribs, n), a),
    decreases n,
{
    if m < n {
        lemma_add_counts_mono(counts, contribs, m, n - 1);
        lemma_add_count(add_counts(counts, contribs, n - 1), contribs[n - 1].0, contribs[n - 1].1);
        assert forall|a: Seq<char>| #[trigger] cval(add_counts(counts, contribs, m), a) <= cval(add_counts(counts, contribs, n), a) by {
            assert(cval(add_counts(counts, contribs, m), a) <= cval(add_counts(counts, contribs, n - 1), a));
        }
    }
}

/// Adding non-negative contributions to more directories never lowers a count.
proof fn lemma_add_to_dirs_mono(
    table: Seq<(Seq<char>, Seq<(Seq<char>, int)>)>,
    dirs: Seq<Seq<char>>,
    contribs: Seq<(Seq<char>, int)>,
    m: int,
    n: int,
)
    requires
        0 <= m <= n,
        forall|j: int| 0 <= j < contribs.len() ==> #[trigger] contribs[j].1 >= 0,
    ensures
        forall|d: Seq<char>, a: Seq<char>| #[trigger] tval(add_to_dirs(table, dirs, contribs, m), d, a)
            <= tval(add_to_dirs(table, dirs, contribs, n), d, a),
    decreases n,
{
    if m < n {
        lemma_add_to_dirs_mono(table, dirs, contribs, m, n - 1);
        let t = add_to_dirs(table, dirs, contribs, n - 1);
        let dir = dirs[n - 1];
        let x = add_counts(counts_of(t, dir), contribs, contribs.len() as int);
        lemma_insert_lookup(t, dir, x);
        lemma_add_counts_mono(counts_of(t, dir), contribs, 0, contribs.len() as int);
        assert forall|d: Seq<char>, a: Seq<char>| #[trigger] tval(add_to_dirs(table, dirs, contribs, m), d, a)
            <= tval(add_to_dirs(table, dirs, contribs, n), d, a) by {
            assert(tval(add_to_dirs(table, dirs, contribs, m), d, a) <= tval(t, d, a));
            if d == dir {
                assert(cval(add_counts(counts_of(t, dir), contribs, 0), a) <= cval(x, a));
            }
        }
    }
}

/// Adding up more files never lowers a count.
proof fn lemma_by_dir_mono(files: Seq<(Seq<char>, Seq<(Seq<char>, int)>)>, m: int, n: int)
    requires
        0 <= m <= n <= files.len(),
        counts_nonneg(files),
    ensures
        forall|d: Seq<char>, a: Seq<char>| #[trigger] tval(contributions_by_dir(files, m), d, a)
            <= tval(contributions_by_dir(files, n), d, a),
    decreases n,
{
    if m < n {
        lemma_by_dir_mono(files, m, n - 1);
        let t = contributions_by_dir(files, n - 1);
        let dirs = path_ancestors(files[n - 1].0);
        let cs = files[n - 1].1;
        assert forall|j: int| 0 <= j < cs.len() implies #[trigger] cs[j].1 >= 0 by {
            assert(files[n - 1].1[j].1 >= 0);
        }
        lemma_add_to_dirs_mono(t, dirs, cs, 0, dirs.len() as int);
        assert forall|d: Seq<char>, a: Seq<char>| #[trigger] tval(contributions_by_dir(files, m), d, a)
            <= tval(contributions_by_dir(files, n), d, a) by {
            assert(tval(contributions_by_dir(files, m), d, a) <= tval(t, d, a));
            assert(tval(add_to_dirs(t, dirs, cs, 0), d, a) <= tval(add_to_dirs(t, dirs, cs, dirs.len() as int), d, a));
        }
    }
}

/// While the contributions of file `i` are added to its `j`-th directory, the new
/// counts of that directory stay within the final ones.
proof fn lemma_step_bound(files: Seq<(Seq<char>, Seq<(Seq<char>, int)>)>, i: int, j: int)
    requires
        0 <= i < files.len(),
        0 <= j < path_ancestors(files[i].0).len(),
        counts_nonneg(files),
    ensures
        ({
            let dirs = path_ancestors(files[i].0);
            let t = add_to_dirs(contributions_by_dir(files, i), dirs, files[i].1, j);
            forall|a: Seq<char>| #[trigger] cval(add_counts(counts_of(t, dirs[j]), files[i].1, files[i].1.len() as int), a)
                <= tval(contributions_by_dir(files, files.len() as int), dirs[j], a)
        }),
{
    let dirs = path_ancestors(files[i].0);
    let cs = files[i].1;
    let base = contributions_by_dir(files, i);
    let t = add_to_dirs(base, dirs, cs, j);
    let x = add_counts(counts_of(t, dirs[j]), cs, cs.len() as int);
    assert forall|k: int| 0 <= k < cs.len() implies #[trigger] cs[k].1 >= 0 by {
        assert(files[i].1[k].1 >= 0);
    }
    lemma_insert_lookup(t, dirs[j], x);
    lemma_add_to_dirs_mono(base, dirs, cs, j + 1, dirs.len() as int);
    lemma_by_dir_mono(files, i + 1, files.len() as int);
    assert forall|a: Seq<char>| #[trigger] cval(x, a) <= tval(contributions_by_dir(files, files.len() as int), dirs[j], a) by {
        assert(tval(add_to_dirs(base, dirs, cs, j + 1), dirs[j], a) == cval(x, a));
        assert(tval(add_to_dirs(base, dirs, cs, j + 1), dirs[j], a) <= tval(add_to_dirs(base, dirs, cs, dirs.len() as int), dirs[j], a));
        assert(tval(contributions_by_dir(files, i + 1), dirs[j], a) <= tval(contributions_by_dir(files, files.len() as int), dirs[j], a));
    }
}

/// Counts read from `usize` values are never negative.
proof fn lemma_table_view_nonneg(m: Seq<(Seq<char>, Seq<(Seq<char>, usize)>)>)
    ensures
        counts_nonneg(table_view(m)),
{
    let t = table_view(m);
    assert forall|i: int, j: int| 0 <= i < t.len() && 0 <= j < t[i].1.len() implies #[trigger] t[i].1[j].1 >= 0 by {
        assert(t[i].1 == counts_view(m[i].1));
        assert(t[i].1[j].1 == m[i].1[j].1 as int);
    }
}

/// Counts read from `usize` values fit in a `usize`.
proof fn lemma_table_view_bounded(m: Seq<(Seq<char>, Seq<(Seq<char>, usize)>)>)
    ensures
        forall|d: Seq<char>, a: Seq<char>| #[trigger] tval(table_view(m), d, a) <= usize::MAX,
{
    assert forall|d: Seq<char>, a: Seq<char>| #[trigger] tval(table_view(m), d, a) <= usize::MAX by {
        let tf = |c: Seq<(Seq<char>, usize)>| counts_view(c);
        lemma_map_vals(m, d, Seq::empty(), tf);
        match lookup(m, d) {
            Some(c) => {
                lemma_map_vals(c, a, 0usize, |n: usize| n as int);
            },
            None => {},
        }
    }
}

/// Adds the contributions `contribs` to the counts of `dir`. Returns `false`, with
/// the table left unspecified, where some count of `dir` would pass `usize::MAX`.
fn add_to_dir(table: &mut StrMap<StrMap<usize>>, dir: &str, contribs: &StrMap<usize>) -> (ok: bool)
    ensures
        ok ==> table_view(final(table)@) == seq_insert(
            table_view(old(table)@),
            dir@,
            add_counts(counts_of(table_view(old(table)@), dir@), counts_view(contribs@), contribs@.len() as int),
        ),
        ok <==> forall|a: Seq<char>| #[trigger] cval(
            add_counts(counts_of(table_view(old(table)@), dir@), counts_view(contribs@), contribs@.len() as int),
            a,
        ) <= usize::MAX,
{
    proof {
        use_type_invariant(&*table);
    }
    let ghost t0 = table@;
    let ghost tv0 = table_view(t0);
    let ghost cs = counts_view(contribs@);
    let ghost c0 = counts_of(tv0, dir@);
    let ghost target = add_counts(c0, cs, cs.len() as int);
    let ghost tf = |c: Seq<(Seq<char>, usize)>| counts_view(c);
    let mut counts = match table.remove(dir) {
        Some(c) => c,
        None => StrMap::new(),
    };
    proof {
        lemma_map_vals(t0, dir@, Seq::empty(), tf);
        assert(counts_view(Seq::<(Seq<char>, usize)>::empty()) =~= Seq::<(Seq<char>, int)>::empty());
        assert(counts_view(counts@) == c0);
        assert(forall|j: int| 0 <= j < cs.len() ==> #[trigger] cs[j].1 >= 0);
    }
    let mut k: usize = 0;
    while k < contribs.len()
        invariant
            k <= contribs@.len(),
            cs == counts_view(contribs@),
            counts_view(counts@) == add_counts(c0, cs, k as int),
            target == add_counts(c0, cs, cs.len() as int),
            c0 == counts_of(table_view(old(table)@), dir@),
            forall|j: int| 0 <= j < cs.len() ==> #[trigger] cs[j].1 >= 0,
        decreases contribs@.len() - k,
    {
        let (author, size) = contribs.entry_at(k);
        let ghost before = add_counts(c0, cs, k as int);
        proof {
            lemma_map_vals(counts@, author@, 0usize, |n: usize| n as int);
            lemma_add_count(before, author@, *size as int);
            lemma_add_counts_mono(c0, cs, k as int + 1, cs.len() as int);
            assert(cs[k as int] == (author@, *size as int));
        }
        let cur: usize = match counts.get(author.as_str()) {
            Some(n) => *n,
            None => 0,
        };
        assert(cur == cval(before, author@));
        assert(cval(add_counts(c0, cs, k as int + 1), author@) == cur + *size);
        if cur > usize::MAX - *size {
            proof {
                assert(cval(target, author@) > usize::MAX);
                assert(!(forall|a: Seq<char>| #[trigger] cval(target, a) <= usize::MAX));
            }
            return false;
        }
        let total: usize = cur + *size;
        let ghost cv = counts@;
        counts.insert(author.clone(), total);
        proof {
            lemma_map_vals(cv, author@, total, |n: usize| n as int);
        }
        k = k + 1;
    }
    table.insert(dir.to_owned(), counts);
    proof {
        lemma_map_vals(seq_remove(t0, dir@), dir@, counts@, tf);
        lemma_map_vals(t0, dir@, counts@, tf);
        lemma_insert_after_remove(t0, dir@, counts@);
        assert forall|a: Seq<char>| #[trigger] cval(target, a) <= usize::MAX by {
            lemma_map_vals(counts@, a, 0usize, |n: usize| n as int);
        }
    }
    true
}

/// Adds up the contributions of each file for every directory above it, and for the
/// file itself: `None` where some sum would pass `usize::MAX`.
pub fn try_top_contributors(files: &StrMap<StrMap<usize>>) -> (res: Option<StrMap<StrMap<usize>>>)
    ensures
        res is Some <==> forall|d: Seq<char>, a: Seq<char>|
            #[trigger] tval(contributions_by_dir(table_view(files@), files@.len() as int), d, a) <= usize::MAX,
        res matches Some(t) ==> table_view(t@) == contributions_by_dir(table_view(files@), files@.len() as int),
{
    let ghost fv = table_view(files@);
    let ghost total = contributions_by_dir(fv, fv.len() as int);
    proof {
        lemma_table_view_nonneg(files@);
    }
    let mut table: StrMap<StrMap<usize>> = StrMap::new();
    proof {
        assert(table_view(table@) =~= contributions_by_dir(fv, 0));
    }
    let mut i: usize = 0;
    while i < files.len()
        invariant
            i <= files@.len(),
            fv == table_view(files@),
            fv.len() == files@.len(),
            total == contributions_by_dir(fv, fv.len() as int),
            counts_nonneg(fv),
            table_view(table@) == contributions_by_dir(fv, i as int),
        decreases files@.len() - i,
    {
        let (path, contribs) = files.entry_at(i);
        let dirs = ancestors_of(path.as_str());
        let ghost dv = path_ancestors(path@);
        let ghost cs = counts_view(contribs@);
        proof {
            assert(fv[i as int] == (path@, cs));
        }
        let mut j: usize = 0;
        while j < dirs.len()
            invariant
                i < fv.len(),
                j <= dirs@.len(),
                string_views(dirs@) == dv,
                dv == path_ancestors(fv[i as int].0),
                cs == fv[i as int].1,
                cs == counts_view(contribs@),
                counts_nonneg(fv),
                fv == table_view(files@),
                fv.len() == files@.len(),
                total == contributions_by_dir(fv, fv.len() as int),
                table_view(table@) == add_to_dirs(contributions_by_dir(fv, i as int), dv, cs, j as int),
            decreases dirs@.len() - j,
        {
            proof {
                lemma_step_bound(fv, i as int, j as int);
                assert(dirs@[j as int]@ == dv[j as int]);
            }
            let ghost t = table_view(table@);
            if !add_to_dir(&mut table, dirs[j].as_str(), contribs) {
                proof {
                    let a = choose|a: Seq<char>| #[trigger] cval(add_counts(counts_of(t, dv[j as int]), cs, cs.len() as int), a) > usize::MAX;
                    assert(tval(total, dv[j as int], a) > usize::MAX);
                    assert(!(forall|d: Seq<char>, a: Seq<char>| #[trigger] tval(total, d, a) <= usize::MAX));
                }
                return None;
            }
            j = j + 1;
        }
        i = i + 1;
    }
    proof {
        lemma_table_view_bounded(table@);
    }
    Some(table)
}

/// Adds up the contributions of each file for every directory above it, and for the
/// file itself.
pub fn top_contributors(files: &StrMap<StrMap<usize>>) -> (res: StrMap<StrMap<usize>>)
    requires
        forall|d: Seq<char>, a: Seq<char>|
            #[trigger] tval(contributions_by_dir(table_view(files@), files@.len() as int), d, a) <= usize::MAX,
    ensures
        table_view(res@) == contributions_by_dir(table_view(files@), files@.len() as int),
{
    match try_top_contributors(files) {
        Some(t) => t,
        None => {
            proof {
                assert(false);
            }
            StrMap::new()
        },
    }
}

/// The regular expressions of `RegexSet::new(patterns)` compile.
pub uninterp spec fn regex_set_compiles(patterns: Seq<Seq<char>>) -> bool;

/// Some expression of the set compiled from `patterns` matches somewhere in `text`
/// (`RegexSet::is_match`).
pub uninterp spec fn regex_set_is_match(patterns: Seq<Seq<char>>, text: Seq<char>) -> bool;

#[verifier::external_type_specification]
#[verifier::external_body]
pub struct ExRegexSet(regex::RegexSet);

/// A compiled set of expressions for commit subjects whose changes are left
/// out of the counts, with the expressions it was compiled from.
pub struct Excludes {
    set: regex::RegexSet,
    patterns: Vec<String>,
}

impl Excludes {
    /// The expressions the set was compiled from.
    pub closed spec fn patterns(&self) -> Seq<Seq<char>> {
        string_views(self.patterns@)
    }
}

/// `regex::RegexSet::new`: `Some` exactly where the expressions compile, as the
/// name `regex_set_compiles` says; the set keeps the expressions it was built from.
#[verifier::external_body]
fn compile_set(patterns: &Vec<String>) -> (res: Option<Excludes>)
    ensures
        res is Some == regex_set_compiles(string_views(patterns@)),
        res matches Some(e) ==> e.patterns() == string_views(patterns@),
{
    match regex::RegexSet::new(patterns) {
        Ok(set) => Some(Excludes { set, patterns: patterns.clone() }),
        Err(_) => None,
    }
}

/// `regex::RegexSet::is_match`: whether some expression of the set matches in
/// `text`, which the name `regex_set_is_match` stands for.
#[verifier::external_body]
fn set_is_match(ex: &Excludes, text: &str) -> (res: bool)
    ensures
        res == regex_set_is_match(ex.patterns(), text@),
{
    ex.set.is_match(text)
}

/// The expressions of the commit subjects that are left out: sweeping changes
/// such as formatting, moves and merges.
pub open spec fn exclude_list() -> Seq<Seq<char>> {
    seq![
        "(?i)rustfmt"@,
        "(?i)tidy"@,
        "(?i)doc"@,
        "(?i)merge"@,
        "(?i)split"@,
        "(?i)move"@,
        "(?i)refactor"@,
        "(?i)mv std libs to library/"@,
        "(?i)deny unsafe ops in unsafe fns"@,
        "(?i)unsafe_op_in_unsafe_fn"@,
    ]
}

/// The expressions of the commit subjects that are left out.
pub fn exclude_patterns() -> (res: Vec<String>)
    ensures
        string_views(res@) == exclude_list(),
{
    let mut v: Vec<String> = Vec::new();
    v.push("(?i)rustfmt".to_owned());
    v.push("(?i)tidy".to_owned());
    v.push("(?i)doc".to_owned());
    v.push("(?i)merge".to_owned());
    v.push("(?i)split".to_owned());
    v.push("(?i)move".to_owned());
    v.push("(?i)refactor".to_owned());
    v.push("(?i)mv std libs to library/".to_owned());
    v.push("(?i)deny unsafe ops in unsafe fns".to_owned());
    v.push("(?i)unsafe_op_in_unsafe_fn".to_owned());
    assert(string_views(v@) =~= exclude_list());
    v
}

/// The compiled set of excluded subjects, where its expressions compile.
pub fn excludes() -> (res: Option<Excludes>)
    ensures
        res is Some == regex_set_compiles(exclude_list()),
        res matches Some(e) ==> e.patterns() == exclude_list(),
{
    let pats = exclude_patterns();
    compile_set(&pats)
}

/// What separates the author from the subject in the summary lines of the log.
pub open spec fn gitsplit() -> Seq<char> {
    ":gitsplit:"@
}

/// The lines of `ls` that are not empty, in order.
pub open spec fn nonempty(ls: Seq<Seq<char>>) -> Seq<Seq<char>>
    decreases ls.len(),
{
    if ls.len() == 0 {
        Seq::empty()
    } else if ls.last().len() > 0 {
        nonempty(ls.drop_last()).push(ls.last())
    } else {
        nonempty(ls.drop_last())
    }
}

/// The author and the subject of a summary line: exactly one separator between them.
pub open spec fn summary_parts(line: Seq<char>) -> Option<(Seq<char>, Seq<char>)> {
    match split_first(line, gitsplit()) {
        Some((author, subject)) => if find_sub(subject, gitsplit()) is None {
            Some((author, subject))
        } else {
            None
        },
        None => None,
    }
}

/// The lines added by a commit: the first number of its diff line, which must read
/// as a number for the log to be well formed.
pub open spec fn diff_additions(line: Seq<char>) -> Option<int> {
    match first_word(line) {
        Some(w) => parse_unsigned(w),
        None => None,
    }
}

/// One commit of the log: `None` where its lines are malformed; otherwise its
/// author, counted once, or nothing where it is one of bors's merges or its subject
/// is excluded.
pub open spec fn log_entry(summary: Seq<char>, diff: Seq<char>, patterns: Seq<Seq<char>>) -> Option<Option<(Seq<char>, int)>> {
    match summary_parts(summary) {
        None => None,
        Some((author, subject)) => match diff_additions(diff) {
            None => None,
            Some(_) => if author != "bors"@ && !regex_set_is_match(patterns, subject) {
                Some(Some((author, 1)))
            } else {
                Some(None)
            },
        },
    }
}

/// The contributions of the first `n` commits of the lines `ls`, two lines each.
pub open spec fn log_pairs(ls: Seq<Seq<char>>, patterns: Seq<Seq<char>>, n: int) -> Option<Seq<(Seq<char>, int)>>
    decreases n,
{
    if n <= 0 {
        Some(Seq::empty())
    } else {
        match log_pairs(ls, patterns, n - 1) {
            None => None,
            Some(es) => match log_entry(ls[2 * n - 2], ls[2 * n - 1], patterns) {
                None => None,
                Some(None) => Some(es),
                Some(Some(e)) => Some(es.push(e)),
            },
        }
    }
}

/// The contributions that `git log --format=%an:gitsplit:%s --numstat` lists, one
/// for each commit kept; `None` where the log is malformed.
pub open spec fn log_entries(text: Seq<char>, patterns: Seq<Seq<char>>) -> Option<Seq<(Seq<char>, int)>> {
    let ls = nonempty(lines_of(text));
    if ls.len() % 2 == 1 {
        None
    } else {
        log_pairs(ls, patterns, ls.len() as int / 2)
    }
}

/// The number of commits of each author that the log keeps.
pub open spec fn log_counts(text: Seq<char>, patterns: Seq<Seq<char>>) -> Option<Seq<(Seq<char>, int)>> {
    match log_entries(text, patterns) {
        Some(es) => Some(add_counts(Seq::empty(), es, es.len() as int)),
        None => None,
    }
}

/// Every count fits a `usize`.
pub open spec fn fits(counts: Seq<(Seq<char>, int)>) -> bool {
    forall|a: Seq<char>| #[trigger] cval(counts, a) <= usize::MAX
}

/// Once a commit is malformed, so is every longer run of commits.
proof fn lemma_log_pairs_none(ls: Seq<Seq<char>>, patterns: Seq<Seq<char>>, m: int, n: int)
    requires
        0 <= m <= n,
        log_pairs(ls, patterns, m) is None,
    ensures
        log_pairs(ls, patterns, n) is None,
    decreases n,
{
    if m < n {
        lemma_log_pairs_none(ls, patterns, m, n - 1);
    }
}

/// A copy of a run of characters.
fn copy_chars(s: &Vec<char>) -> (res: Vec<char>)
    ensures
        res@ == s@,
{
    let mut r: Vec<char> = Vec::new();
    push_chars(&mut r, s);
    assert(r@ =~= s@);
    r
}

/// The author and the subject of a summary line.
fn summary_parts_of(line: &Vec<char>) -> (res: Option<(Vec<char>, Vec<char>)>)
    ensures
        match res {
            Some((a, b)) => summary_parts(line@) == Some((a@, b@)),
            None => summary_parts(line@) is None,
        },
{
    match split_first_str(line, ":gitsplit:") {
        Some((author, subject)) => match split_first_str(&subject, ":gitsplit:") {
            Some(_) => None,
            None => Some((author, subject)),
        },
        None => None,
    }
}

/// One commit of the log: its author with a count of one, nothing where it is left
/// out, `None` where its lines are malformed.
fn parse_entry(summary: &Vec<char>, diff: &Vec<char>, ex: &Excludes) -> (res: Option<Option<(String, usize)>>)
    ensures
        match res {
            None => log_entry(summary@, diff@, ex.patterns()) is None,
            Some(None) => log_entry(summary@, diff@, ex.patterns()) == Some(None::<(Seq<char>, int)>),
            Some(Some((a, n))) => log_entry(summary@, diff@, ex.patterns()) == Some(Some((a@, n as int))),
        },
{
    let (author, subject) = match summary_parts_of(summary) {
        Some(p) => p,
        None => {
            return None;
        },
    };
    let word = match first_word_of(diff) {
        Some(w) => w,
        None => {
            return None;
        },
    };
    if parse_usize(&word).is_none() {
        return None;
    }
    let bors = chars_of("bors");
    if compare_chars(&author, &bors) == TextOrder::Equal {
        return Some(None);
    }
    let subject_text = string_of(&subject);
    if set_is_match(ex, subject_text.as_str()) {
        return Some(None);
    }
    Some(Some((string_of(&author), 1)))
}

/// The contributions of a list of commits, as numbers.
pub open spec fn entry_views(es: Seq<(String, usize)>) -> Seq<(Seq<char>, int)> {
    es.map_values(|e: (String, usize)| (e.0@, e.1 as int))
}

/// Reads the output of `git log --format=%an:gitsplit:%s --numstat --no-merges`
/// for one file and counts the commits of each author. Commits by bors and those
/// whose subject an expression of `excludes` matches are left out. `None` where the
/// log is malformed or a sum does not fit a `usize`.
pub fn parse_log(text: &str, excludes: &Excludes) -> (res: Option<StrMap<usize>>)
    ensures
        match res {
            Some(m) => log_counts(text@, excludes.patterns()) == Some(counts_view(m@)),
            None => match log_counts(text@, excludes.patterns()) {
                Some(c) => !fits(c),
                None => true,
            },
        },
{
    let ghost pats = excludes.patterns();
    let all = lines(text);
    let ghost lv = lines_of(text@);
    let mut ls: Vec<Vec<char>> = Vec::new();
    let mut i: usize = 0;
    while i < all.len()
        invariant
            i <= all@.len(),
            all@.map_values(|l: Vec<char>| l@) == lv,
            ls@.map_values(|l: Vec<char>| l@) == nonempty(lv.take(i as int)),
        decreases all@.len() - i,
    {
        assert(lv.take(i + 1).drop_last() =~= lv.take(i as int));
        assert(lv.take(i + 1).last() == all@[i as int]@);
        if all[i].len() > 0 {
            let l = copy_chars(&all[i]);
            ls.push(l);
        }
        i = i + 1;
        assert(ls@.map_values(|l: Vec<char>| l@) =~= nonempty(lv.take(i as int)));
    }
    assert(lv.take(lv.len() as int) =~= lv);
    let ghost nv = nonempty(lv);
    assert(ls@.len() == nv.len());
    if ls.len() % 2 == 1 {
        return None;
    }
    let total: usize = ls.len();
    let pairs: usize = total / 2;
    let mut entries: Vec<(String, usize)> = Vec::new();
    let mut n: usize = 0;
    while n < pairs
        invariant
            n <= pairs,
            pairs * 2 == ls@.len(),
            pairs * 2 <= usize::MAX,
            nv == nonempty(lines_of(text@)),
            ls@.map_values(|l: Vec<char>| l@) == nv,
            pats == excludes.patterns(),
            log_pairs(nv, pats, n as int) == Some(entry_views(entries@)),
        decreases pairs - n,
    {
        assert(ls@[2 * n as int]@ == nv[2 * n as int]);
        assert(ls@[2 * n + 1]@ == nv[2 * n + 1]);
        match parse_entry(&ls[2 * n], &ls[2 * n + 1], excludes) {
            None => {
                proof {
                    assert(log_pairs(nv, pats, n + 1) is None);
                    lemma_log_pairs_none(nv, pats, n + 1, pairs as int);
                    assert(nv.len() as int / 2 == pairs);
                    assert(log_entries(text@, pats) is None);
                }
                return None;
            },
            Some(None) => {},
            Some(Some(e)) => {
                let ghost prev = entries@;
                let ghost ev = (e.0@, e.1 as int);
                entries.push(e);
                assert(entry_views(entries@) =~= entry_views(prev).push(ev));
            },
        }
        n = n + 1;
    }
    let ghost es = entry_views(entries@);
    let ghost target = add_counts(Seq::empty(), es, es.len() as int);
    proof {
        assert(forall|j: int| 0 <= j < es.len() ==> #[trigger] es[j].1 >= 0);
    }
    let mut counts: StrMap<usize> = StrMap::new();
    assert(counts_view(counts@) =~= Seq::<(Seq<char>, int)>::empty());
    let mut k: usize = 0;
    while k < entries.len()
        invariant
            k <= entries@.len(),
            es == entry_views(entries@),
            target == add_counts(Seq::empty(), es, es.len() as int),
            log_counts(text@, pats) == Some(target),
            pats == excludes.patterns(),
            counts_view(counts@) == add_counts(Seq::empty(), es, k as int),
            forall|j: int| 0 <= j < es.len() ==> #[trigger] es[j].1 >= 0,
        decreases entries@.len() - k,
    {
        let author = &entries[k].0;
        let size = entries[k].1;
        let ghost before = add_counts(Seq::empty(), es, k as int);
        proof {
            lemma_map_vals(counts@, author@, 0usize, |n: usize| n as int);
            lemma_add_count(before, author@, size as int);
            lemma_add_counts_mono(Seq::empty(), es, k as int + 1, es.len() as int);
            assert(es[k as int] == (author@, size as int));
        }
        let cur: usize = match counts.get(author.as_str()) {
            Some(c) => *c,
            None => 0,
        };
        assert(cur == cval(before, author@));
        match cur.checked_add(size) {
            Some(total) => {
                let ghost cv = counts@;
                counts.insert(author.clone(), total);
                proof {
                    lemma_map_vals(cv, author@, total, |n: usize| n as int);
                }
            },
            None => {
                assert(add_counts(Seq::empty(), es, k as int + 1) == add_count(before, author@, size as int));
                assert(cval(add_counts(Seq::empty(), es, k as int + 1), author@) == cur + size);
                assert(cval(target, author@) > usize::MAX);
                return None;
            },
        }
        k = k + 1;
    }
    Some(counts)
}

/// A text that may be absent, as characters.
pub open spec fn opt_view(o: Option<&str>) -> Option<Seq<char>> {
    match o {
        Some(s) => Some(s@),
        None => None,
    }
}

/// Which entries the walk over the library takes: directories whose name (the
/// stem, where it is text) speaks neither of tests nor of benches, and Rust files
/// other than `tests.rs` under the subpath asked for.
pub open spec fn include_spec(is_dir: bool, stem: Option<Seq<char>>, extension: Option<Seq<char>>, in_subpath: bool) -> bool {
    if is_dir {
        match stem {
            Some(s) => find_sub(s, "test"@) is None && find_sub(s, "bench"@) is None,
            None => false,
        }
    } else {
        extension == Some("rs"@) && stem != Some("tests"@) && in_subpath
    }
}

/// Whether `text` holds `part`.
fn contains_text(text: &str, part: &str) -> (res: bool)
    ensures
        res == (find_sub(text@, part@) is Some),
{
    let cs = chars_of(text);
    split_first_str(&cs, part).is_some()
}

/// Whether two texts are the same.
fn same_text(a: &str, b: &str) -> (res: bool)
    ensures
        res == (a@ == b@),
{
    compare_text(a, b) == TextOrder::Equal
}

/// Whether the walk over the library takes an entry: `is_dir` says whether it is a
/// directory, `stem` and `extension` are its file stem and extension where they
/// are text, `in_subpath` whether it lies under the subpath asked for.
pub fn include_entry(is_dir: bool, stem: Option<&str>, extension: Option<&str>, in_subpath: bool) -> (res: bool)
    ensures
        res == include_spec(is_dir, opt_view(stem), opt_view(extension), in_subpath),
{
    if is_dir {
        match stem {
            Some(s) => !contains_text(s, "test") && !contains_text(s, "bench"),
            None => false,
        }
    } else {
        let is_rs = match extension {
            Some(e) => same_text(e, "rs"),
            None => false,
        };
        let is_tests = match stem {
            Some(s) => same_text(s, "tests"),
            None => false,
        };
        is_rs && !is_tests && in_subpath
    }
}

/// The table of the first `n` files, each with the contributions to it; files that
/// nobody contributed to are left out.
pub open spec fn file_table_of(files: Seq<(Seq<char>, Seq<(Seq<char>, usize)>)>, n: int) -> Seq<(Seq<char>, Seq<(Seq<char>, usize)>)>
    decreases n,
{
    if n <= 0 {
        Seq::empty()
    } else {
        let t = file_table_of(files, n - 1);
        if files[n - 1].1.len() > 0 {
            seq_insert(t, files[n - 1].0, files[n - 1].1)
        } else {
            t
        }
    }
}

/// Collects the contributions to each file into a table keyed by path, leaving out
/// the files that nobody contributed to.
pub fn file_table(files: Vec<(String, StrMap<usize>)>) -> (res: StrMap<StrMap<usize>>)
    ensures
        res@ == file_table_of(files@.map_values(|e: (String, StrMap<usize>)| (e.0@, e.1@)), files@.len() as int),
{
    let ghost fv = files@.map_values(|e: (String, StrMap<usize>)| (e.0@, e.1@));
    let mut rest = files;
    let mut table: StrMap<StrMap<usize>> = StrMap::new();
    let ghost total = fv.len();
    assert(table@ =~= file_table_of(fv, 0));
    while rest.len() > 0
        invariant
            rest@.len() <= total,
            total == fv.len(),
            rest@.map_values(|e: (String, StrMap<usize>)| (e.0@, e.1@)) == fv.skip(total - rest@.len()),
            table@ == file_table_of(fv, total - rest@.len()),
        decreases rest@.len(),
    {
        let ghost done = total - rest@.len();
        assert(fv.skip(done)[0] == fv[done]);
        assert(rest@.map_values(|e: (String, StrMap<usize>)| (e.0@, e.1@))[0] == (rest@[0].0@, rest@[0].1@));
        let ghost before = rest@;
        let (path, counts) = rest.remove(0);
        proof {
            let rv = rest@.map_values(|e: (String, StrMap<usize>)| (e.0@, e.1@));
            let bv = before.map_values(|e: (String, StrMap<usize>)| (e.0@, e.1@));
            assert(rest@ =~= before.subrange(1, before.len() as int));
            assert forall|j: int| 0 <= j < rv.len() implies rv[j] == fv.skip(done + 1)[j] by {
                assert(rv[j] == bv[j + 1]);
                assert(bv[j + 1] == fv.skip(done)[j + 1]);
            }
            assert(rv =~= fv.skip(done + 1));
        }
        if counts.len() > 0 {
            table.insert(path, counts);
        }
    }
    table
}

/// Adding contributions with distinct authors adds to each author exactly what the
/// contributions give them.
proof fn lemma_add_counts_exact(counts: Seq<(Seq<char>, int)>, contribs: Seq<(Seq<char>, int)>, n: int, a: Seq<char>)
    requires
        0 <= n <= contribs.len(),
        keys_sorted(contribs),
    ensures
        cval(add_counts(counts, contribs, n), a) == cval(counts, a) + cval(contribs.take(n), a),
    decreases n,
{
    if n == 0 {
        assert(contribs.take(0) =~= Seq::<(Seq<char>, int)>::empty());
    } else {
        lemma_add_counts_exact(counts, contribs, n - 1, a);
        lemma_add_count(add_counts(counts, contribs, n - 1), contribs[n - 1].0, contribs[n - 1].1);
        let pre = contribs.take(n - 1);
        let cur = contribs.take(n);
        assert(cur =~= pre.push(contribs[n - 1]));
        if contribs[n - 1].0 == a {
            assert(keys_sorted(cur));
            lemma_lookup_index(cur, n - 1);
            assert forall|i: int| 0 <= i < pre.len() implies #[trigger] pre[i].0 != a by {
                assert(text_lt(contribs[i].0, contribs[n - 1].0));
                lemma_text_lt_irreflexive(a);
            }
            lemma_lookup_none(pre, a);
        } else {
            lemma_lookup_push(pre, contribs[n - 1], a);
        }
    }
}

/// A directory's count for an author is at least what the author added to any file
/// below it, and a file's own count at least what was added to it.
pub proof fn law_dir_covers_file(files: Seq<(Seq<char>, Seq<(Seq<char>, int)>)>, i: int, j: int, a: Seq<char>)
    requires
        counts_nonneg(files),
        0 <= i < files.len(),
        0 <= j < path_ancestors(files[i].0).len(),
        keys_sorted(files[i].1),
    ensures
        tval(contributions_by_dir(files, files.len() as int), path_ancestors(files[i].0)[j], a) >= cval(files[i].1, a),
{
    let dirs = path_ancestors(files[i].0);
    let cs = files[i].1;
    let base = contributions_by_dir(files, i);
    let t = add_to_dirs(base, dirs, cs, j);
    let x = add_counts(counts_of(t, dirs[j]), cs, cs.len() as int);
    lemma_step_bound(files, i, j);
    lemma_add_counts_exact(counts_of(t, dirs[j]), cs, cs.len() as int, a);
    assert(cs.take(cs.len() as int) =~= cs);
    assert forall|k: int| 0 <= k < cs.len() implies #[trigger] cs[k].1 >= 0 by {
        assert(files[i].1[k].1 >= 0);
    }
    lemma_add_to_dirs_mono(base, dirs, cs, 0, j);
    lemma_by_dir_mono(files, 0, i);
    assert(tval(base, dirs[j], a) >= 0) by {
        lemma_by_dir_mono(files, 0, i);
        assert(tval(contributions_by_dir(files, 0), dirs[j], a) == 0);
    }
    assert(cval(counts_of(t, dirs[j]), a) >= 0) by {
        assert(tval(add_to_dirs(base, dirs, cs, 0), dirs[j], a) <= tval(t, dirs[j], a));
    }
    assert(cval(x, a) <= tval(contributions_by_dir(files, files.len() as int), dirs[j], a));
}

} // verus!
