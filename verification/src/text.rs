//! Text as sequences of characters: conversion, decimal numbers, prefixes,
//! splitting, trimming and joining.

use vstd::prelude::*;

verus! {

/// Appends one character to a string (`String::push`).
#[verifier::external_body]
pub(crate) fn push_char(s: &mut String, c: char)
    ensures
        final(s)@ == old(s)@.push(c),
{
    s.push(c);
}

/// The characters of a string, in order.
pub fn chars_of(s: &str) -> (res: Vec<char>)
    ensures
        res@ == s@,
{
    let mut res: Vec<char> = Vec::new();
    for c in it: s.chars()
        invariant
            res@ == it.seq().take(it.index() as int),
    {
        res.push(c);
    }
    res
}

/// Builds a string from a sequence of characters.
pub fn string_of(cs: &Vec<char>) -> (res: String)
    ensures
        res@ == cs@,
{
    let mut res = String::new();
    let mut i: usize = 0;
    while i < cs.len()
        invariant
            i <= cs.len(),
            res@ == cs@.take(i as int),
        decreases cs.len() - i,
    {
        push_char(&mut res, cs[i]);
        i = i + 1;
        assert(res@ == cs@.take(i as int));
    }
    res
}

/// Appends the characters of `s` to `out`.
pub fn push_str(out: &mut Vec<char>, s: &str)
    ensures
        final(out)@ == old(out)@ + s@,
{
    let mut cs = chars_of(s);
    out.append(&mut cs);
}

/// Appends the characters of `s` to `out`.
pub fn push_chars(out: &mut Vec<char>, s: &Vec<char>)
    ensures
        final(out)@ == old(out)@ + s@,
{
    let mut i: usize = 0;
    let ghost start = out@;
    while i < s.len()
        invariant
            i <= s.len(),
            out@ == start + s@.take(i as int),
        decreases s.len() - i,
    {
        out.push(s[i]);
        i = i + 1;
        assert(out@ =~= start + s@.take(i as int));
    }
    assert(s@.take(s@.len() as int) =~= s@);
}

/// The decimal digit for `d < 10`.
pub open spec fn digit_char(d: nat) -> char {
    if d == 0 { '0' }
    else if d == 1 { '1' }
    else if d == 2 { '2' }
    else if d == 3 { '3' }
    else if d == 4 { '4' }
    else if d == 5 { '5' }
    else if d == 6 { '6' }
    else if d == 7 { '7' }
    else if d == 8 { '8' }
    else { '9' }
}

/// The decimal notation of `n`, without leading zeros (`0` for zero).
pub open spec fn decimal(n: nat) -> Seq<char>
    decreases n,
{
    if n < 10 {
        seq![digit_char(n)]
    } else {
        decimal(n / 10).push(digit_char(n % 10))
    }
}

/// The decimal notation of a signed number, with `-` before a negative one.
pub open spec fn signed_decimal(n: int) -> Seq<char> {
    if n < 0 {
        seq!['-'] + decimal((-n) as nat)
    } else {
        decimal(n as nat)
    }
}

/// The character of the decimal digit `d`.
pub(crate) fn digit(d: u64) -> (c: char)
    requires
        d < 10,
    ensures
        c == digit_char(d as nat),
{
    if d == 0 { '0' }
    else if d == 1 { '1' }
    else if d == 2 { '2' }
    else if d == 3 { '3' }
    else if d == 4 { '4' }
    else if d == 5 { '5' }
    else if d == 6 { '6' }
    else if d == 7 { '7' }
    else if d == 8 { '8' }
    else { '9' }
}

/// The decimal notation of `n`.
pub fn format_u64(n: u64) -> (res: Vec<char>)
    ensures
        res@ == decimal(n as nat),
    decreases n,
{
    if n < 10 {
        let mut v = Vec::new();
        v.push(digit(n));
        v
    } else {
        let mut v = format_u64(n / 10);
        v.push(digit(n % 10));
        v
    }
}

/// The decimal notation of `n`, with `-` before a negative one.
pub fn format_i64(n: i64) -> (res: Vec<char>)
    ensures
        res@ == signed_decimal(n as int),
{
    if n < 0 {
        let m: u64 = if n == i64::MIN {
            9223372036854775808u64
        } else {
            (-n) as u64
        };
        let mut v = Vec::new();
        v.push('-');
        let mut d = format_u64(m);
        v.append(&mut d);
        v
    } else {
        format_u64(n as u64)
    }
}

/// `s` begins with `p`.
pub open spec fn has_prefix(s: Seq<char>, p: Seq<char>) -> bool {
    p.len() <= s.len() && s.take(p.len() as int) == p
}

/// Whether `s` begins with `p`.
pub fn starts_with(s: &Vec<char>, p: &Vec<char>) -> (res: bool)
    ensures
        res == has_prefix(s@, p@),
{
    if p.len() > s.len() {
        return false;
    }
    let mut i: usize = 0;
    while i < p.len()
        invariant
            p.len() <= s.len(),
            i <= p.len(),
            forall|j: int| 0 <= j < i ==> s@[j] == p@[j],
        decreases p.len() - i,
    {
        if s[i] != p[i] {
            assert(s@.take(p.len() as int)[i as int] != p@[i as int]);
            return false;
        }
        i = i + 1;
    }
    assert(s@.take(p.len() as int) =~= p@);
    true
}

/// Whether `s` begins with the string `p`.
pub fn starts_with_str(s: &Vec<char>, p: &str) -> (res: bool)
    ensures
        res == has_prefix(s@, p@),
{
    let pc = chars_of(p);
    starts_with(s, &pc)
}

/// The characters of `s` from position `from` on.
pub fn suffix_from(s: &Vec<char>, from: usize) -> (res: Vec<char>)
    requires
        from <= s.len(),
    ensures
        res@ == s@.skip(from as int),
{
    let mut res = Vec::new();
    let mut i = from;
    while i < s.len()
        invariant
            from <= i <= s.len(),
            res@ == s@.subrange(from as int, i as int),
        decreases s.len() - i,
    {
        res.push(s[i]);
        i = i + 1;
        assert(res@ =~= s@.subrange(from as int, i as int));
    }
    assert(res@ =~= s@.skip(from as int));
    res
}

/// The characters of `s` before position `to`.
pub fn prefix_to(s: &Vec<char>, to: usize) -> (res: Vec<char>)
    requires
        to <= s.len(),
    ensures
        res@ == s@.take(to as int),
{
    let mut res = Vec::new();
    let mut i: usize = 0;
    while i < to
        invariant
            i <= to <= s.len(),
            res@ == s@.take(i as int),
        decreases to - i,
    {
        res.push(s[i]);
        i = i + 1;
        assert(res@ =~= s@.take(i as int));
    }
    res
}

/// The position of the first `c` in `s`, if any.
pub open spec fn first_index_of(s: Seq<char>, c: char) -> Option<int>
    decreases s.len(),
{
    if s.len() == 0 {
        None
    } else if s[0] == c {
        Some(0)
    } else {
        match first_index_of(s.drop_first(), c) {
            Some(i) => Some(i + 1),
            None => None,
        }
    }
}

proof fn lemma_first_index_of(s: Seq<char>, c: char, i: int)
    requires
        0 <= i <= s.len(),
        forall|j: int| 0 <= j < i ==> s[j] != c,
    ensures
        i < s.len() && s[i] == c ==> first_index_of(s, c) == Some(i),
        i == s.len() ==> first_index_of(s, c) is None,
    decreases i,
{
    if i > 0 {
        lemma_first_index_of(s.drop_first(), c, i - 1);
    }
}

/// The position of the first `c` in `s`, if any.
pub fn find_char(s: &Vec<char>, c: char) -> (res: Option<usize>)
    ensures
        match res {
            Some(i) => first_index_of(s@, c) == Some(i as int) && i < s@.len(),
            None => first_index_of(s@, c) is None,
        },
{
    let mut i: usize = 0;
    while i < s.len()
        invariant
            i <= s.len(),
            forall|j: int| 0 <= j < i ==> s@[j] != c,
        decreases s.len() - i,
    {
        if s[i] == c {
            proof {
                lemma_first_index_of(s@, c, i as int);
            }
            return Some(i);
        }
        i = i + 1;
    }
    proof {
        lemma_first_index_of(s@, c, i as int);
    }
    None
}

/// `s` split at its first `sep`, without the separator, if `sep` occurs.
pub open spec fn split_once_at(s: Seq<char>, sep: char) -> Option<(Seq<char>, Seq<char>)> {
    match first_index_of(s, sep) {
        Some(i) => Some((s.take(i), s.skip(i + 1))),
        None => None,
    }
}

/// Splits `s` at its first `sep`.
pub fn split_once(s: &Vec<char>, sep: char) -> (res: Option<(Vec<char>, Vec<char>)>)
    ensures
        match res {
            Some((a, b)) => split_once_at(s@, sep) == Some((a@, b@)),
            None => split_once_at(s@, sep) is None,
        },
{
    match find_char(s, sep) {
        Some(i) => {
            assert(i < s.len());
            Some((prefix_to(s, i), suffix_from(s, i + 1)))
        },
        None => None,
    }
}

/// The items of `parts` with `sep` between each two of them.
pub open spec fn join(parts: Seq<Seq<char>>, sep: Seq<char>) -> Seq<char>
    decreases parts.len(),
{
    if parts.len() == 0 {
        Seq::empty()
    } else if parts.len() == 1 {
        parts[0]
    } else {
        join(parts.drop_last(), sep) + sep + parts.last()
    }
}

/// The views of a list of strings.
pub open spec fn string_views(v: Seq<String>) -> Seq<Seq<char>> {
    v.map_values(|s: String| s@)
}

/// Joins strings with a separator between each two of them.
pub fn join_strings(parts: &Vec<String>, sep: &str) -> (res: Vec<char>)
    ensures
        res@ == join(string_views(parts@), sep@),
{
    let ghost pv = string_views(parts@);
    let mut res: Vec<char> = Vec::new();
    let mut i: usize = 0;
    while i < parts.len()
        invariant
            i <= parts.len(),
            pv == string_views(parts@),
            res@ == join(pv.take(i as int), sep@),
        decreases parts.len() - i,
    {
        assert(pv.take(i + 1).drop_last() =~= pv.take(i as int));
        if i > 0 {
            push_str(&mut res, sep);
        } else {
            assert(pv.take(0) =~= Seq::<Seq<char>>::empty());
        }
        push_str(&mut res, parts[i].as_str());
        i = i + 1;
    }
    assert(pv.take(parts.len() as int) =~= pv);
    res
}

/// The characters that `char::is_whitespace` accepts (Unicode `White_Space`).
pub open spec fn is_white(c: char) -> bool {
    let n = c as int;
    (0x9 <= n && n <= 0xd) || n == 0x20 || n == 0x85 || n == 0xa0 || n == 0x1680
        || (0x2000 <= n && n <= 0x200a) || n == 0x2028 || n == 0x2029 || n == 0x202f
        || n == 0x205f || n == 0x3000
}

/// Whether `c` is white space.
pub fn is_whitespace(c: char) -> (res: bool)
    ensures
        res == is_white(c),
{
    let n = c as u32;
    assert(n as int == c as int);
    (0x9 <= n && n <= 0xd) || n == 0x20 || n == 0x85 || n == 0xa0 || n == 0x1680
        || (0x2000 <= n && n <= 0x200a) || n == 0x2028 || n == 0x2029 || n == 0x202f
        || n == 0x205f || n == 0x3000
}

/// `s` without white space at its end.
pub open spec fn trim_end_of(s: Seq<char>) -> Seq<char>
    decreases s.len(),
{
    if s.len() > 0 && is_white(s.last()) {
        trim_end_of(s.drop_last())
    } else {
        s
    }
}

/// `s` without white space at its start.
pub open spec fn trim_start_of(s: Seq<char>) -> Seq<char>
    decreases s.len(),
{
    if s.len() > 0 && is_white(s[0]) {
        trim_start_of(s.drop_first())
    } else {
        s
    }
}

/// `s` without white space at either end.
pub open spec fn trim_of(s: Seq<char>) -> Seq<char> {
    trim_end_of(trim_start_of(s))
}

proof fn lemma_trim_start_skip(s: Seq<char>, i: int)
    requires
        0 <= i <= s.len(),
        forall|j: int| 0 <= j < i ==> is_white(#[trigger] s[j]),
    ensures
        trim_start_of(s) == trim_start_of(s.skip(i)),
    decreases i,
{
    if i > 0 {
        assert(s.drop_first().skip(i - 1) =~= s.skip(i));
        lemma_trim_start_skip(s.drop_first(), i - 1);
    } else {
        assert(s.skip(0) =~= s);
    }
}

proof fn lemma_trim_end_take(s: Seq<char>, i: int)
    requires
        0 <= i <= s.len(),
        forall|j: int| i <= j < s.len() ==> is_white(#[trigger] s[j]),
    ensures
        trim_end_of(s) == trim_end_of(s.take(i)),
    decreases s.len() - i,
{
    if i < s.len() {
        assert(s.drop_last().take(i) =~= s.take(i));
        lemma_trim_end_take(s.drop_last(), i);
    } else {
        assert(s.take(i) =~= s);
    }
}

/// Removes white space from the end.
pub fn trim_end(s: &Vec<char>) -> (res: Vec<char>)
    ensures
        res@ == trim_end_of(s@),
{
    let mut e = s.len();
    while e > 0 && is_whitespace(s[e - 1])
        invariant
            e <= s.len(),
            forall|j: int| e <= j < s.len() ==> is_white(#[trigger] s@[j]),
        decreases e,
    {
        e = e - 1;
    }
    proof {
        lemma_trim_end_take(s@, e as int);
    }
    prefix_to(s, e)
}

/// Removes white space from both ends.
pub fn trim(s: &Vec<char>) -> (res: Vec<char>)
    ensures
        res@ == trim_of(s@),
{
    let mut b: usize = 0;
    while b < s.len() && is_whitespace(s[b])
        invariant
            b <= s.len(),
            forall|j: int| 0 <= j < b ==> is_white(#[trigger] s@[j]),
        decreases s.len() - b,
    {
        b = b + 1;
    }
    proof {
        lemma_trim_start_skip(s@, b as int);
        let t = s@.skip(b as int);
        if t.len() > 0 {
            assert(t[0] == s@[b as int]);
        }
    }
    let rest = suffix_from(s, b);
    trim_end(&rest)
}

/// A line without the carriage return that ended it.
pub open spec fn strip_cr(l: Seq<char>) -> Seq<char> {
    if l.len() > 0 && l.last() == '\r' {
        l.drop_last()
    } else {
        l
    }
}

/// The lines of a text, as `str::lines` gives them: split at each `\n`, a `\r`
/// before it removed, no line after a final `\n`.
pub open spec fn lines_of(s: Seq<char>) -> Seq<Seq<char>>
    decreases s.len(),
{
    if s.len() == 0 {
        Seq::empty()
    } else {
        match first_index_of(s, '\n') {
            None => seq![s],
            Some(i) => if 0 <= i < s.len() {
                seq![strip_cr(s.take(i))] + lines_of(s.skip(i + 1))
            } else {
                Seq::empty()
            },
        }
    }
}

proof fn lemma_first_index_bounds(s: Seq<char>, c: char)
    ensures
        first_index_of(s, c) matches Some(i) ==> 0 <= i < s.len() && s[i] == c && forall|j: int| 0 <= j < i ==> s[j] != c,
    decreases s.len(),
{
    if s.len() > 0 {
        lemma_first_index_bounds(s.drop_first(), c);
        if first_index_of(s, c) is Some && s[0] != c {
            let i = first_index_of(s.drop_first(), c)->0;
            assert forall|j: int| 0 <= j < i + 1 implies s[j] != c by {
                if j > 0 {
                    assert(s[j] == s.drop_first()[j - 1]);
                }
            }
        }
    }
}

/// Splits a text into its lines.
pub fn lines(text: &str) -> (res: Vec<Vec<char>>)
    ensures
        res@.map_values(|l: Vec<char>| l@) == lines_of(text@),
{
    let cs = chars_of(text);
    let mut res: Vec<Vec<char>> = Vec::new();
    let mut pos: usize = 0;
    assert(cs@.skip(0) =~= cs@);
    assert(res@.map_values(|l: Vec<char>| l@) + lines_of(cs@) =~= lines_of(cs@));
    while pos < cs.len()
        invariant
            pos <= cs.len(),
            cs@ == text@,
            res@.map_values(|l: Vec<char>| l@) + lines_of(cs@.skip(pos as int)) == lines_of(cs@),
        decreases cs.len() - pos,
    {
        let ghost rest = cs@.skip(pos as int);
        let mut end = pos;
        while end < cs.len() && cs[end] != '\n'
            invariant
                pos <= end <= cs.len(),
                forall|j: int| pos <= j < end ==> cs@[j] != '\n',
            decreases cs.len() - end,
        {
            end = end + 1;
        }
        proof {
            assert forall|j: int| 0 <= j < end - pos implies rest[j] != '\n' by {
                assert(rest[j] == cs@[pos + j]);
            }
            lemma_first_index_of(rest, '\n', (end - pos) as int);
        }
        let mut line: Vec<char> = Vec::new();
        let mut k = pos;
        while k < end
            invariant
                pos <= k <= end <= cs.len(),
                line@ == cs@.subrange(pos as int, k as int),
            decreases end - k,
        {
            line.push(cs[k]);
            k = k + 1;
            assert(line@ =~= cs@.subrange(pos as int, k as int));
        }
        assert(line@ =~= rest.take(end - pos));
        let ghost prev = res@.map_values(|l: Vec<char>| l@);
        if end < cs.len() {
            if line.len() > 0 && line[line.len() - 1] == '\r' {
                line.pop();
            }
            assert(rest[end - pos] == cs@[end as int]);
            res.push(line);
            assert(rest.skip(end - pos + 1) =~= cs@.skip(end + 1));
            assert(res@.map_values(|l: Vec<char>| l@) =~= prev.push(strip_cr(rest.take(end - pos))));
            assert(lines_of(rest) == seq![strip_cr(rest.take(end - pos))] + lines_of(rest.skip(end - pos + 1)));
            assert(res@.map_values(|l: Vec<char>| l@) + lines_of(cs@.skip(end + 1)) =~= prev + lines_of(rest));
            pos = end + 1;
        } else {
            assert(rest.take(end - pos) =~= rest);
            res.push(line);
            assert(res@.map_values(|l: Vec<char>| l@) =~= prev.push(rest));
            assert(cs@.skip(end as int) =~= Seq::<char>::empty());
            assert(res@.map_values(|l: Vec<char>| l@) + lines_of(cs@.skip(end as int)) =~= prev + lines_of(rest));
            pos = end;
        }
    }
    assert(cs@.skip(cs.len() as int) =~= Seq::<char>::empty());
    assert(res@.map_values(|l: Vec<char>| l@) + Seq::<Seq<char>>::empty() =~= res@.map_values(|l: Vec<char>| l@));
    res
}

/// The first position at which `p` occurs in `s`.
pub open spec fn find_sub(s: Seq<char>, p: Seq<char>) -> Option<int>
    decreases s.len(),
{
    if has_prefix(s, p) {
        Some(0)
    } else if s.len() == 0 {
        None
    } else {
        match find_sub(s.drop_first(), p) {
            Some(i) => Some(i + 1),
            None => None,
        }
    }
}

/// `s` split at the first occurrence of `p`, without it.
pub open spec fn split_first(s: Seq<char>, p: Seq<char>) -> Option<(Seq<char>, Seq<char>)> {
    match find_sub(s, p) {
        Some(i) => Some((s.take(i), s.skip(i + p.len()))),
        None => None,
    }
}

proof fn lemma_find_sub(s: Seq<char>, p: Seq<char>, i: int)
    requires
        0 <= i <= s.len(),
        forall|j: int| 0 <= j < i ==> !has_prefix(#[trigger] s.skip(j), p),
    ensures
        find_sub(s, p) == match find_sub(s.skip(i), p) {
            Some(k) => Some(k + i),
            None => None,
        },
        find_sub(s, p) matches Some(k) ==> 0 <= k <= s.len() && k + p.len() <= s.len(),
    decreases i,
{
    if i > 0 {
        assert(s.skip(0) =~= s);
        assert(!has_prefix(s, p));
        assert forall|j: int| 0 <= j < i - 1 implies !has_prefix(#[trigger] s.drop_first().skip(j), p) by {
            assert(s.drop_first().skip(j) =~= s.skip(j + 1));
        }
        lemma_find_sub(s.drop_first(), p, i - 1);
        assert(s.drop_first().skip(i - 1) =~= s.skip(i));
    } else {
        assert(s.skip(0) =~= s);
        lemma_find_sub_bounds(s, p);
    }
}

proof fn lemma_find_sub_bounds(s: Seq<char>, p: Seq<char>)
    ensures
        find_sub(s, p) matches Some(k) ==> 0 <= k <= s.len() && k + p.len() <= s.len() && has_prefix(s.skip(k), p),
    decreases s.len(),
{
    if has_prefix(s, p) {
        assert(s.skip(0) =~= s);
    } else if s.len() > 0 {
        lemma_find_sub_bounds(s.drop_first(), p);
        if let Some(k) = find_sub(s.drop_first(), p) {
            assert(s.drop_first().skip(k) =~= s.skip(k + 1));
        }
    }
}

/// Splits `s` at the first occurrence of `p`.
pub fn split_first_str(s: &Vec<char>, p: &str) -> (res: Option<(Vec<char>, Vec<char>)>)
    ensures
        match res {
            Some((a, b)) => split_first(s@, p@) == Some((a@, b@)),
            None => split_first(s@, p@) is None,
        },
{
    let pc = chars_of(p);
    let mut i: usize = 0;
    while i < s.len()
        invariant
            i <= s.len(),
            pc@ == p@,
            forall|j: int| 0 <= j < i ==> !has_prefix(#[trigger] s@.skip(j), p@),
        decreases s.len() - i,
    {
        let rest = suffix_from(s, i);
        if starts_with(&rest, &pc) {
            proof {
                lemma_find_sub(s@, p@, i as int);
                assert(find_sub(s@.skip(i as int), p@) == Some(0int));
            }
            let a = prefix_to(s, i);
            let b = suffix_from(&rest, pc.len());
            assert(b@ =~= s@.skip(i + p@.len()));
            return Some((a, b));
        }
        i = i + 1;
    }
    proof {
        lemma_find_sub(s@, p@, i as int);
        assert(s@.skip(i as int) =~= Seq::<char>::empty());
    }
    let rest = suffix_from(s, i);
    if starts_with(&rest, &pc) {
        proof {
            assert(find_sub(s@.skip(i as int), p@) == Some(0int));
        }
        let a = prefix_to(s, i);
        return Some((a, Vec::new()));
    }
    None
}

/// Where the first white-space character of `s` stands, or its length where it
/// has none.
pub open spec fn word_end(s: Seq<char>) -> int
    decreases s.len(),
{
    if s.len() == 0 || is_white(s[0]) {
        0
    } else {
        1 + word_end(s.drop_first())
    }
}

/// The first word of `s` as `str::split_whitespace` yields it, where `s` has one.
pub open spec fn first_word(s: Seq<char>) -> Option<Seq<char>> {
    let t = trim_start_of(s);
    if t.len() == 0 {
        None
    } else {
        Some(t.take(word_end(t)))
    }
}

proof fn lemma_word_end(s: Seq<char>)
    ensures
        0 <= word_end(s) <= s.len(),
        forall|i: int| 0 <= i < word_end(s) ==> !is_white(#[trigger] s[i]),
        word_end(s) < s.len() ==> is_white(s[word_end(s)]),
    decreases s.len(),
{
    if s.len() > 0 && !is_white(s[0]) {
        lemma_word_end(s.drop_first());
        assert forall|i: int| 0 <= i < word_end(s) implies !is_white(#[trigger] s[i]) by {
            if i > 0 {
                assert(s[i] == s.drop_first()[i - 1]);
            }
        }
    }
}

proof fn lemma_trim_start(s: Seq<char>)
    ensures
        exists|k: int| 0 <= k <= s.len() && trim_start_of(s) == s.skip(k)
            && (forall|i: int| 0 <= i < k ==> is_white(#[trigger] s[i]))
            && (k < s.len() ==> !is_white(s[k])),
    decreases s.len(),
{
    if s.len() > 0 && is_white(s[0]) {
        lemma_trim_start(s.drop_first());
        let k = choose|k: int| 0 <= k <= s.drop_first().len() && trim_start_of(s.drop_first()) == s.drop_first().skip(k)
            && (forall|i: int| 0 <= i < k ==> is_white(#[trigger] s.drop_first()[i]))
            && (k < s.drop_first().len() ==> !is_white(s.drop_first()[k]));
        assert(s.drop_first().skip(k) =~= s.skip(k + 1));
        assert forall|i: int| 0 <= i < k + 1 implies is_white(#[trigger] s[i]) by {
            if i > 0 {
                assert(s[i] == s.drop_first()[i - 1]);
            }
        }
    } else {
        assert(s.skip(0) =~= s);
    }
}

/// The first word of `s`, split off at white space as `str::split_whitespace` does.
pub fn first_word_of(s: &Vec<char>) -> (res: Option<Vec<char>>)
    ensures
        match res {
            Some(w) => first_word(s@) == Some(w@),
            None => first_word(s@) is None,
        },
{
    let mut k: usize = 0;
    while k < s.len() && is_whitespace(s[k])
        invariant
            k <= s.len(),
            forall|i: int| 0 <= i < k ==> is_white(#[trigger] s@[i]),
        decreases s.len() - k,
    {
        k = k + 1;
    }
    proof {
        lemma_trim_start(s@);
        let k2 = choose|k2: int| 0 <= k2 <= s@.len() && trim_start_of(s@) == s@.skip(k2)
            && (forall|i: int| 0 <= i < k2 ==> is_white(#[trigger] s@[i]))
            && (k2 < s@.len() ==> !is_white(s@[k2]));
        if k2 < k {
            assert(is_white(s@[k2]));
        }
        if k < k2 {
            assert(is_white(s@[k as int]));
        }
        assert(k2 == k);
    }
    if k == s.len() {
        assert(trim_start_of(s@).len() == 0);
        return None;
    }
    let mut e: usize = k;
    while e < s.len() && !is_whitespace(s[e])
        invariant
            k <= e <= s.len(),
            forall|i: int| k <= i < e ==> !is_white(#[trigger] s@[i]),
        decreases s.len() - e,
    {
        e = e + 1;
    }
    let ghost t = trim_start_of(s@);
    proof {
        assert(t =~= s@.skip(k as int));
        lemma_word_end(t);
        let we = word_end(t);
        if we < e - k {
            assert(is_white(t[we]));
            assert(t[we] == s@[k + we]);
        }
        if e - k < we {
            assert(!is_white(t[e - k]));
            assert(t[e - k] == s@[e as int]);
        }
        assert(we == e - k);
    }
    let mut w: Vec<char> = Vec::new();
    let mut i: usize = k;
    while i < e
        invariant
            k <= i <= e <= s.len(),
            w@ == s@.subrange(k as int, i as int),
        decreases e - i,
    {
        w.push(s[i]);
        i = i + 1;
        assert(w@ =~= s@.subrange(k as int, i as int));
    }
    assert(w@ =~= t.take(word_end(t)));
    Some(w)
}

/// Whether `c` is one of the ASCII digits.
pub open spec fn is_digit(c: char) -> bool {
    '0' <= c && c <= '9'
}

/// The number that a run of ASCII digits writes.
pub open spec fn digits_value(d: Seq<char>) -> int
    decreases d.len(),
{
    if d.len() == 0 {
        0
    } else {
        digits_value(d.drop_last()) * 10 + (d.last() as int - '0' as int)
    }
}

/// Every character of `d` is an ASCII digit.
pub open spec fn all_digits(d: Seq<char>) -> bool {
    forall|i: int| 0 <= i < d.len() ==> is_digit(#[trigger] d[i])
}

/// The number that `str::parse::<usize>` reads from `t`: an optional `+`, then at
/// least one ASCII digit and nothing else, of a value that fits a `usize`.
pub open spec fn parse_unsigned(t: Seq<char>) -> Option<int> {
    let d = if t.len() > 0 && t[0] == '+' { t.drop_first() } else { t };
    if d.len() > 0 && all_digits(d) && digits_value(d) <= usize::MAX {
        Some(digits_value(d))
    } else {
        None
    }
}

pub proof fn lemma_digits_value_mono(d: Seq<char>, i: int, j: int)
    requires
        0 <= i <= j <= d.len(),
        forall|k: int| 0 <= k < j ==> is_digit(#[trigger] d[k]),
    ensures
        0 <= digits_value(d.take(i)) <= digits_value(d.take(j)),
    decreases j,
{
    if j == 0 {
        assert(d.take(0) =~= Seq::<char>::empty());
    } else {
        if i < j {
            lemma_digits_value_mono(d, i, j - 1);
        } else {
            lemma_digits_value_mono(d, j - 1, j - 1);
        }
        assert(d.take(j).drop_last() =~= d.take(j - 1));
        assert(d.take(j).last() == d[j - 1]);
    }
}

/// A run of digits whose start already exceeds a `usize` is no `usize`.
proof fn lemma_parse_overflow(t: Seq<char>, m: int)
    requires
        ({
            let d = if t.len() > 0 && t[0] == '+' { t.drop_first() } else { t };
            &&& 0 <= m <= d.len()
            &&& forall|k: int| 0 <= k < m ==> is_digit(#[trigger] d[k])
            &&& digits_value(d.take(m)) > usize::MAX
        }),
    ensures
        parse_unsigned(t) is None,
{
    let d = if t.len() > 0 && t[0] == '+' { t.drop_first() } else { t };
    if forall|k: int| 0 <= k < d.len() ==> is_digit(#[trigger] d[k]) {
        lemma_digits_value_mono(d, m, d.len() as int);
        assert(d.take(d.len() as int) =~= d);
        assert(digits_value(d) > usize::MAX);
    } else {
        let k = choose|k: int| 0 <= k < d.len() && !is_digit(#[trigger] d[k]);
        assert(!is_digit(d[k]));
    }
}

/// A character other than a digit makes the text no number.
proof fn lemma_parse_non_digit(t: Seq<char>, k: int)
    requires
        ({
            let d = if t.len() > 0 && t[0] == '+' { t.drop_first() } else { t };
            0 <= k < d.len() && !is_digit(d[k])
        }),
    ensures
        parse_unsigned(t) is None,
{
    let d = if t.len() > 0 && t[0] == '+' { t.drop_first() } else { t };
    assert(!is_digit(d[k]));
}

/// Reads a `usize` written in decimal, as `str::parse::<usize>` does.
pub fn parse_usize(t: &Vec<char>) -> (res: Option<usize>)
    ensures
        match res {
            Some(n) => parse_unsigned(t@) == Some(n as int),
            None => parse_unsigned(t@) is None,
        },
{
    let start: usize = if t.len() > 0 && t[0] == '+' { 1 } else { 0 };
    let ghost d = if t@.len() > 0 && t@[0] == '+' { t@.drop_first() } else { t@ };
    assert(d =~= t@.skip(start as int));
    if start == t.len() {
        return None;
    }
    let mut i: usize = start;
    let mut v: usize = 0;
    assert(d.take(0) =~= Seq::<char>::empty());
    while i < t.len()
        invariant
            start <= i <= t.len(),
            start < t.len(),
            d == (if t@.len() > 0 && t@[0] == '+' { t@.drop_first() } else { t@ }),
            d =~= t@.skip(start as int),
            forall|k: int| 0 <= k < i - start ==> is_digit(#[trigger] d[k]),
            v == digits_value(d.take(i - start)),
        decreases t.len() - i,
    {
        let c = t[i];
        assert(d[i - start] == c);
        if !('0' <= c && c <= '9') {
            proof {
                lemma_parse_non_digit(t@, i - start);
            }
            return None;
        }
        let dig: usize = (c as u32 - 48u32) as usize;
        assert(dig == c as int - '0' as int);
        assert(d.take(i - start + 1).drop_last() =~= d.take(i - start));
        assert(d.take(i - start + 1).last() == c);
        proof {
            lemma_digits_value_mono(d, i - start, i - start);
        }
        match v.checked_mul(10) {
            Some(m) => match m.checked_add(dig) {
                Some(nv) => {
                    v = nv;
                },
                None => {
                    proof {
                        lemma_parse_overflow(t@, i - start + 1);
                    }
                    return None;
                },
            },
            None => {
                proof {
                    lemma_parse_overflow(t@, i - start + 1);
                }
                return None;
            },
        }
        i = i + 1;
    }
    assert(d.take(d.len() as int) =~= d);
    Some(v)
}

/// `s` ends with `p`.
pub open spec fn has_suffix(s: Seq<char>, p: Seq<char>) -> bool {
    p.len() <= s.len() && s.skip(s.len() - p.len()) == p
}

/// Whether `s` ends with `p`.
pub fn ends_with_str(s: &Vec<char>, p: &str) -> (res: bool)
    ensures
        res == has_suffix(s@, p@),
{
    let pc = chars_of(p);
    if pc.len() > s.len() {
        return false;
    }
    let tail = suffix_from(s, s.len() - pc.len());
    let same = starts_with(&tail, &pc);
    proof {
        if same {
            assert(tail@ =~= pc@);
        } else if tail@ == pc@ {
            assert(tail@.take(pc@.len() as int) =~= pc@);
        }
    }
    same
}

/// The last place before `n` where `p` starts in `s`.
pub open spec fn last_sub_before(s: Seq<char>, p: Seq<char>, n: int) -> Option<int>
    decreases n,
{
    if n <= 0 {
        None
    } else if has_prefix(s.skip(n - 1), p) {
        Some(n - 1)
    } else {
        last_sub_before(s, p, n - 1)
    }
}

/// `s` split at the last occurrence of `p`, as `str::rsplit_once` splits it.
pub open spec fn rsplit_at(s: Seq<char>, p: Seq<char>) -> Option<(Seq<char>, Seq<char>)> {
    match last_sub_before(s, p, s.len() as int + 1) {
        Some(i) => Some((s.take(i), s.skip(i + p.len()))),
        None => None,
    }
}

proof fn lemma_last_sub_before(s: Seq<char>, p: Seq<char>, n: int, k: int)
    requires
        0 <= k < n,
        forall|j: int| k < j < n ==> !has_prefix(#[trigger] s.skip(j), p),
    ensures
        last_sub_before(s, p, n) == last_sub_before(s, p, k + 1),
    decreases n,
{
    if n > k + 1 {
        assert(!has_prefix(s.skip(n - 1), p));
        lemma_last_sub_before(s, p, n - 1, k);
    }
}

/// Splits `s` at the last occurrence of `p`.
pub fn rsplit_sub(s: &Vec<char>, p: &str) -> (res: Option<(Vec<char>, Vec<char>)>)
    ensures
        match res {
            Some((a, b)) => rsplit_at(s@, p@) == Some((a@, b@)),
            None => rsplit_at(s@, p@) is None,
        },
{
    let pc = chars_of(p);
    let mut k: usize = s.len();
    loop
        invariant
            k <= s.len(),
            pc@ == p@,
            forall|j: int| k < j <= s.len() ==> !has_prefix(#[trigger] s@.skip(j), p@),
        decreases k,
    {
        let rest = suffix_from(s, k);
        if starts_with(&rest, &pc) {
            proof {
                lemma_last_sub_before(s@, p@, s@.len() as int + 1, k as int);
            }
            if pc.len() > rest.len() {
                return None;
            }
            let a = prefix_to(s, k);
            let b = suffix_from(&rest, pc.len());
            assert(b@ =~= s@.skip(k + p@.len()));
            return Some((a, b));
        }
        if k == 0 {
            proof {
                lemma_last_sub_before(s@, p@, s@.len() as int + 1, 0);
                assert(last_sub_before(s@, p@, 0) is None);
            }
            return None;
        }
        k = k - 1;
    }
}

proof fn lemma_digit_char(k: nat)
    requires
        k < 10,
    ensures
        digit_char(k) as int - '0' as int == k,
        is_digit(digit_char(k)),
{
    assert('0' as int == 48);
    assert('9' as int == 57);
    if k == 0 {
    } else if k == 1 {
        assert('1' as int == 49);
    } else if k == 2 {
        assert('2' as int == 50);
    } else if k == 3 {
        assert('3' as int == 51);
    } else if k == 4 {
        assert('4' as int == 52);
    } else if k == 5 {
        assert('5' as int == 53);
    } else if k == 6 {
        assert('6' as int == 54);
    } else if k == 7 {
        assert('7' as int == 55);
    } else if k == 8 {
        assert('8' as int == 56);
    }
}

proof fn lemma_decimal_digits(n: nat)
    ensures
        decimal(n).len() > 0,
        all_digits(decimal(n)),
        digits_value(decimal(n)) == n,
    decreases n,
{
    if n < 10 {
        lemma_digit_char(n);
        assert(decimal(n).drop_last() =~= Seq::<char>::empty());
        assert(digits_value(Seq::<char>::empty()) == 0);
    } else {
        lemma_digit_char(n % 10);
        lemma_decimal_digits(n / 10);
        let d = decimal(n);
        assert(d.drop_last() =~= decimal(n / 10));
        assert(d.last() == digit_char(n % 10));
        assert(n == (n / 10) * 10 + n % 10) by (nonlinear_arith);
        assert(digits_value(d) == digits_value(decimal(n / 10)) * 10 + (n % 10));
        assert forall|i: int| 0 <= i < d.len() implies is_digit(#[trigger] d[i]) by {
            if i < d.len() - 1 {
                assert(d[i] == decimal(n / 10)[i]);
            }
        }
    }
}

/// Reading back a number written in decimal gives the number: `parse_usize` undoes
/// `format_u64` for every value that fits a `usize`.
pub proof fn law_decimal_round_trip(n: nat)
    requires
        n <= usize::MAX,
    ensures
        parse_unsigned(decimal(n)) == Some(n as int),
{
    lemma_decimal_digits(n);
    let d = decimal(n);
    if d[0] == '+' {
        assert(is_digit(d[0]));
    }
}

} // verus!
