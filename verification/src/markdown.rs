//! Markdown text for the agendas: escaping and short links.

use vstd::prelude::*;

use crate::text::{chars_of, has_prefix, push_chars, push_str, split_once, split_once_at, starts_with, string_of, suffix_from};

verus! {

/// The characters that Markdown would otherwise read as markup.
pub open spec fn is_markup(c: char) -> bool {
    c == '_' || c == '*' || c == '\\' || c == '[' || c == ']' || c == '-' || c == '<' || c == '>'
}

/// `cs` escaped for Markdown: each markup character outside inline code gets a
/// backslash before it; a backtick opens or closes inline code.
pub open spec fn escape_code_aware(cs: Seq<char>, inside_code: bool) -> Seq<char>
    decreases cs.len(),
{
    if cs.len() == 0 {
        Seq::empty()
    } else {
        let c = cs[0];
        let rest = cs.drop_first();
        if c == '`' {
            seq![c] + escape_code_aware(rest, !inside_code)
        } else if is_markup(c) && !inside_code {
            seq!['\\', c] + escape_code_aware(rest, inside_code)
        } else {
            seq![c] + escape_code_aware(rest, inside_code)
        }
    }
}

/// The escaped form of a title.
pub open spec fn escaped(cs: Seq<char>) -> Seq<char> {
    escape_code_aware(cs, false)
}

/// The number of backticks in `cs`.
pub open spec fn backticks(cs: Seq<char>) -> nat
    decreases cs.len(),
{
    if cs.len() == 0 {
        0
    } else {
        (if cs.last() == '`' { 1nat } else { 0nat }) + backticks(cs.drop_last())
    }
}

/// What escaping adds for `c` after `cs` was escaped starting `inside` code or not.
pub open spec fn escape_step(cs: Seq<char>, c: char, inside: bool) -> Seq<char> {
    if c == '`' {
        seq![c]
    } else if is_markup(c) && (inside == (backticks(cs) % 2 == 1)) {
        seq!['\\', c]
    } else {
        seq![c]
    }
}

proof fn lemma_escape_push(cs: Seq<char>, c: char, inside: bool)
    ensures
        escape_code_aware(cs.push(c), inside) == escape_code_aware(cs, inside) + escape_step(cs, c, inside),
    decreases cs.len(),
{
    if cs.len() == 0 {
        assert(cs.push(c).drop_first() =~= Seq::<char>::empty());
        assert(backticks(cs) == 0);
        assert(escape_code_aware(cs, inside) =~= Seq::<char>::empty());
        assert(escape_code_aware(cs.push(c).drop_first(), !inside) =~= Seq::<char>::empty());
        assert(escape_code_aware(cs.push(c).drop_first(), inside) =~= Seq::<char>::empty());
        assert(escape_code_aware(cs.push(c), inside) =~= escape_step(cs, c, inside));
    } else {
        let rest = cs.drop_first();
        assert(cs.push(c).drop_first() =~= rest.push(c));
        assert(cs.push(c)[0] == cs[0]);
        let inner = if cs[0] == '`' { !inside } else { inside };
        lemma_escape_push(rest, c, inner);
        lemma_backticks_first(cs);
        assert(escape_step(rest, c, inner) == escape_step(cs, c, inside));
        let pre = if cs[0] == '`' { seq![cs[0]] } else if is_markup(cs[0]) && !inside { seq!['\\', cs[0]] } else { seq![cs[0]] };
        assert(escape_code_aware(cs, inside) == pre + escape_code_aware(rest, inner));
        assert(escape_code_aware(cs.push(c), inside) == pre + escape_code_aware(rest.push(c), inner));
        assert(pre + (escape_code_aware(rest, inner) + escape_step(rest, c, inner)) =~= (pre + escape_code_aware(rest, inner)) + escape_step(rest, c, inner));
    }
}

proof fn lemma_backticks_first(cs: Seq<char>)
    requires
        cs.len() > 0,
    ensures
        backticks(cs) == (if cs[0] == '`' { 1nat } else { 0nat }) + backticks(cs.drop_first()),
    decreases cs.len(),
{
    if cs.len() > 1 {
        lemma_backticks_first(cs.drop_last());
        assert(cs.drop_last().drop_first() =~= cs.drop_first().drop_last());
        assert(cs.drop_first().last() == cs.last());
    } else {
        assert(cs.drop_first() =~= Seq::<char>::empty());
        assert(cs.drop_last() =~= Seq::<char>::empty());
    }
}

/// The backticks of two texts put together are those of each.
proof fn lemma_backticks_concat(x: Seq<char>, y: Seq<char>)
    ensures
        backticks(x + y) == backticks(x) + backticks(y),
    decreases y.len(),
{
    if y.len() == 0 {
        assert(x + y =~= x);
    } else {
        lemma_backticks_concat(x, y.drop_last());
        assert((x + y).drop_last() =~= x + y.drop_last());
        assert((x + y).last() == y.last());
    }
}

/// Escaping two texts put together escapes the second starting inside code
/// exactly where the first leaves it so.
proof fn lemma_escape_concat(x: Seq<char>, y: Seq<char>, inside: bool)
    ensures
        escape_code_aware(x + y, inside)
            == escape_code_aware(x, inside) + escape_code_aware(y, inside != (backticks(x) % 2 == 1)),
    decreases x.len(),
{
    if x.len() == 0 {
        assert(x + y =~= y);
        assert(escape_code_aware(x, inside) =~= Seq::<char>::empty());
        assert(Seq::<char>::empty() + escape_code_aware(y, inside) =~= escape_code_aware(y, inside));
    } else {
        let rest = x.drop_first();
        assert((x + y).drop_first() =~= rest + y);
        assert((x + y)[0] == x[0]);
        let inner = if x[0] == '`' { !inside } else { inside };
        lemma_escape_concat(rest, y, inner);
        lemma_backticks_first(x);
        let pre = if x[0] == '`' { seq![x[0]] } else if is_markup(x[0]) && !inside { seq!['\\', x[0]] } else { seq![x[0]] };
        let tail = escape_code_aware(y, inside != (backticks(x) % 2 == 1));
        assert(escape_code_aware(x, inside) == pre + escape_code_aware(rest, inner));
        assert(escape_code_aware(x + y, inside) == pre + escape_code_aware(rest + y, inner));
        assert(pre + (escape_code_aware(rest, inner) + tail) =~= (pre + escape_code_aware(rest, inner)) + tail);
    }
}

/// Text without backticks, escaped inside code, is left as it is.
proof fn lemma_code_untouched(code: Seq<char>)
    requires
        forall|i: int| 0 <= i < code.len() ==> code[i] != '`',
    ensures
        escape_code_aware(code, true) == code,
        backticks(code) == 0,
    decreases code.len(),
{
    if code.len() > 0 {
        lemma_code_untouched(code.drop_first());
        lemma_backticks_first(code);
        assert(seq![code[0]] + code.drop_first() =~= code);
    } else {
        assert(escape_code_aware(code, true) =~= code);
    }
}

/// Inline code is never escaped: where a backtick span stands after text with an
/// even number of backticks, the span comes out as it is, and the text around it
/// is escaped as it would be on its own.
pub proof fn law_code_spans_untouched(a: Seq<char>, code: Seq<char>, b: Seq<char>)
    requires
        backticks(a) % 2 == 0,
        forall|i: int| 0 <= i < code.len() ==> code[i] != '`',
    ensures
        escaped(a + seq!['`'] + code + seq!['`'] + b) == escaped(a) + seq!['`'] + code + seq!['`'] + escaped(b),
{
    let t = seq!['`'];
    lemma_code_untouched(code);
    assert(t.drop_first() =~= Seq::<char>::empty());
    assert(t[0] == '`');
    assert(escape_code_aware(t.drop_first(), true) =~= Seq::<char>::empty());
    assert(escape_code_aware(t.drop_first(), false) =~= Seq::<char>::empty());
    assert(escape_code_aware(t, false) == seq![t[0]] + escape_code_aware(t.drop_first(), true));
    assert(escape_code_aware(t, true) == seq![t[0]] + escape_code_aware(t.drop_first(), false));
    assert(escape_code_aware(t, false) =~= t);
    assert(escape_code_aware(t, true) =~= t);
    assert(backticks(t.drop_last()) == 0) by {
        assert(t.drop_last() =~= Seq::<char>::empty());
    }
    assert(backticks(t) == 1);
    lemma_backticks_concat(a, t);
    lemma_backticks_concat(a + t, code);
    lemma_backticks_concat(a + t + code, t);
    lemma_escape_concat(a, t, false);
    lemma_escape_concat(a + t, code, false);
    lemma_escape_concat(a + t + code, t, false);
    lemma_escape_concat(a + t + code + t, b, false);
}

/// Escapes Markdown markup in a title, except inside inline code.
pub fn escape(v: &str) -> (res: String)
    ensures
        res@ == escaped(v@),
{
    let cs = chars_of(v);
    let mut out: Vec<char> = Vec::new();
    let mut inside_code = false;
    let mut i: usize = 0;
    while i < cs.len()
        invariant
            i <= cs.len(),
            cs@ == v@,
            out@ == escaped(cs@.take(i as int)),
            inside_code == (backticks(cs@.take(i as int)) % 2 == 1),
        decreases cs.len() - i,
    {
        let c = cs[i];
        proof {
            assert(cs@.take(i + 1) =~= cs@.take(i as int).push(c));
            lemma_escape_push(cs@.take(i as int), c, false);
            assert(cs@.take(i + 1).drop_last() =~= cs@.take(i as int));
        }
        if c == '`' {
            inside_code = !inside_code;
        } else if (c == '_' || c == '*' || c == '\\' || c == '[' || c == ']' || c == '-' || c == '<'
            || c == '>') && !inside_code {
            out.push('\\');
        }
        out.push(c);
        i = i + 1;
    }
    assert(cs@.take(cs.len() as int) =~= cs@);
    string_of(&out)
}

/// `cs` with a backslash before every markup character and every backtick.
pub open spec fn escape_everything(cs: Seq<char>) -> Seq<char>
    decreases cs.len(),
{
    if cs.len() == 0 {
        Seq::empty()
    } else {
        escape_everything(cs.drop_last()) + (if is_markup(cs.last()) || cs.last() == '`' {
            seq!['\\', cs.last()]
        } else {
            seq![cs.last()]
        })
    }
}

/// Escapes every markup character and every backtick.
pub fn escape_all(v: &str) -> (res: String)
    ensures
        res@ == escape_everything(v@),
{
    let cs = chars_of(v);
    let mut out: Vec<char> = Vec::new();
    let mut i: usize = 0;
    while i < cs.len()
        invariant
            i <= cs.len(),
            cs@ == v@,
            out@ == escape_everything(cs@.take(i as int)),
        decreases cs.len() - i,
    {
        let c = cs[i];
        assert(cs@.take(i + 1).drop_last() =~= cs@.take(i as int));
        match c {
            '_' | '*' | '\\' | '[' | ']' | '-' | '<' | '>' | '`' => out.push('\\'),
            _ => {},
        }
        out.push(c);
        i = i + 1;
    }
    assert(cs@.take(cs.len() as int) =~= cs@);
    string_of(&out)
}

/// How a shortened link is written.
#[derive(PartialEq, Eq, Structural, Clone, Copy, Debug)]
pub enum Shorten {
    /// As Markdown link text with the link itself as its target.
    Text,
    /// As the bare link target.
    Href,
}

/// The short forms of the links that the agendas show, in the order they are tried:
/// the prefix that is replaced and its replacement.
pub open spec fn short_forms() -> Seq<(Seq<char>, Seq<char>)> {
    seq![
        ("https://github.com/rust-lang/rust/issues/"@, "rust.tf/"@),
        ("https://github.com/rust-lang/rust/pull/"@, "rust.tf/"@),
        ("https://github.com/rust-lang/rfcs/issues/"@, "rust.tf/rfc"@),
        ("https://github.com/rust-lang/rfcs/pull/"@, "rust.tf/rfc"@),
        ("https://github.com/rust-lang/libs-team/issues/"@, "rust.tf/libs"@),
        ("https://github.com/rust-lang/libs-team/pull/"@, "rust.tf/libs"@),
        ("https://github.com/rust-lang/stdarch/issues/"@, "rust.tf/stdarch"@),
        ("https://github.com/rust-lang/stdarch/pull/"@, "rust.tf/stdarch"@),
        ("https://"@, ""@),
    ]
}

/// `url` with the first matching prefix of `forms` (from position `i` on) replaced.
pub open spec fn short_url_from(url: Seq<char>, forms: Seq<(Seq<char>, Seq<char>)>, i: int) -> Seq<char>
    decreases forms.len() - i,
{
    if i < 0 || i >= forms.len() {
        url
    } else if has_prefix(url, forms[i].0) {
        forms[i].1 + url.skip(forms[i].0.len() as int)
    } else {
        short_url_from(url, forms, i + 1)
    }
}

/// The short form of a link without its anchor.
pub open spec fn short_url(url: Seq<char>) -> Seq<char> {
    short_url_from(url, short_forms(), 0)
}

/// A short link with its anchor, written as `kind` says.
pub open spec fn with_anchor(short: Seq<char>, anchor: Seq<char>, kind: Shorten) -> Seq<char> {
    if anchor.len() == 0 {
        short
    } else {
        match kind {
            Shorten::Text => "["@ + short + "](https://"@ + short + "#"@ + anchor + ")"@,
            Shorten::Href => "https://"@ + short + "#"@ + anchor,
        }
    }
}

/// The link `url` shortened: the part before the first `#` shortened, the rest kept
/// as its anchor.
pub open spec fn shortened(url: Seq<char>, kind: Shorten) -> Seq<char> {
    match split_once_at(url, '#') {
        Some((u, a)) => with_anchor(short_url(u), a, kind),
        None => with_anchor(short_url(url), Seq::empty(), kind),
    }
}

fn short_form(i: usize) -> (res: (&'static str, &'static str))
    requires
        i < 9,
    ensures
        res.0@ == short_forms()[i as int].0,
        res.1@ == short_forms()[i as int].1,
{
    if i == 0 {
        ("https://github.com/rust-lang/rust/issues/", "rust.tf/")
    } else if i == 1 {
        ("https://github.com/rust-lang/rust/pull/", "rust.tf/")
    } else if i == 2 {
        ("https://github.com/rust-lang/rfcs/issues/", "rust.tf/rfc")
    } else if i == 3 {
        ("https://github.com/rust-lang/rfcs/pull/", "rust.tf/rfc")
    } else if i == 4 {
        ("https://github.com/rust-lang/libs-team/issues/", "rust.tf/libs")
    } else if i == 5 {
        ("https://github.com/rust-lang/libs-team/pull/", "rust.tf/libs")
    } else if i == 6 {
        ("https://github.com/rust-lang/stdarch/issues/", "rust.tf/stdarch")
    } else if i == 7 {
        ("https://github.com/rust-lang/stdarch/pull/", "rust.tf/stdarch")
    } else {
        ("https://", "")
    }
}

fn short_url_exec(url: &Vec<char>) -> (res: Vec<char>)
    ensures
        res@ == short_url(url@),
{
    let mut i: usize = 0;
    while i < 9
        invariant
            i <= 9,
            short_url(url@) == short_url_from(url@, short_forms(), i as int),
        decreases 9 - i,
    {
        let (prefix, replacement) = short_form(i);
        let p = chars_of(prefix);
        if starts_with(url, &p) {
            let mut res = chars_of(replacement);
            let mut rest = suffix_from(url, p.len());
            res.append(&mut rest);
            return res;
        }
        i = i + 1;
    }
    url.clone()
}

/// Shortens a link to one of the project's repositories, keeping its anchor.
pub fn shorten(url: &str, kind: Shorten) -> (res: String)
    ensures
        res@ == shortened(url@, kind),
{
    let cs = chars_of(url);
    let (u, anchor) = match split_once(&cs, '#') {
        Some((u, a)) => (u, a),
        None => (cs.clone(), Vec::new()),
    };
    let short = short_url_exec(&u);
    let mut out: Vec<char> = Vec::new();
    if anchor.len() == 0 {
        push_chars(&mut out, &short);
    } else {
        match kind {
            Shorten::Text => {
                push_str(&mut out, "[");
                push_chars(&mut out, &short);
                push_str(&mut out, "](https://");
                push_chars(&mut out, &short);
                push_str(&mut out, "#");
                push_chars(&mut out, &anchor);
                push_str(&mut out, ")");
            },
            Shorten::Href => {
                push_str(&mut out, "https://");
                push_chars(&mut out, &short);
                push_str(&mut out, "#");
                push_chars(&mut out, &anchor);
            },
        }
    }
    proof {
        if anchor@.len() == 0 {
            assert(out@ =~= short@);
        }
    }
    string_of(&out)
}

} // verus!
