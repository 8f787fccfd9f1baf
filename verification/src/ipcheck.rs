//! Comparing what implementations of IP address methods in several languages answer
//! for the same addresses, against the Rust reference implementation.

use vstd::prelude::*;

use crate::strmap::{keys_sorted, lemma_seq_remove, seq_insert, seq_keys, seq_remove, StrMap, TextOrder};
use crate::issues::in_set;
use crate::text::{
    chars_of, has_prefix, lines, lines_of, push_chars, push_str, split_first, split_first_str,
    string_of, string_views, starts_with_str,
};

verus! {

/// The implementation that the others are compared against.
pub open spec fn ref_lang() -> Seq<char> {
    "Rust (New)"@
}

/// Whether `lang` is one of the Rust implementations.
pub fn is_ref(lang: &str) -> (res: bool)
    ensures
        res == has_prefix(lang@, "Rust"@),
{
    let l = chars_of(lang);
    starts_with_str(&l, "Rust")
}

/// An IP address: version 4 or 6, with its bits.
#[derive(PartialEq, Eq, Structural, Clone, Copy, Debug)]
pub enum IpValue {
    V4(u32),
    V6(u128),
}

/// A value in an implementation's JSON output: its JSON text, the string it holds
/// if it is a string, and the IP address that string denotes if it denotes one.
pub struct JsonValue {
    pub rendered: String,
    pub text: Option<String>,
    pub ip: Option<IpValue>,
}

/// What a JSON value holds.
pub struct JsonView {
    pub rendered: Seq<char>,
    pub text: Option<Seq<char>>,
    pub ip: Option<IpValue>,
}

impl View for JsonValue {
    type V = JsonView;

    open spec fn view(&self) -> JsonView {
        JsonView {
            rendered: self.rendered@,
            text: match self.text {
                Some(t) => Some(t@),
                None => None,
            },
            ip: self.ip,
        }
    }
}

/// A value of an implementation's JSON output as read: its JSON text, and the
/// string it holds if it is a string.
pub struct JsonText {
    pub rendered: String,
    pub text: Option<String>,
}

impl View for JsonText {
    type V = (Seq<char>, Option<Seq<char>>);

    open spec fn view(&self) -> (Seq<char>, Option<Seq<char>>) {
        (self.rendered@, match self.text {
            Some(t) => Some(t@),
            None => None,
        })
    }
}

/// What `serde_json::from_str` reads from `out` as a JSON object
/// (`serde_json::Map<String, Value>`): its entries in the order the map lists
/// them, each with the value's JSON text (`Value::to_string`) and, for a string,
/// the string (`Value::as_str`); `None` where `out` is not a JSON object.
pub uninterp spec fn json_object_read(out: Seq<char>) -> Option<Seq<(Seq<char>, Seq<char>, Option<Seq<char>>)>>;

/// The views of the entries of a JSON object.
pub open spec fn json_entry_views(v: Seq<(String, String, Option<String>)>) -> Seq<(Seq<char>, Seq<char>, Option<Seq<char>>)> {
    v.map_values(|e: (String, String, Option<String>)| (e.0@, e.1@, match e.2 {
        Some(t) => Some(t@),
        None => None,
    }))
}

/// `serde_json::from_str` into a `serde_json::Map<String, Value>`, with each entry
/// taken out as its key, its JSON text and, for a string, the string.
#[verifier::external_body]
fn read_json_object(out: &str) -> (res: Option<Vec<(String, String, Option<String>)>>)
    ensures
        res is Some == json_object_read(out@) is Some,
        res matches Some(v) ==> json_object_read(out@) == Some(json_entry_views(v@)),
{
    serde_json::from_str::<serde_json::Map<String, serde_json::Value>>(out)
        .ok()
        .map(|m| m.iter().map(|(k, v)| (k.clone(), v.to_string(), v.as_str().map(|t| t.to_owned()))).collect())
}

/// The map holding the first `n` entries of a JSON object, each stored in turn.
pub open spec fn json_map(es: Seq<(Seq<char>, Seq<char>, Option<Seq<char>>)>, n: int) -> Seq<(Seq<char>, (Seq<char>, Option<Seq<char>>))>
    decreases n,
{
    if n <= 0 {
        Seq::empty()
    } else {
        seq_insert(json_map(es, n - 1), es[n - 1].0, (es[n - 1].1, es[n - 1].2))
    }
}

/// Reads what an implementation printed for one address: a JSON object of its
/// answers, by operation. `None` where the output is not a JSON object.
pub fn parse_answer(out: &str) -> (res: Option<StrMap<JsonText>>)
    ensures
        res is Some == json_object_read(out@) is Some,
        res matches Some(m) ==> m@ == json_map(json_object_read(out@)->0, json_object_read(out@)->0.len() as int),
{
    let entries = match read_json_object(out) {
        Some(v) => v,
        None => {
            return None;
        },
    };
    let ghost es = json_entry_views(entries@);
    let mut m: StrMap<JsonText> = StrMap::new();
    let mut i: usize = 0;
    while i < entries.len()
        invariant
            i <= entries@.len(),
            es == json_entry_views(entries@),
            m@ == json_map(es, i as int),
        decreases entries@.len() - i,
    {
        let (k, r, t) = &entries[i];
        let value = JsonText { rendered: r.clone(), text: t.clone() };
        assert(value@ == (es[i as int].1, es[i as int].2));
        m.insert(k.clone(), value);
        i = i + 1;
    }
    Some(m)
}

/// The value is the string `<unsupported>`.
pub open spec fn unsupported(v: JsonView) -> bool {
    v.text == Some("<unsupported>"@)
}

/// Whether an implementation answered that it does not support an operation.
pub fn is_unsupported(value: &JsonValue) -> (res: bool)
    ensures
        res == unsupported(value@),
{
    match &value.text {
        Some(t) => crate::strmap::compare_text(t.as_str(), "<unsupported>") == TextOrder::Equal,
        None => false,
    }
}

/// Two answers agree: as addresses where both are addresses, else as JSON.
pub open spec fn agree(a: JsonView, b: JsonView) -> bool {
    match (a.ip, b.ip) {
        (Some(x), Some(y)) => x == y,
        _ => a.rendered == b.rendered,
    }
}

/// Whether two answers agree.
pub fn values_match(a: &JsonValue, b: &JsonValue) -> (res: bool)
    ensures
        res == agree(a@, b@),
{
    match (a.ip, b.ip) {
        (Some(x), Some(y)) => x == y,
        _ => crate::strmap::compare_text(a.rendered.as_str(), b.rendered.as_str()) == TextOrder::Equal,
    }
}

/// The differences between the reference answers and those of `lang`, for the first
/// `n` operations: their description and their number.
pub open spec fn differences(
    lang: Seq<char>,
    refs: Seq<(Seq<char>, JsonView)>,
    outs: Seq<(Seq<char>, JsonView)>,
    n: int,
) -> (Seq<char>, nat)
    decreases n,
{
    if n <= 0 {
        (Seq::empty(), 0)
    } else {
        let (text, count) = differences(lang, refs, outs, n - 1);
        let (key, r) = refs[n - 1];
        let v = outs[n - 1].1;
        if !agree(r, v) && !unsupported(v) && !unsupported(r) {
            (text + (if count > 0 { ", "@ } else { Seq::empty() }) + key + " : "@ + r.rendered + " ("@ + ref_lang() + ") ≠ "@
                + v.rendered + " ("@ + lang + ")"@, count + 1)
        } else {
            (text, count)
        }
    }
}

/// The operations that still have only a Rust implementation after `lang` answered
/// the first `n` operations: those it supports are taken out.
pub open spec fn still_unsupported(
    lang: Seq<char>,
    outs: Seq<(Seq<char>, JsonView)>,
    n: int,
    rest: Seq<(Seq<char>, ())>,
) -> Seq<(Seq<char>, ())>
    decreases n,
{
    if n <= 0 {
        rest
    } else {
        let r = still_unsupported(lang, outs, n - 1, rest);
        if !has_prefix(lang, "Rust"@) && !unsupported(outs[n - 1].1) {
            seq_remove(r, outs[n - 1].0)
        } else {
            r
        }
    }
}

/// The table cell for `lang`: a check mark, or the differences.
pub open spec fn cell(lang: Seq<char>, refs: Seq<(Seq<char>, JsonView)>, outs: Seq<(Seq<char>, JsonView)>) -> Seq<char> {
    let (text, count) = differences(lang, refs, outs, refs.len() as int);
    if count == 0 {
        " ✔️ |"@
    } else {
        " ❌ `{ "@ + text + " }` |"@
    }
}

/// Compares the answers of `lang` with those of the reference: returns the table
/// cell, and takes out of `no_lang_support` the operations that `lang` supports.
/// Both answers must name the same operations, in the same order.
pub fn compare_outputs(
    lang: &str,
    ref_output: &StrMap<JsonValue>,
    output: &StrMap<JsonValue>,
    no_lang_support: &mut StrMap<()>,
) -> (res: String)
    requires
        seq_keys(ref_output@) == seq_keys(output@),
    ensures
        res@ == cell(lang@, ref_output@, output@),
        final(no_lang_support)@ == still_unsupported(lang@, output@, output@.len() as int, old(no_lang_support)@),
{
    let ghost refs = ref_output@;
    let ghost outs = output@;
    let reference_rust = is_ref(lang);
    let mut buffer: Vec<char> = Vec::new();
    let mut diffs: u64 = 0;
    let n = ref_output.len();
    assert(seq_keys(refs).len() == seq_keys(outs).len());
    let mut i: usize = 0;
    while i < n
        invariant
            i <= n,
            n == refs.len(),
            refs.len() == outs.len(),
            refs == ref_output@,
            outs == output@,
            reference_rust == has_prefix(lang@, "Rust"@),
            (buffer@, diffs as nat) == differences(lang@, refs, outs, i as int),
            diffs <= i,
            no_lang_support@ == still_unsupported(lang@, outs, i as int, old(no_lang_support)@),
        decreases n - i,
    {
        let (key, r) = ref_output.entry_at(i);
        let (okey, v) = output.entry_at(i);
        assert(seq_keys(outs)[i as int] == outs[i as int].0);
        if !reference_rust && !is_unsupported(v) {
            no_lang_support.remove(okey.as_str());
        }
        if !values_match(r, v) && !is_unsupported(v) && !is_unsupported(r) {
            if diffs > 0 {
                push_str(&mut buffer, ", ");
            }
            push_str(&mut buffer, key.as_str());
            push_str(&mut buffer, " : ");
            push_str(&mut buffer, r.rendered.as_str());
            push_str(&mut buffer, " (");
            push_str(&mut buffer, "Rust (New)");
            push_str(&mut buffer, ") ≠ ");
            push_str(&mut buffer, v.rendered.as_str());
            push_str(&mut buffer, " (");
            push_str(&mut buffer, lang);
            push_str(&mut buffer, ")");
            diffs = diffs + 1;
        }
        i = i + 1;
    }
    let mut out: Vec<char> = Vec::new();
    if diffs == 0 {
        push_str(&mut out, " ✔️ |");
    } else {
        push_str(&mut out, " ❌ `{ ");
        push_chars(&mut out, &buffer);
        push_str(&mut out, " }` |");
    }
    string_of(&out)
}

/// What the implementations answered for one address: the reference first, then
/// each implementation in the order of the table's columns.
pub struct AddrResults {
    pub addr: String,
    pub reference: StrMap<JsonValue>,
    pub outputs: Vec<StrMap<JsonValue>>,
}

/// The answers for one address, as text.
pub struct AddrView {
    pub addr: Seq<char>,
    pub reference: Seq<(Seq<char>, JsonView)>,
    pub outputs: Seq<Seq<(Seq<char>, JsonView)>>,
}

impl View for AddrResults {
    type V = AddrView;

    open spec fn view(&self) -> AddrView {
        AddrView {
            addr: self.addr@,
            reference: self.reference@,
            outputs: self.outputs@.map_values(|o: StrMap<JsonValue>| o@),
        }
    }
}

/// The cells of one row, for the first `n` implementations, and the operations left
/// with only a Rust implementation.
pub open spec fn row_cells(
    langs: Seq<Seq<char>>,
    row: AddrView,
    n: int,
    rest: Seq<(Seq<char>, ())>,
) -> (Seq<char>, Seq<(Seq<char>, ())>)
    decreases n,
{
    if n <= 0 {
        (Seq::empty(), rest)
    } else {
        let (text, r) = row_cells(langs, row, n - 1, rest);
        let out = row.outputs[n - 1];
        (text + cell(langs[n - 1], row.reference, out), still_unsupported(langs[n - 1], out, out.len() as int, r))
    }
}

/// All operations of the reference added to a set.
pub open spec fn add_keys(set: Seq<(Seq<char>, ())>, m: Seq<(Seq<char>, JsonView)>, n: int) -> Seq<(Seq<char>, ())>
    decreases n,
{
    if n <= 0 {
        set
    } else {
        seq_insert(add_keys(set, m, n - 1), m[n - 1].0, ())
    }
}

/// The rows of the table for the first `n` addresses, and the operations left with
/// only a Rust implementation.
pub open spec fn table_rows(langs: Seq<Seq<char>>, rows: Seq<AddrView>, n: int) -> (Seq<char>, Seq<(Seq<char>, ())>)
    decreases n,
{
    if n <= 0 {
        (Seq::empty(), Seq::empty())
    } else {
        let (text, set) = table_rows(langs, rows, n - 1);
        let row = rows[n - 1];
        let with_ref = add_keys(set, row.reference, row.reference.len() as int);
        let (cells, left) = row_cells(langs, row, langs.len() as int, with_ref);
        (text + "| `"@ + row.addr + "` |"@ + cells + "\n"@, left)
    }
}

/// The header of the table: a column for the address and one for each language.
pub open spec fn table_header(langs: Seq<Seq<char>>, n: int) -> (Seq<char>, Seq<char>)
    decreases n,
{
    if n <= 0 {
        ("| addr |"@, "| - |"@)
    } else {
        let (h, s) = table_header(langs, n - 1);
        (h + " "@ + langs[n - 1] + " |"@, s + " - |"@)
    }
}

/// The list of operations that only the Rust implementation supports.
pub open spec fn unsupported_list(ops: Seq<(Seq<char>, ())>) -> Seq<char>
    decreases ops.len(),
{
    if ops.len() == 0 {
        Seq::empty()
    } else {
        unsupported_list(ops.drop_last()) + "- `"@ + ops.last().0 + "`\n"@
    }
}

/// The whole report: the table, then the operations that only Rust implements.
pub open spec fn report(langs: Seq<Seq<char>>, rows: Seq<AddrView>) -> Seq<char> {
    let (h, s) = table_header(langs, langs.len() as int);
    let (body, left) = table_rows(langs, rows, rows.len() as int);
    h + "\n"@ + s + "\n"@ + body + if left.len() > 0 {
        "\n"@ + "Operations with only a Rust implementation:\n"@ + unsupported_list(left)
    } else {
        Seq::empty()
    }
}

/// Each row has an answer for each language, naming the operations of the reference.
pub open spec fn rows_fit(langs: Seq<Seq<char>>, rows: Seq<AddrView>) -> bool {
    forall|r: int| 0 <= r < rows.len() ==> {
        &&& (#[trigger] rows[r]).outputs.len() == langs.len()
        &&& forall|k: int| 0 <= k < langs.len() ==> seq_keys(#[trigger] rows[r].outputs[k]) == seq_keys(rows[r].reference)
    }
}

/// Writes the comparison as a Markdown table, one row per address and one column per
/// language, followed by the operations that only the Rust implementation supports.
pub fn render_report(langs: &Vec<String>, rows: &Vec<AddrResults>) -> (res: String)
    requires
        rows_fit(crate::text::string_views(langs@), rows@.map_values(|r: AddrResults| r@)),
    ensures
        res@ == report(crate::text::string_views(langs@), rows@.map_values(|r: AddrResults| r@)),
{
    let ghost lv = crate::text::string_views(langs@);
    let ghost rv = rows@.map_values(|r: AddrResults| r@);
    let mut header: Vec<char> = Vec::new();
    let mut sep: Vec<char> = Vec::new();
    push_str(&mut header, "| addr |");
    push_str(&mut sep, "| - |");
    let mut l: usize = 0;
    while l < langs.len()
        invariant
            l <= langs.len(),
            lv == crate::text::string_views(langs@),
            (header@, sep@) == table_header(lv, l as int),
        decreases langs.len() - l,
    {
        push_str(&mut header, " ");
        push_str(&mut header, langs[l].as_str());
        push_str(&mut header, " |");
        push_str(&mut sep, " - |");
        l = l + 1;
    }
    let mut body: Vec<char> = Vec::new();
    let mut no_lang_support: StrMap<()> = StrMap::new();
    let mut r: usize = 0;
    while r < rows.len()
        invariant
            r <= rows.len(),
            lv == crate::text::string_views(langs@),
            rv == rows@.map_values(|r: AddrResults| r@),
            rows_fit(lv, rv),
            (body@, no_lang_support@) == table_rows(lv, rv, r as int),
        decreases rows.len() - r,
    {
        let row = &rows[r];
        assert(rv[r as int] == row@);
        let mut k: usize = 0;
        while k < row.reference.len()
            invariant
                k <= row.reference@.len(),
                no_lang_support@ == add_keys(table_rows(lv, rv, r as int).1, row.reference@, k as int),
            decreases row.reference@.len() - k,
        {
            let (key, _) = row.reference.entry_at(k);
            no_lang_support.insert(key.clone(), ());
            k = k + 1;
        }
        let ghost with_ref = no_lang_support@;
        let mut cells: Vec<char> = Vec::new();
        let mut c: usize = 0;
        while c < langs.len()
            invariant
                c <= langs.len(),
                lv == crate::text::string_views(langs@),
                row@.outputs.len() == langs.len(),
                forall|k: int| 0 <= k < langs.len() ==> seq_keys(#[trigger] row@.outputs[k]) == seq_keys(row@.reference),
                (cells@, no_lang_support@) == row_cells(lv, row@, c as int, with_ref),
            decreases langs.len() - c,
        {
            assert(row@.outputs[c as int] == row.outputs@[c as int]@);
            let cell_text = compare_outputs(langs[c].as_str(), &row.reference, &row.outputs[c], &mut no_lang_support);
            push_str(&mut cells, cell_text.as_str());
            c = c + 1;
        }
        push_str(&mut body, "| `");
        push_str(&mut body, row.addr.as_str());
        push_str(&mut body, "` |");
        push_chars(&mut body, &cells);
        push_str(&mut body, "\n");
        r = r + 1;
    }
    let mut out: Vec<char> = Vec::new();
    push_chars(&mut out, &header);
    push_str(&mut out, "\n");
    push_chars(&mut out, &sep);
    push_str(&mut out, "\n");
    push_chars(&mut out, &body);
    let ghost left = no_lang_support@;
    if no_lang_support.len() > 0 {
        push_str(&mut out, "\n");
        push_str(&mut out, "Operations with only a Rust implementation:\n");
        let ghost start2 = out@;
        let mut u: usize = 0;
        while u < no_lang_support.len()
            invariant
                u <= left.len(),
                left == no_lang_support@,
                out@ == start2 + unsupported_list(left.take(u as int)),
            decreases left.len() - u,
        {
            let (op, _) = no_lang_support.entry_at(u);
            assert(left.take(u + 1).drop_last() =~= left.take(u as int));
            push_str(&mut out, "- `");
            push_str(&mut out, op.as_str());
            push_str(&mut out, "`\n");
            u = u + 1;
        }
        assert(left.take(left.len() as int) =~= left);
    }
    string_of(&out)
}

/// The language and the artifact named by a line `lang: artifact`; the artifact
/// ends at a second `: `, if there is one. `None` where the line has no `: `.
pub open spec fn impl_line(line: Seq<char>) -> Option<(Seq<char>, Seq<char>)> {
    match split_first(line, ": "@) {
        Some((lang, rest)) => Some((lang, match split_first(rest, ": "@) {
            Some((artifact, _)) => artifact,
            None => rest,
        })),
        None => None,
    }
}

/// The implementations that the lines of `ls` name, in order; `None` where a line
/// names no artifact.
pub open spec fn impl_lines(ls: Seq<Seq<char>>) -> Option<Seq<(Seq<char>, Seq<char>)>>
    decreases ls.len(),
{
    if ls.len() == 0 {
        Some(Seq::empty())
    } else {
        match (impl_lines(ls.drop_last()), impl_line(ls.last())) {
            (Some(prev), Some(entry)) => Some(prev.push(entry)),
            _ => None,
        }
    }
}

/// The views of language-artifact pairs.
pub open spec fn pair_views(v: Seq<(String, String)>) -> Seq<(Seq<char>, Seq<char>)> {
    v.map_values(|p: (String, String)| (p.0@, p.1@))
}

/// Reads the list of built implementations: one `lang: artifact` per line.
/// Returns `None` where a line names no artifact.
pub fn parse_impls(content: &str) -> (res: Option<Vec<(String, String)>>)
    ensures
        match res {
            Some(v) => impl_lines(lines_of(content@)) == Some(pair_views(v@)),
            None => impl_lines(lines_of(content@)) is None,
        },
{
    let ls = lines(content);
    let ghost lv = ls@.map_values(|l: Vec<char>| l@);
    let mut res: Vec<(String, String)> = Vec::new();
    let mut i: usize = 0;
    while i < ls.len()
        invariant
            i <= ls.len(),
            lv == ls@.map_values(|l: Vec<char>| l@),
            lv == lines_of(content@),
            impl_lines(lv.take(i as int)) == Some(pair_views(res@)),
        decreases ls.len() - i,
    {
        assert(lv.take(i + 1).drop_last() =~= lv.take(i as int));
        assert(lv.take(i + 1).last() == ls@[i as int]@);
        match split_first_str(&ls[i], ": ") {
            Some((lang, rest)) => {
                let artifact = match split_first_str(&rest, ": ") {
                    Some((a, _)) => a,
                    None => rest,
                };
                let ghost before = res@;
                let entry = (string_of(&lang), string_of(&artifact));
                res.push(entry);
                assert(pair_views(res@) =~= pair_views(before).push((lang@, artifact@)));
            },
            None => {
                proof {
                    lemma_impl_lines_none(lv, i as int);
                }
                return None;
            },
        }
        i = i + 1;
    }
    assert(lv.take(ls.len() as int) =~= lv);
    Some(res)
}

proof fn lemma_impl_lines_none(ls: Seq<Seq<char>>, i: int)
    requires
        0 <= i < ls.len(),
        impl_line(ls[i]) is None,
    ensures
        impl_lines(ls) is None,
    decreases ls.len(),
{
    if i < ls.len() - 1 {
        assert(ls.drop_last()[i] == ls[i]);
        lemma_impl_lines_none(ls.drop_last(), i);
    }
}

/// The reference implementation and those to compare with it, or why there is
/// nothing to compare.
pub enum ImplSelection {
    /// The first implementation is not the reference.
    NoReference,
    /// Only the reference was built.
    NoComparison,
    /// The reference's artifact, and the others.
    Found(String, Vec<(String, String)>),
}

/// Takes the reference implementation, which must come first, from the list.
pub fn select_reference(impls: Vec<(String, String)>) -> (res: ImplSelection)
    ensures
        pair_views(impls@).len() == 0 || pair_views(impls@)[0].0 != ref_lang() ==> res is NoReference,
        pair_views(impls@).len() == 1 && pair_views(impls@)[0].0 == ref_lang() ==> res is NoComparison,
        pair_views(impls@).len() > 1 && pair_views(impls@)[0].0 == ref_lang() ==> match res {
            ImplSelection::Found(artifact, rest) => artifact@ == pair_views(impls@)[0].1 && pair_views(rest@) == pair_views(impls@).drop_first(),
            _ => false,
        },
{
    if impls.len() == 0 {
        return ImplSelection::NoReference;
    }
    if crate::strmap::compare_text(impls[0].0.as_str(), "Rust (New)") != TextOrder::Equal {
        return ImplSelection::NoReference;
    }
    let ghost iv = impls@;
    let mut impls = impls;
    let first = impls.remove(0);
    assert(pair_views(impls@) =~= pair_views(iv).drop_first());
    if impls.len() == 0 {
        return ImplSelection::NoComparison;
    }
    ImplSelection::Found(first.1, impls)
}

/// The addresses to check: the lines that are not empty and not comments.
pub open spec fn address_lines(ls: Seq<Seq<char>>) -> Seq<Seq<char>>
    decreases ls.len(),
{
    if ls.len() == 0 {
        Seq::empty()
    } else if has_prefix(ls.last(), "#"@) || ls.last().len() == 0 {
        address_lines(ls.drop_last())
    } else {
        address_lines(ls.drop_last()).push(ls.last())
    }
}

/// Reads the addresses to check: one per line, except empty lines and lines that
/// start with `#`.
pub fn parse_addrs(content: &str) -> (res: Vec<String>)
    ensures
        string_views(res@) == address_lines(lines_of(content@)),
{
    let ls = lines(content);
    let ghost lv = ls@.map_values(|l: Vec<char>| l@);
    let mut res: Vec<String> = Vec::new();
    let mut i: usize = 0;
    while i < ls.len()
        invariant
            i <= ls.len(),
            lv == ls@.map_values(|l: Vec<char>| l@),
            lv == lines_of(content@),
            address_lines(lv.take(i as int)) == string_views(res@),
        decreases ls.len() - i,
    {
        assert(lv.take(i + 1).drop_last() =~= lv.take(i as int));
        assert(lv.take(i + 1).last() == ls@[i as int]@);
        let line = &ls[i];
        if !starts_with_str(line, "#") && line.len() > 0 {
            let ghost before = res@;
            let s = string_of(line);
            res.push(s);
            assert(string_views(res@) =~= string_views(before).push(s@));
        }
        i = i + 1;
    }
    assert(lv.take(ls.len() as int) =~= lv);
    res
}

/// How one Rust implementation is built: the directory of its sources, the
/// directory it is built in, and the name of its binary.
pub struct BinBuild {
    pub src_path: String,
    pub artifact_path: String,
    pub bin: String,
}

impl BinBuild {
    /// The path of the built binary: the binary's name in the build directory.
    pub fn artifact(&self) -> (res: String)
        ensures
            res@ == self.artifact_path@ + "/"@ + self.bin@,
    {
        let mut out: Vec<char> = Vec::new();
        push_str(&mut out, self.artifact_path.as_str());
        push_str(&mut out, "/");
        push_str(&mut out, self.bin.as_str());
        string_of(&out)
    }
}

/// How the proposed Rust implementation is built.
pub fn build_new() -> (res: BinBuild)
    ensures
        res.src_path@ == "../impls/rust_new"@,
        res.artifact_path@ == "../artifacts/rust_new"@,
        res.bin@ == "ipcheck_new"@,
{
    BinBuild {
        src_path: "../impls/rust_new".to_owned(),
        artifact_path: "../artifacts/rust_new".to_owned(),
        bin: "ipcheck_new".to_owned(),
    }
}

/// How the current Rust implementation is built.
pub fn build_current() -> (res: BinBuild)
    ensures
        res.src_path@ == "../impls/rust_current"@,
        res.artifact_path@ == "../artifacts/rust_current"@,
        res.bin@ == "ipcheck_current"@,
{
    BinBuild {
        src_path: "../impls/rust_current".to_owned(),
        artifact_path: "../artifacts/rust_current".to_owned(),
        bin: "ipcheck_current".to_owned(),
    }
}

/// The answers to operation `i` count as the same: they agree, or one side does
/// not support the operation.
pub open spec fn same_answer(refs: Seq<(Seq<char>, JsonView)>, outs: Seq<(Seq<char>, JsonView)>, i: int) -> bool {
    agree(refs[i].1, outs[i].1) || unsupported(outs[i].1) || unsupported(refs[i].1)
}

proof fn lemma_no_differences(lang: Seq<char>, refs: Seq<(Seq<char>, JsonView)>, outs: Seq<(Seq<char>, JsonView)>, n: int)
    requires
        0 <= n,
    ensures
        (differences(lang, refs, outs, n).1 == 0) == (forall|i: int| 0 <= i < n ==> #[trigger] same_answer(refs, outs, i)),
    decreases n,
{
    if n > 0 {
        lemma_no_differences(lang, refs, outs, n - 1);
        if !same_answer(refs, outs, n - 1) {
            assert(!(forall|i: int| 0 <= i < n ==> #[trigger] same_answer(refs, outs, i)));
        } else if differences(lang, refs, outs, n - 1).1 != 0 {
            let j = choose|j: int| 0 <= j < n - 1 && !#[trigger] same_answer(refs, outs, j);
            assert(!same_answer(refs, outs, j));
        }
    }
}

/// An implementation gets a check mark exactly where its answer to every
/// operation is the reference's, or one of them does not support the operation;
/// so the reference compared with itself gets one.
pub proof fn law_check_mark(lang: Seq<char>, refs: Seq<(Seq<char>, JsonView)>, outs: Seq<(Seq<char>, JsonView)>)
    ensures
        (cell(lang, refs, outs) == " ✔️ |"@) == (forall|i: int| 0 <= i < refs.len() ==> #[trigger] same_answer(refs, outs, i)),
        cell(lang, refs, refs) == " ✔️ |"@,
{
    lemma_no_differences(lang, refs, outs, refs.len() as int);
    lemma_no_differences(lang, refs, refs, refs.len() as int);
    let (text, count) = differences(lang, refs, outs, refs.len() as int);
    if count != 0 {
        reveal_strlit(" ✔️ |");
        reveal_strlit(" ❌ `{ ");
        let c = cell(lang, refs, outs);
        assert(c[1] != " ✔️ |"@[1]);
    }
    assert forall|i: int| 0 <= i < refs.len() implies #[trigger] same_answer(refs, refs, i) by {
        let r = refs[i].1;
        match (r.ip, r.ip) {
            (Some(x), Some(y)) => {},
            _ => {},
        }
    }
}

/// `lang` answered operation `k` among its first `n` answers, and is not a Rust
/// implementation.
pub open spec fn supported_elsewhere(lang: Seq<char>, outs: Seq<(Seq<char>, JsonView)>, n: int, k: Seq<char>) -> bool {
    !has_prefix(lang, "Rust"@) && exists|i: int| 0 <= i < n && #[trigger] outs[i].0 == k && !unsupported(outs[i].1)
}

/// The answers of a Rust implementation never take an operation off the list of
/// those with only a Rust implementation; an operation stays on it exactly where
/// it was on it and `lang`, when it is not a Rust implementation, did not support
/// it.
pub proof fn law_only_rust_support(lang: Seq<char>, outs: Seq<(Seq<char>, JsonView)>, n: int, rest: Seq<(Seq<char>, ())>)
    requires
        keys_sorted(rest),
        0 <= n <= outs.len(),
    ensures
        has_prefix(lang, "Rust"@) ==> still_unsupported(lang, outs, n, rest) == rest,
        forall|k: Seq<char>| #[trigger] in_set(still_unsupported(lang, outs, n, rest), k)
            == (in_set(rest, k) && !supported_elsewhere(lang, outs, n, k)),
        keys_sorted(still_unsupported(lang, outs, n, rest)),
    decreases n,
{
    if n > 0 {
        law_only_rust_support(lang, outs, n - 1, rest);
        let r = still_unsupported(lang, outs, n - 1, rest);
        let key = outs[n - 1].0;
        if !has_prefix(lang, "Rust"@) && !unsupported(outs[n - 1].1) {
            lemma_seq_remove(r, key);
        }
        assert forall|k: Seq<char>| #[trigger] in_set(still_unsupported(lang, outs, n, rest), k)
            == (in_set(rest, k) && !supported_elsewhere(lang, outs, n, k)) by {
            assert(in_set(r, k) == (in_set(rest, k) && !supported_elsewhere(lang, outs, n - 1, k)));
            if supported_elsewhere(lang, outs, n - 1, k) {
                let i = choose|i: int| 0 <= i < n - 1 && #[trigger] outs[i].0 == k && !unsupported(outs[i].1);
                assert(outs[i].0 == k && 0 <= i < n);
            }
            if supported_elsewhere(lang, outs, n, k) && !supported_elsewhere(lang, outs, n - 1, k) {
                let i = choose|i: int| 0 <= i < n && #[trigger] outs[i].0 == k && !unsupported(outs[i].1);
                assert(i == n - 1);
            }
            if !has_prefix(lang, "Rust"@) && !unsupported(outs[n - 1].1) && k == key {
                assert(outs[n - 1].0 == k);
            }
        }
    }
}

} // verus!
