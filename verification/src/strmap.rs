//! Ordered collections keyed by text, iterated in the order of `str`'s `Ord`
//! (the order of code points, which is the order of the UTF-8 bytes).

use vstd::prelude::*;

use crate::text::chars_of;

verus! {

/// The result of comparing two texts.
#[derive(PartialEq, Eq, Structural, Clone, Copy, Debug)]
pub enum TextOrder {
    Less,
    Equal,
    Greater,
}

/// `a` sorts strictly before `b` in lexicographic code-point order.
pub open spec fn text_lt(a: Seq<char>, b: Seq<char>) -> bool
    decreases a.len(),
{
    if a.len() == 0 {
        b.len() > 0
    } else if b.len() == 0 {
        false
    } else if a[0] != b[0] {
        (a[0] as int) < (b[0] as int)
    } else {
        text_lt(a.drop_first(), b.drop_first())
    }
}

/// No text sorts before itself.
pub proof fn lemma_text_lt_irreflexive(a: Seq<char>)
    ensures
        !text_lt(a, a),
    decreases a.len(),
{
    if a.len() > 0 {
        lemma_text_lt_irreflexive(a.drop_first());
    }
}

/// Of two different texts, exactly one sorts before the other.
pub proof fn lemma_text_lt_total(a: Seq<char>, b: Seq<char>)
    ensures
        a != b ==> (text_lt(a, b) || text_lt(b, a)),
        !(text_lt(a, b) && text_lt(b, a)),
    decreases a.len(),
{
    if a.len() > 0 && b.len() > 0 {
        if a[0] == b[0] {
            lemma_text_lt_total(a.drop_first(), b.drop_first());
            if a != b {
                if a.drop_first() == b.drop_first() {
                    assert(a =~= seq![a[0]] + a.drop_first());
                    assert(b =~= seq![b[0]] + b.drop_first());
                }
            }
        } else {
            assert((a[0] as int) != (b[0] as int));
        }
    } else if a.len() == 0 && b.len() == 0 {
        assert(a =~= b);
    }
}

/// The order on texts is transitive.
pub proof fn lemma_text_lt_transitive(a: Seq<char>, b: Seq<char>, c: Seq<char>)
    requires
        text_lt(a, b),
        text_lt(b, c),
    ensures
        text_lt(a, c),
    decreases a.len(),
{
    if a.len() > 0 && b.len() > 0 && c.len() > 0 {
        if a[0] == b[0] && b[0] == c[0] {
            lemma_text_lt_transitive(a.drop_first(), b.drop_first(), c.drop_first());
        }
    }
}

/// Two texts that agree on their first `i` characters compare as their rests do.
proof fn lemma_text_lt_skip(a: Seq<char>, b: Seq<char>, i: int)
    requires
        0 <= i <= a.len(),
        i <= b.len(),
        forall|j: int| 0 <= j < i ==> a[j] == b[j],
    ensures
        text_lt(a, b) == text_lt(a.skip(i), b.skip(i)),
    decreases i,
{
    if i > 0 {
        lemma_text_lt_skip(a.drop_first(), b.drop_first(), i - 1);
        assert(a.drop_first().skip(i - 1) =~= a.skip(i));
        assert(b.drop_first().skip(i - 1) =~= b.skip(i));
    } else {
        assert(a.skip(0) =~= a);
        assert(b.skip(0) =~= b);
    }
}

/// Compares two texts given as characters.
pub fn compare_chars(a: &Vec<char>, b: &Vec<char>) -> (res: TextOrder)
    ensures
        (res == TextOrder::Less) == text_lt(a@, b@),
        (res == TextOrder::Equal) == (a@ == b@),
        (res == TextOrder::Greater) == text_lt(b@, a@),
{
    proof {
        lemma_text_lt_total(a@, b@);
    }
    let mut i: usize = 0;
    while i < a.len() && i < b.len() && a[i] == b[i]
        invariant
            i <= a.len(),
            i <= b.len(),
            forall|j: int| 0 <= j < i ==> a@[j] == b@[j],
        decreases a.len() - i,
    {
        i = i + 1;
    }
    proof {
        lemma_text_lt_skip(a@, b@, i as int);
        lemma_text_lt_skip(b@, a@, i as int);
    }
    let ghost sa = a@.skip(i as int);
    let ghost sb = b@.skip(i as int);
    if i == a.len() && i == b.len() {
        assert(a@ =~= b@);
        TextOrder::Equal
    } else if i == a.len() {
        assert(sa.len() == 0 && sb.len() > 0);
        assert(text_lt(sa, sb));
        TextOrder::Less
    } else if i == b.len() {
        assert(sb.len() == 0 && sa.len() > 0);
        assert(text_lt(sb, sa));
        TextOrder::Greater
    } else {
        assert(sa[0] == a@[i as int]);
        assert(sb[0] == b@[i as int]);
        assert(sa[0] != sb[0]);
        let ca: char = a[i];
        let cb: char = b[i];
        if ca < cb {
            TextOrder::Less
        } else {
            TextOrder::Greater
        }
    }
}

/// Compares two strings.
pub fn compare_text(a: &str, b: &str) -> (res: TextOrder)
    ensures
        (res == TextOrder::Less) == text_lt(a@, b@),
        (res == TextOrder::Equal) == (a@ == b@),
        (res == TextOrder::Greater) == text_lt(b@, a@),
{
    let ac = chars_of(a);
    let bc = chars_of(b);
    compare_chars(&ac, &bc)
}

/// The keys of `s` are strictly increasing.
pub open spec fn keys_sorted<W>(s: Seq<(Seq<char>, W)>) -> bool {
    forall|i: int, j: int| 0 <= i < j < s.len() ==> text_lt(#[trigger] s[i].0, #[trigger] s[j].0)
}

/// The value stored under `k`, if any.
pub open spec fn lookup<W>(s: Seq<(Seq<char>, W)>, k: Seq<char>) -> Option<W>
    decreases s.len(),
{
    if s.len() == 0 {
        None
    } else if s[0].0 == k {
        Some(s[0].1)
    } else {
        lookup(s.drop_first(), k)
    }
}

/// `s` with `v` stored under `k`: the entry is replaced where `k` is present,
/// and otherwise placed where the order of keys puts it.
pub open spec fn seq_insert<W>(s: Seq<(Seq<char>, W)>, k: Seq<char>, v: W) -> Seq<(Seq<char>, W)>
    decreases s.len(),
{
    if s.len() == 0 {
        seq![(k, v)]
    } else if s[0].0 == k {
        seq![(k, v)] + s.drop_first()
    } else if text_lt(k, s[0].0) {
        seq![(k, v)] + s
    } else {
        seq![s[0]] + seq_insert(s.drop_first(), k, v)
    }
}

/// `s` without the entry of `k`.
pub open spec fn seq_remove<W>(s: Seq<(Seq<char>, W)>, k: Seq<char>) -> Seq<(Seq<char>, W)>
    decreases s.len(),
{
    if s.len() == 0 {
        s
    } else if s[0].0 == k {
        s.drop_first()
    } else {
        seq![s[0]] + seq_remove(s.drop_first(), k)
    }
}

/// The keys of `s`, in order.
pub open spec fn seq_keys<W>(s: Seq<(Seq<char>, W)>) -> Seq<Seq<char>> {
    s.map_values(|e: (Seq<char>, W)| e.0)
}

/// Every key of a sorted sequence sorts after the keys before it.
proof fn lemma_sorted_drop_first<W>(s: Seq<(Seq<char>, W)>)
    requires
        keys_sorted(s),
        s.len() > 0,
    ensures
        keys_sorted(s.drop_first()),
        forall|i: int| 0 <= i < s.drop_first().len() ==> text_lt(s[0].0, #[trigger] s.drop_first()[i].0),
{
    assert forall|i: int| 0 <= i < s.drop_first().len() implies text_lt(s[0].0, #[trigger] s.drop_first()[i].0) by {
        assert(s.drop_first()[i] == s[i + 1]);
    }
    assert forall|i: int, j: int| 0 <= i < j < s.drop_first().len() implies text_lt(#[trigger] s.drop_first()[i].0, #[trigger] s.drop_first()[j].0) by {
        assert(s.drop_first()[i] == s[i + 1]);
        assert(s.drop_first()[j] == s[j + 1]);
    }
}

/// In a sorted sequence, the entries with keys below `k` are exactly a prefix.
proof fn lemma_lookup_absent_below<W>(s: Seq<(Seq<char>, W)>, k: Seq<char>)
    requires
        keys_sorted(s),
        s.len() > 0,
        text_lt(k, s[0].0),
    ensures
        lookup(s, k) is None,
    decreases s.len(),
{
    lemma_text_lt_irreflexive(k);
    if s.len() > 1 {
        lemma_sorted_drop_first(s);
        assert(s.drop_first()[0] == s[1]);
        lemma_text_lt_transitive(k, s[0].0, s[1].0);
        lemma_lookup_absent_below(s.drop_first(), k);
    } else {
        assert(lookup(s.drop_first(), k) is None);
    }
}

/// Inserting into a sorted sequence keeps it sorted, and a lookup sees the new value
/// under `k` and the old one under every other key.
pub proof fn lemma_seq_insert<W>(s: Seq<(Seq<char>, W)>, k: Seq<char>, v: W)
    requires
        keys_sorted(s),
    ensures
        keys_sorted(seq_insert(s, k, v)),
        lookup(seq_insert(s, k, v), k) == Some(v),
        forall|k2: Seq<char>| k2 != k ==> lookup(#[trigger] seq_insert(s, k, v), k2) == lookup(s, k2),
        seq_insert(s, k, v).len() == s.len() + (if lookup(s, k) is Some { 0int } else { 1int }),
    decreases s.len(),
{
    let r = seq_insert(s, k, v);
    if s.len() == 0 {
        assert(r.drop_first() =~= Seq::<(Seq<char>, W)>::empty());
        assert forall|k2: Seq<char>| k2 != k implies lookup(#[trigger] seq_insert(s, k, v), k2) == lookup(s, k2) by {
            assert(lookup(r.drop_first(), k2) is None);
        }
    } else if s[0].0 == k {
        lemma_sorted_drop_first(s);
        assert(r.drop_first() =~= s.drop_first());
        assert forall|i: int, j: int| 0 <= i < j < r.len() implies text_lt(#[trigger] r[i].0, #[trigger] r[j].0) by {
            assert(r[i].0 == s[i].0);
            assert(r[j].0 == s[j].0);
        }
        assert forall|k2: Seq<char>| k2 != k implies lookup(#[trigger] seq_insert(s, k, v), k2) == lookup(s, k2) by {
            assert(lookup(r, k2) == lookup(r.drop_first(), k2));
            assert(lookup(s, k2) == lookup(s.drop_first(), k2));
        }
    } else if text_lt(k, s[0].0) {
        lemma_lookup_absent_below(s, k);
        assert(r.drop_first() =~= s);
        assert forall|i: int, j: int| 0 <= i < j < r.len() implies text_lt(#[trigger] r[i].0, #[trigger] r[j].0) by {
            if i == 0 {
                if j > 1 {
                    lemma_text_lt_transitive(k, s[0].0, s[j - 1].0);
                }
            } else {
                assert(r[i] == s[i - 1]);
                assert(r[j] == s[j - 1]);
            }
        }
        lemma_text_lt_irreflexive(k);
        assert forall|k2: Seq<char>| k2 != k implies lookup(#[trigger] seq_insert(s, k, v), k2) == lookup(s, k2) by {
            assert(lookup(r, k2) == lookup(r.drop_first(), k2));
        }
    } else {
        lemma_text_lt_total(k, s[0].0);
        lemma_sorted_drop_first(s);
        let t = s.drop_first();
        lemma_seq_insert(t, k, v);
        let rt = seq_insert(t, k, v);
        assert(r =~= seq![s[0]] + rt);
        assert(r.drop_first() =~= rt);
        // every key of rt sorts after s[0]
        assert forall|i: int| 0 <= i < rt.len() implies text_lt(s[0].0, #[trigger] rt[i].0) by {
            if rt[i].0 != k {
                lemma_seq_insert_keys(t, k, v, i);
            }
        }
        assert forall|i: int, j: int| 0 <= i < j < r.len() implies text_lt(#[trigger] r[i].0, #[trigger] r[j].0) by {
            if i == 0 {
                assert(r[j] == rt[j - 1]);
            } else {
                assert(r[i] == rt[i - 1]);
                assert(r[j] == rt[j - 1]);
            }
        }
        assert forall|k2: Seq<char>| k2 != k implies lookup(#[trigger] seq_insert(s, k, v), k2) == lookup(s, k2) by {
            if k2 != s[0].0 {
                assert(lookup(r, k2) == lookup(rt, k2));
                assert(lookup(s, k2) == lookup(t, k2));
            }
        }
        assert(lookup(r, k) == lookup(rt, k));
        assert(lookup(s, k) == lookup(t, k));
    }
}

/// Every key of an insertion result is the inserted key or a key of the original.
proof fn lemma_seq_insert_keys<W>(s: Seq<(Seq<char>, W)>, k: Seq<char>, v: W, i: int)
    requires
        0 <= i < seq_insert(s, k, v).len(),
        seq_insert(s, k, v)[i].0 != k,
    ensures
        exists|j: int| 0 <= j < s.len() && #[trigger] s[j].0 == seq_insert(s, k, v)[i].0,
    decreases s.len(),
{
    let r = seq_insert(s, k, v);
    if s.len() == 0 {
    } else if s[0].0 == k {
        assert(r[i] == s[i]);
    } else if text_lt(k, s[0].0) {
        assert(r[i] == s[i - 1]);
    } else {
        if i == 0 {
            assert(s[0].0 == r[0].0);
        } else {
            let t = s.drop_first();
            assert(r[i] == seq_insert(t, k, v)[i - 1]);
            lemma_seq_insert_keys(t, k, v, i - 1);
            let j = choose|j: int| 0 <= j < t.len() && #[trigger] t[j].0 == seq_insert(t, k, v)[i - 1].0;
            assert(s[j + 1] == t[j]);
        }
    }
}

/// An entry of a sorted sequence is found by a lookup of its key.
pub proof fn lemma_lookup_index<W>(s: Seq<(Seq<char>, W)>, i: int)
    requires
        keys_sorted(s),
        0 <= i < s.len(),
    ensures
        lookup(s, s[i].0) == Some(s[i].1),
    decreases i,
{
    if i > 0 {
        lemma_sorted_drop_first(s);
        assert(s.drop_first()[i - 1] == s[i]);
        lemma_text_lt_irreflexive(s[0].0);
        assert(s[0].0 != s[i].0);
        lemma_lookup_index(s.drop_first(), i - 1);
    }
}

/// A key that a lookup finds stands at some index.
pub proof fn lemma_lookup_some_index<W>(s: Seq<(Seq<char>, W)>, k: Seq<char>)
    requires
        lookup(s, k) is Some,
    ensures
        exists|i: int| 0 <= i < s.len() && #[trigger] s[i].0 == k && s[i].1 == lookup(s, k)->0,
    decreases s.len(),
{
    if s[0].0 != k {
        lemma_lookup_some_index(s.drop_first(), k);
        let i = choose|i: int| 0 <= i < s.drop_first().len() && #[trigger] s.drop_first()[i].0 == k && s.drop_first()[i].1 == lookup(s.drop_first(), k)->0;
        assert(s[i + 1] == s.drop_first()[i]);
    } else {
        assert(s[0].0 == k);
    }
}

/// A key that no entry has is not found.
pub proof fn lemma_lookup_none<W>(s: Seq<(Seq<char>, W)>, k: Seq<char>)
    requires
        forall|i: int| 0 <= i < s.len() ==> #[trigger] s[i].0 != k,
    ensures
        lookup(s, k) is None,
    decreases s.len(),
{
    if s.len() > 0 {
        assert forall|i: int| 0 <= i < s.drop_first().len() implies #[trigger] s.drop_first()[i].0 != k by {
            assert(s.drop_first()[i] == s[i + 1]);
        }
        lemma_lookup_none(s.drop_first(), k);
    }
}

/// Where `k` sorts in a sorted sequence: the entries before `p` have smaller keys
/// and the entries from `p` on have keys that are not smaller.
pub proof fn lemma_seq_insert_at<W>(s: Seq<(Seq<char>, W)>, k: Seq<char>, v: W, p: int)
    requires
        keys_sorted(s),
        0 <= p <= s.len(),
        forall|i: int| 0 <= i < p ==> text_lt(#[trigger] s[i].0, k),
        p < s.len() ==> !text_lt(s[p].0, k),
    ensures
        p < s.len() && s[p].0 == k ==> seq_insert(s, k, v) == s.take(p) + seq![(k, v)] + s.skip(p + 1),
        !(p < s.len() && s[p].0 == k) ==> seq_insert(s, k, v) == s.take(p) + seq![(k, v)] + s.skip(p),
        p < s.len() && s[p].0 == k ==> lookup(s, k) == Some(s[p].1),
        !(p < s.len() && s[p].0 == k) ==> lookup(s, k) is None,
    decreases p,
{
    if p == 0 {
        if s.len() > 0 {
            assert(s.take(0) + seq![(k, v)] + s.skip(1) =~= seq![(k, v)] + s.drop_first());
        }
        assert(s.take(0) + seq![(k, v)] + s.skip(0) =~= seq![(k, v)] + s);
        if s.len() > 0 && s[0].0 != k {
            lemma_text_lt_total(k, s[0].0);
            lemma_lookup_absent_below(s, k);
        }
    } else {
        lemma_text_lt_irreflexive(k);
        assert(s[0].0 != k);
        lemma_text_lt_total(k, s[0].0);
        lemma_sorted_drop_first(s);
        let t = s.drop_first();
        assert forall|i: int| 0 <= i < p - 1 implies text_lt(#[trigger] t[i].0, k) by {
            assert(t[i] == s[i + 1]);
        }
        if p < s.len() {
            assert(t[p - 1] == s[p]);
        }
        lemma_seq_insert_at(t, k, v, p - 1);
        if p < s.len() && s[p].0 == k {
            assert(s.take(p) + seq![(k, v)] + s.skip(p + 1) =~= seq![s[0]] + (t.take(p - 1) + seq![(k, v)] + t.skip(p)));
        } else {
            assert(s.take(p) + seq![(k, v)] + s.skip(p) =~= seq![s[0]] + (t.take(p - 1) + seq![(k, v)] + t.skip(p - 1)));
        }
    }
}

/// The same, for removal.
pub proof fn lemma_seq_remove_at<W>(s: Seq<(Seq<char>, W)>, k: Seq<char>, p: int)
    requires
        keys_sorted(s),
        0 <= p < s.len(),
        s[p].0 == k,
    ensures
        seq_remove(s, k) == s.take(p) + s.skip(p + 1),
    decreases p,
{
    if p == 0 {
        assert(s.take(0) + s.skip(1) =~= s.drop_first());
    } else {
        lemma_sorted_drop_first(s);
        lemma_text_lt_irreflexive(k);
        assert(s[0].0 != k);
        let t = s.drop_first();
        assert(t[p - 1] == s[p]);
        lemma_seq_remove_at(t, k, p - 1);
        assert(s.take(p) + s.skip(p + 1) =~= seq![s[0]] + (t.take(p - 1) + t.skip(p)));
    }
}

/// Removing keeps a sequence sorted, drops exactly the entry of `k` and leaves every
/// other entry as it was.
pub proof fn lemma_seq_remove<W>(s: Seq<(Seq<char>, W)>, k: Seq<char>)
    requires
        keys_sorted(s),
    ensures
        keys_sorted(seq_remove(s, k)),
        lookup(seq_remove(s, k), k) is None,
        forall|k2: Seq<char>| k2 != k ==> lookup(#[trigger] seq_remove(s, k), k2) == lookup(s, k2),
    decreases s.len(),
{
    let r = seq_remove(s, k);
    if s.len() > 0 {
        lemma_sorted_drop_first(s);
        let t = s.drop_first();
        if s[0].0 == k {
            if t.len() > 0 {
                assert(t[0] == s[1]);
                lemma_lookup_absent_below(t, k);
            }
            assert forall|k2: Seq<char>| k2 != k implies lookup(#[trigger] seq_remove(s, k), k2) == lookup(s, k2) by {
                assert(lookup(s, k2) == lookup(t, k2));
            }
        } else {
            lemma_seq_remove(t, k);
            let rt = seq_remove(t, k);
            assert(r.drop_first() =~= rt);
            assert forall|i: int| 0 <= i < rt.len() implies text_lt(s[0].0, #[trigger] rt[i].0) by {
                lemma_lookup_index(rt, i);
                assert(rt[i].0 != k);
                lemma_lookup_some_index(t, rt[i].0);
            }
            assert forall|i: int, j: int| 0 <= i < j < r.len() implies text_lt(#[trigger] r[i].0, #[trigger] r[j].0) by {
                if i == 0 {
                    assert(r[j] == rt[j - 1]);
                } else {
                    assert(r[i] == rt[i - 1]);
                    assert(r[j] == rt[j - 1]);
                }
            }
            assert forall|k2: Seq<char>| k2 != k implies lookup(#[trigger] seq_remove(s, k), k2) == lookup(s, k2) by {
                if k2 != s[0].0 {
                    assert(lookup(r, k2) == lookup(rt, k2));
                    assert(lookup(s, k2) == lookup(t, k2));
                }
            }
            assert(lookup(r, k) == lookup(rt, k));
        }
    }
}

/// A lookup after storing sees the stored value under its key and the old values
/// under the others, whether or not the keys are in order.
pub proof fn lemma_insert_lookup<W>(s: Seq<(Seq<char>, W)>, k: Seq<char>, v: W)
    ensures
        lookup(seq_insert(s, k, v), k) == Some(v),
        forall|k2: Seq<char>| k2 != k ==> lookup(#[trigger] seq_insert(s, k, v), k2) == lookup(s, k2),
    decreases s.len(),
{
    let r = seq_insert(s, k, v);
    if s.len() == 0 {
        assert forall|k2: Seq<char>| k2 != k implies lookup(#[trigger] seq_insert(s, k, v), k2) == lookup(s, k2) by {
            assert(r.drop_first() =~= Seq::<(Seq<char>, W)>::empty());
            assert(lookup(r.drop_first(), k2) is None);
        }
    } else if s[0].0 == k {
        assert(r.drop_first() =~= s.drop_first());
        assert forall|k2: Seq<char>| k2 != k implies lookup(#[trigger] seq_insert(s, k, v), k2) == lookup(s, k2) by {
            assert(lookup(r, k2) == lookup(r.drop_first(), k2));
        }
    } else if text_lt(k, s[0].0) {
        assert(r.drop_first() =~= s);
        assert forall|k2: Seq<char>| k2 != k implies lookup(#[trigger] seq_insert(s, k, v), k2) == lookup(s, k2) by {
            assert(lookup(r, k2) == lookup(r.drop_first(), k2));
        }
    } else {
        let t = s.drop_first();
        lemma_insert_lookup(t, k, v);
        assert(r.drop_first() =~= seq_insert(t, k, v));
        assert(lookup(r, k) == lookup(seq_insert(t, k, v), k));
        assert forall|k2: Seq<char>| k2 != k implies lookup(#[trigger] seq_insert(s, k, v), k2) == lookup(s, k2) by {
            assert(r[0] == s[0]);
            if k2 != s[0].0 {
                assert(lookup(r, k2) == lookup(seq_insert(t, k, v), k2));
                assert(lookup(s, k2) == lookup(t, k2));
            } else {
                assert(lookup(r, k2) == Some(s[0].1));
            }
        }
    }
}

/// The entries with `f` applied to each value.
pub open spec fn map_vals<A, B>(s: Seq<(Seq<char>, A)>, f: spec_fn(A) -> B) -> Seq<(Seq<char>, B)> {
    s.map_values(|e: (Seq<char>, A)| (e.0, f(e.1)))
}

/// Applying `f` to the values commutes with storing, removing and looking up.
pub proof fn lemma_map_vals<A, B>(s: Seq<(Seq<char>, A)>, k: Seq<char>, v: A, f: spec_fn(A) -> B)
    ensures
        map_vals(seq_insert(s, k, v), f) == seq_insert(map_vals(s, f), k, f(v)),
        map_vals(seq_remove(s, k), f) == seq_remove(map_vals(s, f), k),
        lookup(map_vals(s, f), k) == match lookup(s, k) {
            Some(x) => Some(f(x)),
            None => None,
        },
    decreases s.len(),
{
    let m = map_vals(s, f);
    if s.len() > 0 {
        let t = s.drop_first();
        lemma_map_vals(t, k, v, f);
        assert(m.drop_first() =~= map_vals(t, f));
        assert(m[0] == (s[0].0, f(s[0].1)));
        if s[0].0 == k {
            assert(map_vals(seq_insert(s, k, v), f) =~= seq![(k, f(v))] + map_vals(t, f));
        } else if text_lt(k, s[0].0) {
            assert(map_vals(seq_insert(s, k, v), f) =~= seq![(k, f(v))] + m);
            assert(map_vals(seq_remove(s, k), f) =~= seq![m[0]] + map_vals(seq_remove(t, k), f));
        } else {
            assert(map_vals(seq_insert(s, k, v), f) =~= seq![m[0]] + map_vals(seq_insert(t, k, v), f));
            assert(map_vals(seq_remove(s, k), f) =~= seq![m[0]] + map_vals(seq_remove(t, k), f));
        }
    } else {
        assert(map_vals(seq_insert(s, k, v), f) =~= seq![(k, f(v))]);
        assert(map_vals(seq_remove(s, k), f) =~= m);
    }
}

/// Storing under a key after removing it is the same as storing under it directly.
pub proof fn lemma_insert_after_remove<W>(s: Seq<(Seq<char>, W)>, k: Seq<char>, v: W)
    requires
        keys_sorted(s),
    ensures
        seq_insert(seq_remove(s, k), k, v) == seq_insert(s, k, v),
    decreases s.len(),
{
    if s.len() > 0 {
        lemma_sorted_drop_first(s);
        let t = s.drop_first();
        if s[0].0 == k {
            assert(seq_remove(s, k) == t);
            if t.len() > 0 {
                assert(t[0] == s[1]);
                assert(text_lt(k, t[0].0));
                lemma_text_lt_irreflexive(k);
                assert(t[0].0 != k);
            }
        } else {
            lemma_insert_after_remove(t, k, v);
            let r = seq_remove(s, k);
            assert(r == seq![s[0]] + seq_remove(t, k));
            assert(r[0] == s[0]);
            assert(r.drop_first() =~= seq_remove(t, k));
            if text_lt(k, s[0].0) {
                assert forall|i: int| 0 <= i < t.len() implies #[trigger] t[i].0 != k by {
                    lemma_text_lt_transitive(k, s[0].0, t[i].0);
                    lemma_text_lt_irreflexive(k);
                }
                lemma_seq_remove_none(t, k);
                assert(r =~= s);
            }
        }
    }
}

/// A map from texts to values whose entries stay in the order of their keys.
pub struct StrMap<V: View> {
    entries: Vec<(String, V)>,
}

impl<V: View> View for StrMap<V> {
    type V = Seq<(Seq<char>, V::V)>;

    closed spec fn view(&self) -> Seq<(Seq<char>, V::V)> {
        self.entries@.map_values(|e: (String, V)| (e.0@, e.1@))
    }
}

impl<V: View> StrMap<V> {
    /// The keys are strictly increasing.
    #[verifier::type_invariant]
    pub open spec fn sorted(self) -> bool {
        keys_sorted(self@)
    }

    /// An empty map.
    pub fn new() -> (res: Self)
        ensures
            res@ == Seq::<(Seq<char>, V::V)>::empty(),
    {
        let res = StrMap { entries: Vec::new() };
        assert(res@ =~= Seq::<(Seq<char>, V::V)>::empty());
        res
    }

    /// The number of entries.
    pub fn len(&self) -> (res: usize)
        ensures
            res == self@.len(),
    {
        self.entries.len()
    }

    /// The entry at position `i`, in the order of keys.
    pub fn entry_at(&self, i: usize) -> (res: (&String, &V))
        requires
            i < self@.len(),
        ensures
            res.0@ == self@[i as int].0,
            res.1@ == self@[i as int].1,
    {
        let e = &self.entries[i];
        (&e.0, &e.1)
    }

    /// The position where `key` stands or would stand.
    fn position(&self, key: &str) -> (p: usize)
        ensures
            p <= self@.len(),
            forall|i: int| 0 <= i < p ==> text_lt(#[trigger] self@[i].0, key@),
            p < self@.len() ==> !text_lt(self@[p as int].0, key@),
    {
        let kc = chars_of(key);
        let mut p: usize = 0;
        while p < self.entries.len()
            invariant
                p <= self@.len(),
                self@.len() == self.entries@.len(),
                kc@ == key@,
                forall|i: int| 0 <= i < p ==> text_lt(#[trigger] self@[i].0, key@),
            decreases self.entries.len() - p,
        {
            let ec = chars_of(self.entries[p].0.as_str());
            assert(ec@ == self@[p as int].0);
            match compare_chars(&ec, &kc) {
                TextOrder::Less => {
                    p = p + 1;
                },
                _ => {
                    return p;
                },
            }
        }
        p
    }

    /// The value stored under `key`.
    pub fn get(&self, key: &str) -> (res: Option<&V>)
        ensures
            match res {
                Some(v) => lookup(self@, key@) == Some(v@),
                None => lookup(self@, key@) is None,
            },
    {
        proof {
            use_type_invariant(self);
        }
        let p = self.position(key);
        proof {
            lemma_seq_insert_at(self@, key@, arbitrary(), p as int);
        }
        if p < self.entries.len() {
            let e = &self.entries[p];
            let ec = chars_of(e.0.as_str());
            let kc = chars_of(key);
            match compare_chars(&ec, &kc) {
                TextOrder::Equal => Some(&e.1),
                _ => None,
            }
        } else {
            None
        }
    }

    /// Whether some entry has the key `key`.
    pub fn contains_key(&self, key: &str) -> (res: bool)
        ensures
            res == (lookup(self@, key@) is Some),
    {
        match self.get(key) {
            Some(_) => true,
            None => false,
        }
    }

    /// Stores `value` under `key`, replacing what was there.
    pub fn insert(&mut self, key: String, value: V)
        ensures
            final(self)@ == seq_insert(old(self)@, key@, value@),
    {
        proof {
            use_type_invariant(&*self);
        }
        let ghost old_view = self@;
        let p = self.position(key.as_str());
        proof {
            lemma_seq_insert_at(old_view, key@, value@, p as int);
            lemma_seq_insert(old_view, key@, value@);
        }
        let mut replace = false;
        if p < self.entries.len() {
            let ec = chars_of(self.entries[p].0.as_str());
            let kc = chars_of(key.as_str());
            if compare_chars(&ec, &kc) == TextOrder::Equal {
                replace = true;
            }
        }
        let ghost kv = key@;
        let ghost vv = value@;
        let mut entries = Vec::new();
        std::mem::swap(&mut entries, &mut self.entries);
        proof {
            assert(entries@.map_values(|e: (String, V)| (e.0@, e.1@)) == old_view);
        }
        if replace {
            entries.set(p, (key, value));
        } else {
            entries.insert(p, (key, value));
        }
        proof {
            let nv = entries@.map_values(|e: (String, V)| (e.0@, e.1@));
            if replace {
                assert(nv =~= old_view.take(p as int) + seq![(kv, vv)] + old_view.skip(p + 1));
            } else {
                assert(nv =~= old_view.take(p as int) + seq![(kv, vv)] + old_view.skip(p as int));
            }
        }
        self.entries = entries;
    }

    /// Removes the entry of `key` and returns its value.
    pub fn remove(&mut self, key: &str) -> (res: Option<V>)
        ensures
            final(self)@ == seq_remove(old(self)@, key@),
            match res {
                Some(v) => lookup(old(self)@, key@) == Some(v@),
                None => lookup(old(self)@, key@) is None,
            },
    {
        proof {
            use_type_invariant(&*self);
        }
        let ghost old_view = self@;
        let p = self.position(key);
        proof {
            lemma_seq_insert_at(old_view, key@, arbitrary(), p as int);
            lemma_seq_remove(old_view, key@);
        }
        let mut found = false;
        if p < self.entries.len() {
            let ec = chars_of(self.entries[p].0.as_str());
            let kc = chars_of(key);
            if compare_chars(&ec, &kc) == TextOrder::Equal {
                found = true;
            }
        }
        if !found {
            proof {
                assert forall|i: int| 0 <= i < old_view.len() implies #[trigger] old_view[i].0 != key@ by {
                    if i >= p {
                        if i > p {
                            lemma_text_lt_total(old_view[p as int].0, key@);
                            if old_view[i].0 == key@ {
                                lemma_text_lt_transitive(key@, old_view[p as int].0, old_view[i].0);
                                lemma_text_lt_irreflexive(key@);
                            }
                        }
                    } else {
                        lemma_text_lt_irreflexive(key@);
                    }
                }
                lemma_seq_remove_none(old_view, key@);
            }
            return None;
        }
        proof {
            lemma_seq_remove_at(old_view, key@, p as int);
        }
        let mut entries = Vec::new();
        std::mem::swap(&mut entries, &mut self.entries);
        proof {
            assert(entries@.map_values(|e: (String, V)| (e.0@, e.1@)) == old_view);
        }
        let e = entries.remove(p);
        proof {
            let nv = entries@.map_values(|e: (String, V)| (e.0@, e.1@));
            assert(nv =~= old_view.take(p as int) + old_view.skip(p + 1));
        }
        self.entries = entries;
        Some(e.1)
    }
}

/// Removing an absent key changes nothing.
proof fn lemma_seq_remove_none<W>(s: Seq<(Seq<char>, W)>, k: Seq<char>)
    requires
        forall|i: int| 0 <= i < s.len() ==> #[trigger] s[i].0 != k,
    ensures
        seq_remove(s, k) == s,
    decreases s.len(),
{
    if s.len() > 0 {
        assert forall|i: int| 0 <= i < s.drop_first().len() implies #[trigger] s.drop_first()[i].0 != k by {
            assert(s.drop_first()[i] == s[i + 1]);
        }
        lemma_seq_remove_none(s.drop_first(), k);
        assert(seq![s[0]] + s.drop_first() =~= s);
    }
}

/// Appending an entry under another key does not change a lookup.
pub proof fn lemma_lookup_push<W>(s: Seq<(Seq<char>, W)>, e: (Seq<char>, W), k: Seq<char>)
    requires
        e.0 != k,
    ensures
        lookup(s.push(e), k) == lookup(s, k),
    decreases s.len(),
{
    if s.len() == 0 {
        assert(s.push(e).drop_first() =~= Seq::<(Seq<char>, W)>::empty());
        assert(lookup(s.push(e).drop_first(), k) is None);
    } else {
        assert(s.push(e).drop_first() =~= s.drop_first().push(e));
        lemma_lookup_push(s.drop_first(), e, k);
    }
}

} // verus!
