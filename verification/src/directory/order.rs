//! The order of `String` (code point by code point, a proper prefix first)
//! and the sorted vectors built with it.
use vstd::prelude::*;

use vstd::multiset::Multiset;

use crate::text::chars_of;
use crate::types::{texts, Text};

verus! {

broadcast use vstd::seq_lib::group_to_multiset_ensures;

/// `a < b` as `String` compares them: at the first differing character the
/// smaller code point wins; otherwise the shorter string is smaller.
pub open spec fn text_lt(a: Text, b: Text) -> bool
    decreases a.len(),
{
    if b.len() == 0 {
        false
    } else if a.len() == 0 {
        true
    } else if a[0] != b[0] {
        (a[0] as u32) < (b[0] as u32)
    } else {
        text_lt(a.drop_first(), b.drop_first())
    }
}

/// Nothing is smaller than itself.
pub proof fn lemma_text_lt_irreflexive(a: Text)
    ensures
        !text_lt(a, a),
    decreases a.len(),
{
    if a.len() > 0 {
        lemma_text_lt_irreflexive(a.drop_first());
    }
}

/// Of two different strings exactly one is the smaller.
pub proof fn lemma_text_lt_total(a: Text, b: Text)
    ensures
        a != b ==> (text_lt(a, b) || text_lt(b, a)),
        !(text_lt(a, b) && text_lt(b, a)),
    decreases a.len(),
{
    if a.len() == 0 || b.len() == 0 {
        if a.len() == 0 && b.len() == 0 {
            assert(a =~= b);
        }
    } else if a[0] == b[0] {
        let (a1, b1) = (a.drop_first(), b.drop_first());
        lemma_text_lt_total(a1, b1);
        if a1 == b1 {
            assert(a =~= seq![a[0]] + a1);
            assert(b =~= seq![b[0]] + b1);
        }
    } else {
        vstd::utf8::char_u32_cast(a[0], a[0] as u32);
        vstd::utf8::char_u32_cast(b[0], b[0] as u32);
    }
}

/// The order is transitive.
pub proof fn lemma_text_lt_transitive(a: Text, b: Text, c: Text)
    requires
        text_lt(a, b),
        text_lt(b, c),
    ensures
        text_lt(a, c),
    decreases a.len(),
{
    if a.len() > 0 && a[0] == b[0] && b[0] == c[0] {
        lemma_text_lt_transitive(a.drop_first(), b.drop_first(), c.drop_first());
    }
}

/// `a <= b` in the same order.
pub open spec fn text_le(a: Text, b: Text) -> bool {
    text_lt(a, b) || a == b
}

proof fn lemma_text_le_facts(a: Text, b: Text, c: Text)
    ensures
        !text_lt(b, a) <==> text_le(a, b),
        text_le(a, b) && text_le(b, c) ==> text_le(a, c),
        text_lt(a, b) && text_le(b, c) ==> text_lt(a, c),
{
    lemma_text_lt_total(a, b);
    lemma_text_lt_irreflexive(a);
    if text_lt(a, b) && text_lt(b, c) {
        lemma_text_lt_transitive(a, b, c);
    }
}

/// Each string is no smaller than the one before it.
pub open spec fn sorted(s: Seq<Text>) -> bool {
    forall|i: int, j: int| 0 <= i < j < s.len() ==> text_le(s[i], s[j])
}

/// Each string is larger than the one before it (so none occurs twice).
pub open spec fn strictly_sorted(s: Seq<Text>) -> bool {
    forall|i: int, j: int| 0 <= i < j < s.len() ==> text_lt(s[i], s[j])
}

/// Two sorted listings of the same strings are the same listing.
pub proof fn lemma_sorted_perm_unique(a: Seq<Text>, b: Seq<Text>)
    requires
        sorted(a),
        sorted(b),
        a.to_multiset() == b.to_multiset(),
    ensures
        a == b,
    decreases a.len(),
{
    assert(a.len() == a.to_multiset().len() && b.len() == b.to_multiset().len());
    if a.len() == 0 {
        assert(a =~= b);
    } else {
        assert(a.contains(a[0]) && b.contains(b[0]));
        assert(a.to_multiset().count(a[0]) > 0 && b.to_multiset().count(b[0]) > 0);
        assert(b.contains(a[0]) && a.contains(b[0]));
        let j = choose|j: int| 0 <= j < b.len() && b[j] == a[0];
        let i = choose|i: int| 0 <= i < a.len() && a[i] == b[0];
        if j > 0 {
            assert(text_le(b[0], b[j]));
        }
        if i > 0 {
            assert(text_le(a[0], a[i]));
        }
        lemma_text_lt_total(a[0], b[0]);
        lemma_text_lt_irreflexive(a[0]);
        assert(a[0] == b[0]);
        assert(a.remove(0) =~= a.drop_first());
        assert(b.remove(0) =~= b.drop_first());
        lemma_sorted_perm_unique(a.drop_first(), b.drop_first());
        assert(a =~= seq![a[0]] + a.drop_first());
        assert(b =~= seq![b[0]] + b.drop_first());
    }
}

/// The strings of `s` (with their repetitions), in increasing order.
pub open spec fn sorted_perm_of(s: Seq<Text>) -> Seq<Text> {
    choose|r: Seq<Text>| sorted(r) && r.to_multiset() == s.to_multiset()
}

/// `a < b` for two strings, computed character by character.
pub fn text_lt_exec(a: &str, b: &str) -> (r: bool)
    ensures
        r == text_lt(a@, b@),
{
    let x = chars_of(a);
    let y = chars_of(b);
    let mut i: usize = 0;
    assert(a@.skip(0) =~= a@ && b@.skip(0) =~= b@);
    while i < x.len() && i < y.len()
        invariant
            x@ == a@,
            y@ == b@,
            i <= x.len(),
            i <= y.len(),
            text_lt(a@, b@) == text_lt(a@.skip(i as int), b@.skip(i as int)),
        decreases x.len() - i,
    {
        let ghost sa = a@.skip(i as int);
        let ghost sb = b@.skip(i as int);
        assert(sa[0] == x@[i as int] && sb[0] == y@[i as int]);
        if x[i] != y[i] {
            return (x[i] as u32) < (y[i] as u32);
        }
        assert(sa.drop_first() =~= a@.skip(i + 1));
        assert(sb.drop_first() =~= b@.skip(i + 1));
        i = i + 1;
    }
    x.len() - i == 0 && y.len() - i > 0
}

proof fn lemma_texts_insert(v: Seq<String>, i: int, x: String)
    requires
        0 <= i <= v.len(),
    ensures
        texts(v.insert(i, x)) == texts(v).insert(i, x@),
{
    assert(texts(v.insert(i, x)) =~= texts(v).insert(i, x@));
}

/// Index of the first string in `v` that is not smaller than `x`.
fn lower_bound(v: &Vec<String>, x: &str) -> (i: usize)
    ensures
        i <= v.len(),
        forall|j: int| 0 <= j < i ==> text_lt(#[trigger] v@[j]@, x@),
        i < v.len() ==> !text_lt(v@[i as int]@, x@),
{
    let mut i: usize = 0;
    while i < v.len()
        invariant
            i <= v.len(),
            forall|j: int| 0 <= j < i ==> text_lt(#[trigger] v@[j]@, x@),
        decreases v.len() - i,
    {
        if !text_lt_exec(v[i].as_str(), x) {
            return i;
        }
        i = i + 1;
    }
    i
}

/// Inserts `x` into the sorted `v` before the first string not smaller
/// than it.
pub fn insert_sorted(v: &mut Vec<String>, x: String)
    requires
        sorted(texts(old(v)@)),
    ensures
        sorted(texts(final(v)@)),
        texts(final(v)@).to_multiset() == texts(old(v)@).to_multiset().insert(x@),
{
    let ghost s = texts(v@);
    let ghost xv = x@;
    let i = lower_bound(v, x.as_str());
    v.insert(i, x);
    proof {
        lemma_texts_insert(old(v)@, i as int, final(v)@[i as int]);
        let t = texts(v@);
        assert(t == s.insert(i as int, xv));
        assert forall|a: int, b: int| 0 <= a < b < t.len() implies text_le(t[a], t[b]) by {
            if b < i {
                assert(t[a] == s[a] && t[b] == s[b]);
            } else if b == i {
                assert(t[a] == s[a] && text_lt(s[a], xv));
            } else if a == i {
                assert(t[b] == s[b - 1]);
                assert(!text_lt(s[i as int], xv));
                lemma_text_le_facts(xv, s[i as int], s[b - 1]);
            } else if a < i {
                assert(t[a] == s[a] && t[b] == s[b - 1]);
            } else {
                assert(t[a] == s[a - 1] && t[b] == s[b - 1]);
            }
        }
    }
}

/// `v` sorted: the same strings, each no smaller than the one before.
pub fn sort_strings(v: Vec<String>) -> (r: Vec<String>)
    ensures
        sorted(texts(r@)),
        texts(r@).to_multiset() == texts(v@).to_multiset(),
        texts(r@) == sorted_perm_of(texts(v@)),
{
    let mut r: Vec<String> = Vec::new();
    let mut rest = v;
    let ghost all = texts(rest@);
    while rest.len() > 0
        invariant
            sorted(texts(r@)),
            texts(r@).to_multiset().add(texts(rest@).to_multiset()) == all.to_multiset(),
        decreases rest.len(),
    {
        let ghost before = texts(rest@);
        let x = rest.pop().unwrap();
        proof {
            assert(before =~= texts(rest@).push(x@));
        }
        insert_sorted(&mut r, x);
        proof {
            assert(texts(r@).to_multiset().add(texts(rest@).to_multiset()) =~= all.to_multiset());
        }
    }
    assert(texts(rest@).to_multiset() =~= Multiset::empty());
    assert(texts(r@).to_multiset() =~= all.to_multiset());
    proof {
        lemma_sorted_perm_unique(texts(r@), sorted_perm_of(all));
    }
    r
}

/// Adds `x` to the strictly sorted `v` unless it is there already.
pub fn insert_unique(v: &mut Vec<String>, x: String)
    requires
        strictly_sorted(texts(old(v)@)),
    ensures
        strictly_sorted(texts(final(v)@)),
        texts(final(v)@).to_set() == texts(old(v)@).to_set().insert(x@),
{
    let ghost s = texts(v@);
    let ghost xv = x@;
    let i = lower_bound(v, x.as_str());
    if i < v.len() && crate::text::str_eq(v[i].as_str(), x.as_str()) {
        assert(s.to_set().insert(xv) =~= s.to_set()) by {
            assert(s[i as int] == xv);
        }
        return;
    }
    v.insert(i, x);
    proof {
        lemma_texts_insert(old(v)@, i as int, final(v)@[i as int]);
        let t = texts(v@);
        assert(t == s.insert(i as int, xv));
        assert forall|a: int, b: int| 0 <= a < b < t.len() implies text_lt(t[a], t[b]) by {
            if b < i {
                assert(t[a] == s[a] && t[b] == s[b]);
            } else if b == i {
                assert(t[a] == s[a] && text_lt(s[a], xv));
            } else if a == i {
                assert(t[b] == s[b - 1]);
                assert(!text_lt(s[i as int], xv) && s[i as int] != xv);
                lemma_text_le_facts(xv, s[i as int], s[b - 1]);
                lemma_text_le_facts(s[i as int], xv, s[b - 1]);
                if b - 1 > i {
                    lemma_text_lt_transitive(xv, s[i as int], s[b - 1]);
                }
            } else if a < i {
                assert(t[a] == s[a] && t[b] == s[b - 1]);
            } else {
                assert(t[a] == s[a - 1] && t[b] == s[b - 1]);
            }
        }
        assert(t.to_set() =~= s.to_set().insert(xv)) by {
            assert forall|e: Text| t.to_set().contains(e) implies s.to_set().insert(xv).contains(e) by {
                let k = choose|k: int| 0 <= k < t.len() && t[k] == e;
                if k < i {
                    assert(s[k] == e);
                } else if k > i {
                    assert(s[k - 1] == e);
                }
            }
            assert forall|e: Text| s.to_set().insert(xv).contains(e) implies t.to_set().contains(e) by {
                if e == xv {
                    assert(t[i as int] == e);
                } else {
                    let k = choose|k: int| 0 <= k < s.len() && s[k] == e;
                    if k < i {
                        assert(t[k] == e);
                    } else {
                        assert(t[k + 1] == e);
                    }
                }
            }
        }
    }
}

} // verus!
