//! The names given to lifted types are fresh: the bounded search for a
//! free candidate always succeeds.
use vstd::prelude::*;
use vstd::set_lib::{lemma_int_range, lemma_len_subset, lemma_map_size, set_int_range};

use super::hoist::{
    add_all_used, add_used, candidate, collides, element_type_names, hoist_complex_list, hoist_element,
    hoist_elements, hoist_groups, hoist_member, hoist_members, hoist_top_elements, hoisted,
    initial_used, lifted_name, norm_type_name_spec, pick_name, HoistState,
};
use crate::text::{decimal, is_ascii_lowercase, last_index_of, lemma_last_index_exact, lemma_last_index_of, local_part};
use crate::types::{ComplexTypeModel, ElementModel, MemberModel, ModelGroupModel, SimpleTypeModel, Text, TopLevelModel, XsdModel};

verus! {

proof fn lemma_decimal_shape(n: nat)
    ensures
        decimal(n).len() >= 1,
        n >= 10 ==> decimal(n).len() >= 2,
        forall|i: int| 0 <= i < decimal(n).len() ==> '0' <= #[trigger] decimal(n)[i] <= '9',
    decreases n,
{
    if n >= 10 {
        lemma_decimal_shape(n / 10);
        let d = decimal(n / 10);
        assert forall|i: int| 0 <= i < decimal(n).len() implies '0' <= #[trigger] decimal(n)[i] <= '9' by {
            if i < d.len() {
                assert(decimal(n)[i] == d[i]);
            }
        }
    }
}

proof fn lemma_digit_char(a: nat, b: nat)
    requires
        a < 10,
        b < 10,
        (('0' as u32) + a) as char == (('0' as u32) + b) as char,
    ensures
        a == b,
{
    let x: u32 = (48 + a) as u32;
    let y: u32 = (48 + b) as u32;
    vstd::utf8::char_u32_cast(x as char, x);
    vstd::utf8::char_u32_cast(y as char, y);
    assert((x as char) as u32 == x);
    assert((y as char) as u32 == y);
}

/// Different numbers have different decimal forms.
pub proof fn lemma_decimal_injective(a: nat, b: nat)
    requires
        decimal(a) == decimal(b),
    ensures
        a == b,
    decreases a,
{
    lemma_decimal_shape(a);
    lemma_decimal_shape(b);
    if a < 10 && b < 10 {
        assert(decimal(a)[0] == decimal(b)[0]);
        assert(decimal(a)[0] == (('0' as u32) + a) as char);
        assert(decimal(b)[0] == (('0' as u32) + b) as char);
        lemma_digit_char(a, b);
    } else if a >= 10 && b >= 10 {
        let (da, db) = (decimal(a), decimal(b));
        assert(da.drop_last() =~= decimal(a / 10));
        assert(db.drop_last() =~= decimal(b / 10));
        lemma_decimal_injective(a / 10, b / 10);
        assert(da.last() == db.last());
        lemma_digit_char(a % 10, b % 10);
        assert(a == 10 * (a / 10) + a % 10) by (nonlinear_arith);
        assert(b == 10 * (b / 10) + b % 10) by (nonlinear_arith);
    }
}

/// What a candidate adds to the proposed name.
pub open spec fn suffix(k: nat) -> Text {
    if k == 0 {
        Seq::empty()
    } else {
        decimal(k + 1)
    }
}

proof fn lemma_suffix(k: nat)
    ensures
        forall|i: int| 0 <= i < suffix(k).len() ==> '0' <= #[trigger] suffix(k)[i] <= '9',
        k > 0 ==> suffix(k).len() >= 1,
{
    if k > 0 {
        lemma_decimal_shape(k + 1);
    }
}

proof fn lemma_suffix_injective(j: nat, k: nat)
    requires
        suffix(j) == suffix(k),
    ensures
        j == k,
{
    lemma_suffix(j);
    lemma_suffix(k);
    if j > 0 && k > 0 {
        lemma_decimal_injective(j + 1, k + 1);
    }
}

/// A candidate and its normalized form: the proposed name (normalized)
/// followed by the suffix.
proof fn lemma_candidate_parts(base: Text, k: nat)
    ensures
        candidate(base, k) == base + suffix(k),
        norm_type_name_spec(candidate(base, k)) == norm_type_name_spec(base) + suffix(k),
{
    let c = candidate(base, k);
    let s = suffix(k);
    assert(c =~= base + s);
    lemma_suffix(k);
    lemma_last_index_of(base, ':');
    let li = last_index_of(base, ':');
    assert forall|j: int| li < j < c.len() implies c[j] != ':' by {
        if j >= base.len() {
            assert(c[j] == s[j - base.len()]);
        } else {
            assert(c[j] == base[j]);
        }
    }
    if li >= 0 {
        assert(c[li] == base[li]);
    }
    lemma_last_index_exact(c, ':', li);
    let lp = local_part(base);
    assert(local_part(c) =~= lp + s);
    if lp.len() > 0 {
        assert((lp + s)[0] == lp[0]);
        assert((lp + s).drop_first() =~= lp.drop_first() + s);
        if is_ascii_lowercase(lp[0]) {
            assert(norm_type_name_spec(c) =~= norm_type_name_spec(base) + s);
        } else {
            assert(norm_type_name_spec(c) =~= norm_type_name_spec(base) + s);
        }
    } else {
        assert(lp + s =~= s);
        assert(norm_type_name_spec(base) =~= Seq::<char>::empty());
        if s.len() > 0 {
            assert('0' <= s[0] <= '9');
        }
        assert(norm_type_name_spec(c) =~= norm_type_name_spec(base) + s);
    }
}

proof fn lemma_append_cancel(p: Text, a: Text, b: Text)
    requires
        p + a == p + b,
    ensures
        a == b,
{
    assert(a =~= (p + a).subrange(p.len() as int, (p + a).len() as int));
    assert(b =~= (p + b).subrange(p.len() as int, (p + b).len() as int));
}

/// Different candidates are different names, and normalize to different
/// names.
proof fn lemma_candidates_distinct(base: Text, j: nat, k: nat)
    requires
        j != k,
    ensures
        candidate(base, j) != candidate(base, k),
        norm_type_name_spec(candidate(base, j)) != norm_type_name_spec(candidate(base, k)),
{
    lemma_candidate_parts(base, j);
    lemma_candidate_parts(base, k);
    if candidate(base, j) == candidate(base, k) {
        lemma_append_cancel(base, suffix(j), suffix(k));
        lemma_suffix_injective(j, k);
    }
    let nb = norm_type_name_spec(base);
    if norm_type_name_spec(candidate(base, j)) == norm_type_name_spec(candidate(base, k)) {
        lemma_append_cancel(nb, suffix(j), suffix(k));
        lemma_suffix_injective(j, k);
    }
}

/// Among the candidates `0..=used.len() + 2` one is free.
proof fn lemma_free_candidate_exists(base: Text, used: Seq<Text>, bn: Option<Text>)
    ensures
        exists|j: nat| j <= used.len() + 2 && !collides(#[trigger] candidate(base, j), used, bn),
{
    let kk: int = used.len() as int + 2;
    if forall|j: nat| j <= used.len() + 2 ==> collides(#[trigger] candidate(base, j), used, bn) {
        let range = set_int_range(0, kk + 1);
        lemma_int_range(0, kk + 1);
        let hits_base = |j: int| bn == Some(norm_type_name_spec(candidate(base, j as nat)));
        let x = range.filter(|j: int| !hits_base(j));
        assert(x.subset_of(range));
        lemma_len_subset(x, range);
        // At most one candidate normalizes to the base's name.
        if exists|j0: int| range.contains(j0) && hits_base(j0) {
            let j0 = choose|j0: int| range.contains(j0) && hits_base(j0);
            assert(range.remove(j0).subset_of(x)) by {
                assert forall|j: int| range.remove(j0).contains(j) implies x.contains(j) by {
                    lemma_candidates_distinct(base, j as nat, j0 as nat);
                }
            }
            lemma_len_subset(range.remove(j0), x);
            assert(x.len() >= kk);
        } else {
            assert(x =~= range);
        }
        // The others are all in use, and they are different names.
        let f = |j: int| candidate(base, j as nat);
        let img = x.map(f);
        assert(vstd::relations::injective_on(f, x)) by {
            assert forall|a: int, b: int| x.contains(a) && x.contains(b) && #[trigger] f(a) == #[trigger] f(b) implies a == b by {
                if a != b {
                    lemma_candidates_distinct(base, a as nat, b as nat);
                }
            }
        }
        lemma_map_size(x, img, f);
        assert(img.subset_of(used.to_set())) by {
            assert forall|c: Text| img.contains(c) implies used.to_set().contains(c) by {
                let j = choose|j: int| x.contains(j) && f(j) == c;
                assert(collides(candidate(base, j as nat), used, bn));
                assert(used.contains(c));
            }
        }
        used.lemma_cardinality_of_set();
        vstd::seq_lib::seq_to_set_is_finite(used);
        lemma_len_subset(img, used.to_set());
        assert(false);
    }
}

proof fn lemma_pick_free(base: Text, used: Seq<Text>, bn: Option<Text>, k: nat, fuel: nat, j: nat)
    requires
        k <= j <= k + fuel,
        !collides(candidate(base, j), used, bn),
    ensures
        !collides(pick_name(base, used, bn, k, fuel), used, bn),
    decreases fuel,
{
    if collides(candidate(base, k), used, bn) && fuel > 0 {
        lemma_pick_free(base, used, bn, k + 1, (fuel - 1) as nat, j);
    }
}

/// The name given to a lifted type proposed as `b` is not in use, and does
/// not normalize to the name of `b`'s own base type: the search for a free
/// `{name}`, `{name}2`, `{name}3`, ... always ends within its bound.
pub proof fn lemma_lifted_name_fresh(b: ComplexTypeModel, used: Seq<Text>)
    ensures
        !used.contains(lifted_name(b, used)),
        b.base_type matches Some(t) ==> norm_type_name_spec(lifted_name(b, used)) != norm_type_name_spec(t),
{
    let bn = match b.base_type {
        Some(t) => Some(norm_type_name_spec(t)),
        None => None,
    };
    lemma_free_candidate_exists(b.name, used, bn);
    let j = choose|j: nat| j <= used.len() + 2 && !collides(#[trigger] candidate(b.name, j), used, bn);
    lemma_pick_free(b.name, used, bn, 0, used.len() + 2, j);
}

/// The lifting state is sound: every lifted type's name is in use, no two
/// lifted types share a name, none has a name of `init`, and every name of
/// `init` is in use.
pub open spec fn names_ok(s: HoistState, init: Seq<Text>) -> bool {
    &&& forall|i: int| 0 <= i < s.out.len() ==> s.used.contains(#[trigger] s.out[i].name)
    &&& forall|i: int, j: int| 0 <= i < j < s.out.len() ==> s.out[i].name != s.out[j].name
    &&& forall|i: int| 0 <= i < s.out.len() ==> !init.contains(#[trigger] s.out[i].name)
    &&& forall|x: Text| init.contains(x) ==> #[trigger] s.used.contains(x)
}

/// `t` follows `s`: names in use stay in use, lifted types stay, and each
/// type lifted since was not a name in use at `s`.
pub open spec fn follows(s: HoistState, t: HoistState) -> bool {
    &&& forall|x: Text| s.used.contains(x) ==> #[trigger] t.used.contains(x)
    &&& s.out.len() <= t.out.len()
    &&& forall|i: int| 0 <= i < s.out.len() ==> #[trigger] t.out[i] == s.out[i]
    &&& forall|i: int| s.out.len() <= i < t.out.len() ==> !s.used.contains(#[trigger] t.out[i].name)
}

proof fn lemma_follows_trans(a: HoistState, b: HoistState, c: HoistState)
    requires
        follows(a, b),
        follows(b, c),
    ensures
        follows(a, c),
{
    assert forall|i: int| a.out.len() <= i < c.out.len() implies !a.used.contains(#[trigger] c.out[i].name) by {
        if i < b.out.len() {
            assert(c.out[i] == b.out[i]);
        }
    }
}

proof fn lemma_add_used(used: Seq<Text>, n: Text)
    ensures
        add_used(used, n).contains(n),
        forall|x: Text| used.contains(x) ==> #[trigger] add_used(used, n).contains(x),
{
    if !used.contains(n) {
        assert(used.push(n)[used.len() as int] == n);
        assert forall|x: Text| used.contains(x) implies #[trigger] used.push(n).contains(x) by {
            let i = choose|i: int| 0 <= i < used.len() && used[i] == x;
            assert(used.push(n)[i] == x);
        }
    }
}

proof fn lemma_element_names(e: ElementModel, s: HoistState, init: Seq<Text>)
    requires
        names_ok(s, init),
    ensures
        names_ok(hoist_element(e, s).1, init),
        follows(s, hoist_element(e, s).1),
    decreases e,
{
    match e.inline_complex_type {
        None => {},
        Some(b) => {
            let name = lifted_name(*b, s.used);
            lemma_lifted_name_fresh(*b, s.used);
            lemma_add_used(s.used, name);
            let s1 = HoistState { used: add_used(s.used, name), ..s };
            assert(names_ok(s1, init));
            lemma_members_names(b.members, s1, init);
            let (ms, s2) = hoist_members(b.members, s1);
            let out = s2.out.push(ComplexTypeModel { name, members: ms, ..*b });
            let t = HoistState { out, ..s2 };
            assert(follows(s, s1));
            lemma_follows_trans(s, s1, s2);
            assert forall|i: int| 0 <= i < out.len() implies t.used.contains(#[trigger] out[i].name) by {
                if i < s2.out.len() {
                    assert(out[i] == s2.out[i]);
                } else {
                    assert(s1.used.contains(name));
                }
            }
            assert forall|i: int, j: int| 0 <= i < j < out.len() implies out[i].name != out[j].name by {
                if j < s2.out.len() {
                    assert(out[i] == s2.out[i] && out[j] == s2.out[j]);
                } else {
                    assert(out[i] == s2.out[i]);
                    if i < s.out.len() {
                        assert(s2.out[i] == s.out[i]);
                        assert(s.used.contains(s.out[i].name));
                    } else {
                        assert(!s1.used.contains(s2.out[i].name));
                    }
                }
            }
            assert forall|i: int| 0 <= i < out.len() implies !init.contains(#[trigger] out[i].name) by {
                if i < s2.out.len() {
                    assert(out[i] == s2.out[i]);
                }
            }
            assert forall|i: int| s.out.len() <= i < out.len() implies !s.used.contains(#[trigger] out[i].name) by {
                if i < s2.out.len() {
                    assert(out[i] == s2.out[i]);
                }
            }
            assert forall|i: int| 0 <= i < s.out.len() implies #[trigger] out[i] == s.out[i] by {
                assert(out[i] == s2.out[i]);
            }
        },
    }
}

proof fn lemma_elements_names(es: Seq<ElementModel>, s: HoistState, init: Seq<Text>)
    requires
        names_ok(s, init),
    ensures
        names_ok(hoist_elements(es, s).1, init),
        follows(s, hoist_elements(es, s).1),
    decreases es,
{
    if es.len() > 0 {
        lemma_elements_names(es.drop_last(), s, init);
        let (a, s1) = hoist_elements(es.drop_last(), s);
        lemma_element_names(es.last(), s1, init);
        lemma_follows_trans(s, s1, hoist_element(es.last(), s1).1);
    }
}

proof fn lemma_member_names(m: MemberModel, s: HoistState, init: Seq<Text>)
    requires
        names_ok(s, init),
    ensures
        names_ok(hoist_member(m, s).1, init),
        follows(s, hoist_member(m, s).1),
    decreases m,
{
    match m {
        MemberModel::Element(e) => {
            lemma_element_names(e, s, init);
        },
        MemberModel::Choice(c) => {
            lemma_elements_names(c.elements, s, init);
        },
        MemberModel::GroupRef { .. } => {},
    }
}

proof fn lemma_members_names(ms: Seq<MemberModel>, s: HoistState, init: Seq<Text>)
    requires
        names_ok(s, init),
    ensures
        names_ok(hoist_members(ms, s).1, init),
        follows(s, hoist_members(ms, s).1),
    decreases ms,
{
    if ms.len() > 0 {
        lemma_members_names(ms.drop_last(), s, init);
        let (a, s1) = hoist_members(ms.drop_last(), s);
        lemma_member_names(ms.last(), s1, init);
        lemma_follows_trans(s, s1, hoist_member(ms.last(), s1).1);
    }
}

proof fn lemma_complex_list_names(cts: Seq<ComplexTypeModel>, s: HoistState, init: Seq<Text>)
    requires
        names_ok(s, init),
    ensures
        names_ok(hoist_complex_list(cts, s).1, init),
        follows(s, hoist_complex_list(cts, s).1),
        hoist_complex_list(cts, s).0.len() == cts.len(),
        forall|i: int| 0 <= i < cts.len() ==> (#[trigger] hoist_complex_list(cts, s).0[i]).name == cts[i].name,
    decreases cts.len(),
{
    if cts.len() > 0 {
        lemma_complex_list_names(cts.drop_last(), s, init);
        let (a, s1) = hoist_complex_list(cts.drop_last(), s);
        lemma_members_names(cts.last().members, s1, init);
        lemma_follows_trans(s, s1, hoist_members(cts.last().members, s1).1);
        let r = hoist_complex_list(cts, s).0;
        assert forall|i: int| 0 <= i < cts.len() implies (#[trigger] r[i]).name == cts[i].name by {
            if i < cts.len() - 1 {
                assert(r[i] == a[i]);
                assert(cts.drop_last()[i] == cts[i]);
            }
        }
    }
}

proof fn lemma_top_names(es: Seq<TopLevelModel>, s: HoistState, init: Seq<Text>)
    requires
        names_ok(s, init),
    ensures
        names_ok(hoist_top_elements(es, s).1, init),
        follows(s, hoist_top_elements(es, s).1),
    decreases es.len(),
{
    if es.len() > 0 {
        lemma_top_names(es.drop_last(), s, init);
        let (a, s1) = hoist_top_elements(es.drop_last(), s);
        match es.last().complex_type {
            Some(ct) => {
                lemma_members_names(ct.members, s1, init);
                lemma_follows_trans(s, s1, hoist_members(ct.members, s1).1);
            },
            None => {},
        }
    }
}

proof fn lemma_groups_names(gs: Seq<ModelGroupModel>, s: HoistState, init: Seq<Text>)
    requires
        names_ok(s, init),
    ensures
        names_ok(hoist_groups(gs, s).1, init),
        follows(s, hoist_groups(gs, s).1),
    decreases gs.len(),
{
    if gs.len() > 0 {
        lemma_groups_names(gs.drop_last(), s, init);
        let (a, s1) = hoist_groups(gs.drop_last(), s);
        lemma_members_names(gs.last().members, s1, init);
        lemma_follows_trans(s, s1, hoist_members(gs.last().members, s1).1);
    }
}

proof fn lemma_add_all_used(used: Seq<Text>, names: Seq<Text>)
    ensures
        forall|x: Text| used.contains(x) ==> #[trigger] add_all_used(used, names).contains(x),
        forall|i: int| 0 <= i < names.len() ==> add_all_used(used, names).contains(#[trigger] names[i]),
    decreases names.len(),
{
    if names.len() > 0 {
        lemma_add_all_used(used, names.drop_last());
        lemma_add_used(add_all_used(used, names.drop_last()), names.last());
        assert forall|i: int| 0 <= i < names.len() implies add_all_used(used, names).contains(#[trigger] names[i]) by {
            if i < names.len() - 1 {
                assert(names.drop_last()[i] == names[i]);
            }
        }
    }
}

/// The complex and simple type names in use before lifting are all names
/// the lifting avoids.
proof fn lemma_initial_used(x: XsdModel)
    ensures
        forall|k: int| 0 <= k < x.complex_types.len() ==> initial_used(x).contains(#[trigger] x.complex_types[k].name),
        forall|k: int| 0 <= k < x.simple_types.len() ==> initial_used(x).contains(#[trigger] x.simple_types[k].name),
{
    let cn = x.complex_types.map_values(|c: ComplexTypeModel| c.name);
    let sn = x.simple_types.map_values(|st: SimpleTypeModel| st.name);
    let a = add_all_used(Seq::empty(), cn);
    let b = add_all_used(a, sn);
    lemma_add_all_used(Seq::empty(), cn);
    lemma_add_all_used(a, sn);
    lemma_add_all_used(b, element_type_names(x.elements));
    assert forall|k: int| 0 <= k < x.complex_types.len() implies initial_used(x).contains(#[trigger] x.complex_types[k].name) by {
        assert(cn[k] == x.complex_types[k].name);
    }
    assert forall|k: int| 0 <= k < x.simple_types.len() implies initial_used(x).contains(#[trigger] x.simple_types[k].name) by {
        assert(sn[k] == x.simple_types[k].name);
    }
}

/// Lifting appends the lifted types after the schema's own complex types
/// (which keep their names), and gives every lifted type a name of its own:
/// no two lifted types share a name, and none takes the name of a complex
/// or simple type of the schema.
pub proof fn lemma_hoisted_names_fresh(x: XsdModel)
    ensures
        hoisted(x).complex_types.len() >= x.complex_types.len(),
        forall|k: int| 0 <= k < x.complex_types.len() ==> (#[trigger] hoisted(x).complex_types[k]).name == x.complex_types[k].name,
        forall|i: int, j: int|
            x.complex_types.len() <= i < j < hoisted(x).complex_types.len() ==> hoisted(x).complex_types[i].name
                != hoisted(x).complex_types[j].name,
        forall|i: int, k: int|
            #![trigger hoisted(x).complex_types[i], x.complex_types[k]]
            x.complex_types.len() <= i < hoisted(x).complex_types.len() && 0 <= k < x.complex_types.len()
                ==> hoisted(x).complex_types[i].name != x.complex_types[k].name,
        forall|i: int, k: int|
            #![trigger hoisted(x).complex_types[i], x.simple_types[k]]
            x.complex_types.len() <= i < hoisted(x).complex_types.len() && 0 <= k < x.simple_types.len()
                ==> hoisted(x).complex_types[i].name != x.simple_types[k].name,
{
    let init = initial_used(x);
    let s0 = HoistState { out: Seq::empty(), used: init };
    assert(names_ok(s0, init));
    lemma_complex_list_names(x.complex_types, s0, init);
    let (cts, s1) = hoist_complex_list(x.complex_types, s0);
    lemma_top_names(x.elements, s1, init);
    let (es, s2) = hoist_top_elements(x.elements, s1);
    lemma_groups_names(x.model_groups, s2, init);
    let (gs, s3) = hoist_groups(x.model_groups, s2);
    lemma_initial_used(x);
    let all = hoisted(x).complex_types;
    assert(all == cts + s3.out);
    let n = cts.len();
    assert forall|k: int| 0 <= k < x.complex_types.len() implies (#[trigger] all[k]).name == x.complex_types[k].name by {
        assert(all[k] == cts[k]);
    }
    assert forall|i: int, j: int| n <= i < j < all.len() implies all[i].name != all[j].name by {
        assert(all[i] == s3.out[i - n] && all[j] == s3.out[j - n]);
    }
    assert forall|i: int, k: int|
        #![trigger all[i], x.complex_types[k]]
        n <= i < all.len() && 0 <= k < x.complex_types.len() implies all[i].name != x.complex_types[k].name by {
        assert(all[i] == s3.out[i - n]);
        assert(!init.contains(s3.out[i - n].name));
    }
    assert forall|i: int, k: int|
        #![trigger all[i], x.simple_types[k]]
        n <= i < all.len() && 0 <= k < x.simple_types.len() implies all[i].name != x.simple_types[k].name by {
        assert(all[i] == s3.out[i - n]);
        assert(!init.contains(s3.out[i - n].name));
    }
}

} // verus!
