//! Lifting anonymous inline complex types into named ones.
use vstd::prelude::*;

use crate::codegen::emit::decimal_string;
use crate::text::{
    ascii_upper, ascii_upper_exec, chars_of, decimal, is_ascii_lowercase, local_part, owned,
    push_str, str_eq, strip_ns,
};
use crate::types::{
    complex_view, element_view, elements_view, lemma_elements_view_push, lemma_members_view_push,
    member_view, members_view, texts, top_level_view, ChoiceGroup, ChoiceModel, ComplexTypeDef,
    ComplexTypeModel, ElementDef, ElementModel, MemberModel, ModelGroupModel, SequenceMember,
    SimpleTypeModel, Text, TopLevelElement, TopLevelModel, XsdFile, XsdModel, xsd_view,
    ModelGroupDef, model_group_view,
};

verus! {

broadcast use vstd::std_specs::vec::group_vec_axioms;

/// The complex types lifted so far and the type names in use.
pub struct HoistState {
    pub out: Seq<ComplexTypeModel>,
    pub used: Seq<Text>,
}

/// A type reference as the Rust identifier codegen emits for it: no
/// namespace prefix, a leading ASCII lower-case letter upper-cased.
pub open spec fn norm_type_name_spec(ty: Text) -> Text {
    let l = local_part(ty);
    if l.len() > 0 && is_ascii_lowercase(l[0]) {
        seq![ascii_upper(l[0])] + l.drop_first()
    } else {
        l
    }
}

/// The `k`-th name tried for a lifted type proposed as `base`: `base`, then
/// `base2`, `base3`, ...
pub open spec fn candidate(base: Text, k: nat) -> Text {
    if k == 0 {
        base
    } else {
        base + decimal(k + 1)
    }
}

/// A candidate is taken when it is in use, or when it would name the type
/// after its own base (a self-referential type of infinite size).
pub open spec fn collides(c: Text, used: Seq<Text>, base_norm: Option<Text>) -> bool {
    base_norm == Some(norm_type_name_spec(c)) || used.contains(c)
}

/// The first candidate from the `k`-th on that is not taken; `fuel` bounds
/// the search.
pub open spec fn pick_name(base: Text, used: Seq<Text>, bn: Option<Text>, k: nat, fuel: nat) -> Text
    decreases fuel,
{
    let c = candidate(base, k);
    if !collides(c, used, bn) || fuel == 0 {
        c
    } else {
        pick_name(base, used, bn, k + 1, (fuel - 1) as nat)
    }
}

pub open spec fn add_used(used: Seq<Text>, n: Text) -> Seq<Text> {
    if used.contains(n) {
        used
    } else {
        used.push(n)
    }
}

/// The name given to a lifted type proposed as `b`.
pub open spec fn lifted_name(b: ComplexTypeModel, used: Seq<Text>) -> Text {
    let bn = match b.base_type {
        Some(t) => Some(norm_type_name_spec(t)),
        None => None,
    };
    pick_name(b.name, used, bn, 0, used.len() + 2)
}

pub open spec fn hoist_element(e: ElementModel, s: HoistState) -> (ElementModel, HoistState)
    decreases e,
{
    match e.inline_complex_type {
        None => (e, s),
        Some(b) => {
            let name = lifted_name(*b, s.used);
            let s1 = HoistState { used: add_used(s.used, name), ..s };
            let (ms, s2) = hoist_members(b.members, s1);
            (
                ElementModel { type_ref: Some(name), inline_complex_type: None, ..e },
                HoistState { out: s2.out.push(ComplexTypeModel { name, members: ms, ..*b }), ..s2 },
            )
        },
    }
}

pub open spec fn hoist_elements(es: Seq<ElementModel>, s: HoistState) -> (Seq<ElementModel>, HoistState)
    decreases es,
{
    if es.len() == 0 {
        (es, s)
    } else {
        let (a, s1) = hoist_elements(es.drop_last(), s);
        let (e, s2) = hoist_element(es.last(), s1);
        (a.push(e), s2)
    }
}

pub open spec fn hoist_member(m: MemberModel, s: HoistState) -> (MemberModel, HoistState)
    decreases m,
{
    match m {
        MemberModel::Element(e) => {
            let (e2, s2) = hoist_element(e, s);
            (MemberModel::Element(e2), s2)
        },
        MemberModel::Choice(c) => {
            let (es, s2) = hoist_elements(c.elements, s);
            (MemberModel::Choice(ChoiceModel { elements: es, ..c }), s2)
        },
        MemberModel::GroupRef { .. } => (m, s),
    }
}

pub open spec fn hoist_members(ms: Seq<MemberModel>, s: HoistState) -> (Seq<MemberModel>, HoistState)
    decreases ms,
{
    if ms.len() == 0 {
        (ms, s)
    } else {
        let (a, s1) = hoist_members(ms.drop_last(), s);
        let (m, s2) = hoist_member(ms.last(), s1);
        (a.push(m), s2)
    }
}

pub open spec fn add_all_used(used: Seq<Text>, names: Seq<Text>) -> Seq<Text>
    decreases names.len(),
{
    if names.len() == 0 {
        used
    } else {
        add_used(add_all_used(used, names.drop_last()), names.last())
    }
}

pub open spec fn element_type_names(es: Seq<TopLevelModel>) -> Seq<Text>
    decreases es.len(),
{
    if es.len() == 0 {
        Seq::empty()
    } else {
        element_type_names(es.drop_last()) + match es.last().complex_type {
            Some(ct) => seq![ct.name],
            None => Seq::empty(),
        }
    }
}

/// The names in use before lifting: complex types, simple types, and the
/// complex types of top-level elements.
pub open spec fn initial_used(x: XsdModel) -> Seq<Text> {
    let a = add_all_used(Seq::empty(), x.complex_types.map_values(|c: ComplexTypeModel| c.name));
    let b = add_all_used(a, x.simple_types.map_values(|st: SimpleTypeModel| st.name));
    add_all_used(b, element_type_names(x.elements))
}

pub open spec fn hoist_complex_list(cts: Seq<ComplexTypeModel>, s: HoistState) -> (
    Seq<ComplexTypeModel>,
    HoistState,
)
    decreases cts.len(),
{
    if cts.len() == 0 {
        (cts, s)
    } else {
        let (a, s1) = hoist_complex_list(cts.drop_last(), s);
        let (ms, s2) = hoist_members(cts.last().members, s1);
        (a.push(ComplexTypeModel { members: ms, ..cts.last() }), s2)
    }
}

pub open spec fn hoist_top_elements(es: Seq<TopLevelModel>, s: HoistState) -> (
    Seq<TopLevelModel>,
    HoistState,
)
    decreases es.len(),
{
    if es.len() == 0 {
        (es, s)
    } else {
        let (a, s1) = hoist_top_elements(es.drop_last(), s);
        let e = es.last();
        match e.complex_type {
            Some(ct) => {
                let (ms, s2) = hoist_members(ct.members, s1);
                (
                    a.push(
                        TopLevelModel {
                            complex_type: Some(ComplexTypeModel { members: ms, ..ct }),
                            ..e
                        },
                    ),
                    s2,
                )
            },
            None => (a.push(e), s1),
        }
    }
}

pub open spec fn hoist_groups(gs: Seq<ModelGroupModel>, s: HoistState) -> (
    Seq<ModelGroupModel>,
    HoistState,
)
    decreases gs.len(),
{
    if gs.len() == 0 {
        (gs, s)
    } else {
        let (a, s1) = hoist_groups(gs.drop_last(), s);
        let (ms, s2) = hoist_members(gs.last().members, s1);
        (a.push(ModelGroupModel { members: ms, ..gs.last() }), s2)
    }
}

/// The schema with every anonymous inline complex type lifted into a named
/// complex type appended to `complex_types`, and the element that declared
/// it referring to it by name. Complex types, then top-level elements' types,
/// then model groups are walked in order; nested inline types are lifted
/// before the type that contains them.
pub open spec fn hoisted(x: XsdModel) -> XsdModel {
    let s0 = HoistState { out: Seq::empty(), used: initial_used(x) };
    let (cts, s1) = hoist_complex_list(x.complex_types, s0);
    let (es, s2) = hoist_top_elements(x.elements, s1);
    let (gs, s3) = hoist_groups(x.model_groups, s2);
    XsdModel { complex_types: cts + s3.out, elements: es, model_groups: gs, ..x }
}

/// No element of `es` declares an inline complex type.
pub open spec fn elements_flat(es: Seq<ElementModel>) -> bool {
    forall|i: int| 0 <= i < es.len() ==> (#[trigger] es[i]).inline_complex_type is None
}

/// The member declares no inline complex type (nor do the alternatives of a
/// choice).
pub open spec fn member_flat(m: MemberModel) -> bool {
    match m {
        MemberModel::Element(e) => e.inline_complex_type is None,
        MemberModel::Choice(c) => elements_flat(c.elements),
        MemberModel::GroupRef { .. } => true,
    }
}

pub open spec fn members_flat(ms: Seq<MemberModel>) -> bool {
    forall|i: int| 0 <= i < ms.len() ==> member_flat(#[trigger] ms[i])
}

pub open spec fn types_flat(cts: Seq<ComplexTypeModel>) -> bool {
    forall|i: int| 0 <= i < cts.len() ==> members_flat((#[trigger] cts[i]).members)
}

/// No inline complex type is left anywhere in the schema: not in its
/// complex types, not in its top-level elements' types, not in its model
/// groups.
pub open spec fn schema_flat(x: XsdModel) -> bool {
    &&& types_flat(x.complex_types)
    &&& forall|i: int|
        0 <= i < x.elements.len() ==> match (#[trigger] x.elements[i]).complex_type {
            Some(ct) => members_flat(ct.members),
            None => true,
        }
    &&& forall|i: int| 0 <= i < x.model_groups.len() ==> members_flat((#[trigger] x.model_groups[i]).members)
}

proof fn lemma_hoist_element_flat(e: ElementModel, s: HoistState)
    requires
        types_flat(s.out),
    ensures
        hoist_element(e, s).0.inline_complex_type is None,
        types_flat(hoist_element(e, s).1.out),
    decreases e,
{
    match e.inline_complex_type {
        None => {},
        Some(b) => {
            let name = lifted_name(*b, s.used);
            let s1 = HoistState { used: add_used(s.used, name), ..s };
            lemma_hoist_members_flat(b.members, s1);
            let (ms, s2) = hoist_members(b.members, s1);
            let out = s2.out.push(ComplexTypeModel { name, members: ms, ..*b });
            assert forall|i: int| 0 <= i < out.len() implies members_flat((#[trigger] out[i]).members) by {
                if i < s2.out.len() {
                    assert(out[i] == s2.out[i]);
                }
            }
        },
    }
}

proof fn lemma_hoist_elements_flat(es: Seq<ElementModel>, s: HoistState)
    requires
        types_flat(s.out),
    ensures
        elements_flat(hoist_elements(es, s).0),
        types_flat(hoist_elements(es, s).1.out),
    decreases es,
{
    if es.len() > 0 {
        lemma_hoist_elements_flat(es.drop_last(), s);
        let (a, s1) = hoist_elements(es.drop_last(), s);
        lemma_hoist_element_flat(es.last(), s1);
        let (e, s2) = hoist_element(es.last(), s1);
        let r = a.push(e);
        assert forall|i: int| 0 <= i < r.len() implies (#[trigger] r[i]).inline_complex_type is None by {
            if i < a.len() {
                assert(r[i] == a[i]);
            }
        }
    }
}

proof fn lemma_hoist_member_flat(m: MemberModel, s: HoistState)
    requires
        types_flat(s.out),
    ensures
        member_flat(hoist_member(m, s).0),
        types_flat(hoist_member(m, s).1.out),
    decreases m,
{
    match m {
        MemberModel::Element(e) => {
            lemma_hoist_element_flat(e, s);
        },
        MemberModel::Choice(c) => {
            lemma_hoist_elements_flat(c.elements, s);
        },
        MemberModel::GroupRef { .. } => {},
    }
}

proof fn lemma_hoist_members_flat(ms: Seq<MemberModel>, s: HoistState)
    requires
        types_flat(s.out),
    ensures
        members_flat(hoist_members(ms, s).0),
        types_flat(hoist_members(ms, s).1.out),
    decreases ms,
{
    if ms.len() > 0 {
        lemma_hoist_members_flat(ms.drop_last(), s);
        let (a, s1) = hoist_members(ms.drop_last(), s);
        lemma_hoist_member_flat(ms.last(), s1);
        let (m, s2) = hoist_member(ms.last(), s1);
        let r = a.push(m);
        assert forall|i: int| 0 <= i < r.len() implies member_flat(#[trigger] r[i]) by {
            if i < a.len() {
                assert(r[i] == a[i]);
            }
        }
    }
}

proof fn lemma_hoist_complex_list_flat(cts: Seq<ComplexTypeModel>, s: HoistState)
    requires
        types_flat(s.out),
    ensures
        types_flat(hoist_complex_list(cts, s).0),
        types_flat(hoist_complex_list(cts, s).1.out),
    decreases cts.len(),
{
    if cts.len() > 0 {
        lemma_hoist_complex_list_flat(cts.drop_last(), s);
        let (a, s1) = hoist_complex_list(cts.drop_last(), s);
        lemma_hoist_members_flat(cts.last().members, s1);
        let (ms, s2) = hoist_members(cts.last().members, s1);
        let r = a.push(ComplexTypeModel { members: ms, ..cts.last() });
        assert forall|i: int| 0 <= i < r.len() implies members_flat((#[trigger] r[i]).members) by {
            if i < a.len() {
                assert(r[i] == a[i]);
            }
        }
    }
}

proof fn lemma_hoist_top_flat(es: Seq<TopLevelModel>, s: HoistState)
    requires
        types_flat(s.out),
    ensures
        forall|i: int|
            0 <= i < hoist_top_elements(es, s).0.len() ==> match (#[trigger] hoist_top_elements(
                es,
                s,
            ).0[i]).complex_type {
                Some(ct) => members_flat(ct.members),
                None => true,
            },
        types_flat(hoist_top_elements(es, s).1.out),
    decreases es.len(),
{
    if es.len() > 0 {
        lemma_hoist_top_flat(es.drop_last(), s);
        let (a, s1) = hoist_top_elements(es.drop_last(), s);
        let e = es.last();
        match e.complex_type {
            Some(ct) => {
                lemma_hoist_members_flat(ct.members, s1);
            },
            None => {},
        }
        let r = hoist_top_elements(es, s).0;
        assert forall|i: int| 0 <= i < r.len() implies match (#[trigger] r[i]).complex_type {
            Some(ct) => members_flat(ct.members),
            None => true,
        } by {
            if i < a.len() {
                assert(r[i] == a[i]);
            }
        }
    }
}

proof fn lemma_hoist_groups_flat(gs: Seq<ModelGroupModel>, s: HoistState)
    requires
        types_flat(s.out),
    ensures
        forall|i: int|
            0 <= i < hoist_groups(gs, s).0.len() ==> members_flat(
                (#[trigger] hoist_groups(gs, s).0[i]).members,
            ),
        types_flat(hoist_groups(gs, s).1.out),
    decreases gs.len(),
{
    if gs.len() > 0 {
        lemma_hoist_groups_flat(gs.drop_last(), s);
        let (a, s1) = hoist_groups(gs.drop_last(), s);
        lemma_hoist_members_flat(gs.last().members, s1);
        let r = hoist_groups(gs, s).0;
        assert forall|i: int| 0 <= i < r.len() implies members_flat((#[trigger] r[i]).members) by {
            if i < a.len() {
                assert(r[i] == a[i]);
            }
        }
    }
}

/// After lifting, no inline complex type remains anywhere in the schema, so
/// code generation only meets named complex types and type references.
pub proof fn lemma_hoisted_flat(x: XsdModel)
    ensures
        schema_flat(hoisted(x)),
{
    let s0 = HoistState { out: Seq::empty(), used: initial_used(x) };
    lemma_hoist_complex_list_flat(x.complex_types, s0);
    let (cts, s1) = hoist_complex_list(x.complex_types, s0);
    lemma_hoist_top_flat(x.elements, s1);
    let (es, s2) = hoist_top_elements(x.elements, s1);
    lemma_hoist_groups_flat(x.model_groups, s2);
    let (gs, s3) = hoist_groups(x.model_groups, s2);
    let all = cts + s3.out;
    assert forall|i: int| 0 <= i < all.len() implies members_flat((#[trigger] all[i]).members) by {
        if i < cts.len() {
            assert(all[i] == cts[i]);
        } else {
            assert(all[i] == s3.out[i - cts.len()]);
        }
    }
}

// ---------------------------------------------------------------------------
// Executable
// ---------------------------------------------------------------------------

pub open spec fn cts_view(v: Seq<ComplexTypeDef>) -> Seq<ComplexTypeModel> {
    v.map_values(|c: ComplexTypeDef| complex_view(c))
}

pub open spec fn hstate(out: Vec<ComplexTypeDef>, used: Vec<String>) -> HoistState {
    HoistState { out: cts_view(out@), used: texts(used@) }
}

/// Normalizes a type reference to the Rust identifier codegen will emit for
/// it: strip any namespace prefix and upper-case a leading lowercase letter.
pub fn norm_type_name(ty: &str) -> (r: String)
    ensures
        r@ == norm_type_name_spec(ty@),
{
    let l = strip_ns(ty);
    let v = chars_of(l.as_str());
    if v.len() > 0 && 'a' <= v[0] && v[0] <= 'z' {
        let mut r = String::new();
        r.push(ascii_upper_exec(v[0]));
        let mut i: usize = 1;
        while i < v.len()
            invariant
                v@ == l@,
                1 <= i <= v.len(),
                r@ == seq![ascii_upper(v@[0])] + v@.subrange(1, i as int),
            decreases v.len() - i,
        {
            r.push(v[i]);
            i = i + 1;
        }
        assert(v@.subrange(1, v.len() as int) =~= v@.drop_first());
        r
    } else {
        l
    }
}

fn contains_name(names: &Vec<String>, name: &str) -> (r: bool)
    ensures
        r == texts(names@).contains(name@),
{
    let mut i: usize = 0;
    while i < names.len()
        invariant
            i <= names.len(),
            forall|j: int| 0 <= j < i ==> names@[j]@ != name@,
        decreases names.len() - i,
    {
        if str_eq(names[i].as_str(), name) {
            assert(texts(names@)[i as int] == name@);
            return true;
        }
        i = i + 1;
    }
    proof {
        if texts(names@).contains(name@) {
            let j = choose|j: int| 0 <= j < texts(names@).len() && texts(names@)[j] == name@;
            assert(names@[j]@ == name@);
        }
    }
    false
}

fn add_used_exec(used: &mut Vec<String>, n: &str)
    ensures
        texts(final(used)@) == add_used(texts(old(used)@), n@),
{
    if !contains_name(used, n) {
        let ghost before = used@;
        used.push(owned(n));
        assert(texts(used@) =~= texts(before).push(n@));
    }
}

fn candidate_exec(base: &str, k: u128) -> (r: String)
    requires
        k < u128::MAX,
    ensures
        r@ == candidate(base@, k as nat),
{
    let mut r = owned(base);
    if k > 0 {
        let d = decimal_string(k + 1);
        push_str(&mut r, d.as_str());
    }
    r
}

fn pick_name_exec(base: &str, used: &Vec<String>, bn: &Option<String>) -> (r: String)
    ensures
        r@ == pick_name(base@, texts(used@), crate::types::opt_text(*bn), 0, texts(used@).len() + 2),
{
    let ghost u = texts(used@);
    let ghost b = crate::types::opt_text(*bn);
    let ghost fuel0: nat = u.len() + 2;
    let mut fuel: u128 = used.len() as u128 + 2;
    let mut k: u128 = 0;
    loop
        invariant
            u == texts(used@),
            b == crate::types::opt_text(*bn),
            fuel0 == u.len() + 2,
            u.len() == used@.len(),
            used@.len() <= usize::MAX,
            k + fuel == fuel0,
            pick_name(base@, u, b, k as nat, fuel as nat) == pick_name(base@, u, b, 0, fuel0),
        decreases fuel,
    {
        let c = candidate_exec(base, k);
        let base_hit = match bn {
            Some(x) => {
                let nc = norm_type_name(c.as_str());
                str_eq(x.as_str(), nc.as_str())
            },
            None => false,
        };
        if (!base_hit && !contains_name(used, c.as_str())) || fuel == 0 {
            return c;
        }
        k = k + 1;
        fuel = fuel - 1;
    }
}

fn hoist_in_element(elem: ElementDef, out: &mut Vec<ComplexTypeDef>, used: &mut Vec<String>) -> (r:
    ElementDef)
    ensures
        (element_view(r), hstate(*final(out), *final(used))) == hoist_element(
            element_view(elem),
            hstate(*old(out), *old(used)),
        ),
    decreases elem,
{
    let ElementDef {
        name,
        type_ref,
        min_occurs,
        max_occurs,
        doc,
        inline_simple_type,
        inline_complex_type,
    } = elem;
    match inline_complex_type {
        None => {
            let r = ElementDef {
                name,
                type_ref,
                min_occurs,
                max_occurs,
                doc,
                inline_simple_type,
                inline_complex_type: None,
            };
            assert(element_view(r) =~= element_view(elem));
            r
        },
        Some(boxed) => {
            let ComplexTypeDef {
                name: bname,
                members,
                attributes,
                attribute_group_refs,
                base_type,
                simple_content,
                doc: bdoc,
            } = *boxed;
            let ghost bv = complex_view(*boxed);
            let bn = match &base_type {
                Some(t) => Some(norm_type_name(t.as_str())),
                None => None,
            };
            let ghost s = hstate(*old(out), *old(used));
            let new_name = pick_name_exec(bname.as_str(), used, &bn);
            assert(new_name@ == lifted_name(bv, s.used));
            add_used_exec(used, new_name.as_str());
            let ms = hoist_in_members(members, out, used);
            let lifted = ComplexTypeDef {
                name: new_name.clone(),
                members: ms,
                attributes,
                attribute_group_refs,
                base_type,
                simple_content,
                doc: bdoc,
            };
            let ghost before_out = out@;
            let ghost lv = complex_view(lifted);
            out.push(lifted);
            assert(cts_view(out@) =~= cts_view(before_out).push(lv));
            let r = ElementDef {
                name,
                type_ref: Some(new_name),
                min_occurs,
                max_occurs,
                doc,
                inline_simple_type,
                inline_complex_type: None,
            };
            assert(lv =~= ComplexTypeModel { name: new_name@, members: members_view(ms@), ..bv });
            r
        },
    }
}

fn hoist_in_elements(es: Vec<ElementDef>, out: &mut Vec<ComplexTypeDef>, used: &mut Vec<String>) -> (r:
    Vec<ElementDef>)
    ensures
        (elements_view(r@), hstate(*final(out), *final(used))) == hoist_elements(
            elements_view(es@),
            hstate(*old(out), *old(used)),
        ),
    decreases es,
{
    let ghost ev = elements_view(es@);
    proof {
        crate::types::lemma_elements_view_len(es@);
    }
    let len = es.len();
    let mut rest = es;
    let mut res: Vec<ElementDef> = Vec::new();
    let ghost n = es@.len();
    assert(n == len);
    let mut i: usize = 0;
    while rest.len() > 0
        invariant
            n == es@.len(),
            n == len,
            ev == elements_view(es@),
            ev.len() == n,
            forall|j: int| 0 <= j < n ==> #[trigger] ev[j] == element_view(es@[j]),
            i <= n,
            rest@ == es@.subrange(i as int, n as int),
            (elements_view(res@), hstate(*out, *used)) == hoist_elements(
                ev.subrange(0, i as int),
                hstate(*old(out), *old(used)),
            ),
        decreases rest.len(),
    {
        assert(rest@.len() == n - i);
        let e = rest.remove(0);
        assert(e == es@[i as int]);
        assert(ev.subrange(0, i + 1).drop_last() =~= ev.subrange(0, i as int));
        let ghost before = res@;
        let e2 = hoist_in_element(e, out, used);
        res.push(e2);
        proof {
            lemma_elements_view_push(before, e2);
        }
        i = i + 1;
        assert(rest@ =~= es@.subrange(i as int, n as int));
    }
    assert(ev.subrange(0, i as int) =~= ev);
    res
}

fn hoist_in_member(m: SequenceMember, out: &mut Vec<ComplexTypeDef>, used: &mut Vec<String>) -> (r:
    SequenceMember)
    ensures
        (member_view(r), hstate(*final(out), *final(used))) == hoist_member(
            member_view(m),
            hstate(*old(out), *old(used)),
        ),
    decreases m,
{
    match m {
        SequenceMember::Element(b) => SequenceMember::Element(Box::new(hoist_in_element(*b, out, used))),
        SequenceMember::Choice(c) => {
            let ChoiceGroup { min_occurs, max_occurs, composite, elements } = c;
            let es = hoist_in_elements(elements, out, used);
            SequenceMember::Choice(ChoiceGroup { min_occurs, max_occurs, composite, elements: es })
        },
        SequenceMember::GroupRef { name, min_occurs } => SequenceMember::GroupRef { name, min_occurs },
    }
}

fn hoist_in_members(ms: Vec<SequenceMember>, out: &mut Vec<ComplexTypeDef>, used: &mut Vec<String>) -> (r:
    Vec<SequenceMember>)
    ensures
        (members_view(r@), hstate(*final(out), *final(used))) == hoist_members(
            members_view(ms@),
            hstate(*old(out), *old(used)),
        ),
    decreases ms,
{
    let ghost mv = members_view(ms@);
    proof {
        crate::types::lemma_members_view_len(ms@);
    }
    let len = ms.len();
    let mut rest = ms;
    let mut res: Vec<SequenceMember> = Vec::new();
    let ghost n = ms@.len();
    assert(n == len);
    let mut i: usize = 0;
    while rest.len() > 0
        invariant
            n == ms@.len(),
            n == len,
            mv == members_view(ms@),
            mv.len() == n,
            forall|j: int| 0 <= j < n ==> #[trigger] mv[j] == member_view(ms@[j]),
            i <= n,
            rest@ == ms@.subrange(i as int, n as int),
            (members_view(res@), hstate(*out, *used)) == hoist_members(
                mv.subrange(0, i as int),
                hstate(*old(out), *old(used)),
            ),
        decreases rest.len(),
    {
        assert(rest@.len() == n - i);
        let m = rest.remove(0);
        assert(m == ms@[i as int]);
        assert(mv.subrange(0, i + 1).drop_last() =~= mv.subrange(0, i as int));
        let ghost before = res@;
        let m2 = hoist_in_member(m, out, used);
        res.push(m2);
        proof {
            lemma_members_view_push(before, m2);
        }
        i = i + 1;
        assert(rest@ =~= ms@.subrange(i as int, n as int));
    }
    assert(mv.subrange(0, i as int) =~= mv);
    res
}

fn initial_used_exec(x: &XsdFile) -> (r: Vec<String>)
    ensures
        texts(r@) == initial_used(xsd_view(*x)),
{
    let ghost xv = xsd_view(*x);
    let mut used: Vec<String> = Vec::new();
    let ghost cn = xv.complex_types.map_values(|c: ComplexTypeModel| c.name);
    let mut i: usize = 0;
    assert(texts(used@) =~= Seq::<Text>::empty());
    while i < x.complex_types.len()
        invariant
            xv == xsd_view(*x),
            cn == xv.complex_types.map_values(|c: ComplexTypeModel| c.name),
            i <= x.complex_types@.len(),
            texts(used@) == add_all_used(Seq::empty(), cn.subrange(0, i as int)),
        decreases x.complex_types.len() - i,
    {
        assert(cn.subrange(0, i + 1).drop_last() =~= cn.subrange(0, i as int));
        assert(cn[i as int] == x.complex_types@[i as int].name@);
        add_used_exec(&mut used, x.complex_types[i].name.as_str());
        i = i + 1;
    }
    assert(cn.subrange(0, i as int) =~= cn);
    let ghost a = texts(used@);
    let ghost sn = xv.simple_types.map_values(|st: SimpleTypeModel| st.name);
    let mut i: usize = 0;
    while i < x.simple_types.len()
        invariant
            xv == xsd_view(*x),
            sn == xv.simple_types.map_values(|st: SimpleTypeModel| st.name),
            i <= x.simple_types@.len(),
            texts(used@) == add_all_used(a, sn.subrange(0, i as int)),
        decreases x.simple_types.len() - i,
    {
        assert(sn.subrange(0, i + 1).drop_last() =~= sn.subrange(0, i as int));
        assert(sn[i as int] == x.simple_types@[i as int].name@);
        add_used_exec(&mut used, x.simple_types[i].name.as_str());
        i = i + 1;
    }
    assert(sn.subrange(0, i as int) =~= sn);
    let ghost b = texts(used@);
    let ghost es = xv.elements;
    let mut i: usize = 0;
    while i < x.elements.len()
        invariant
            xv == xsd_view(*x),
            es == xv.elements,
            i <= x.elements@.len(),
            texts(used@) == add_all_used(b, element_type_names(es.subrange(0, i as int))),
        decreases x.elements.len() - i,
    {
        assert(es.subrange(0, i + 1).drop_last() =~= es.subrange(0, i as int));
        assert(es[i as int] == top_level_view(x.elements@[i as int]));
        let ghost prev = element_type_names(es.subrange(0, i as int));
        if let Some(ct) = &x.elements[i].complex_type {
            assert(element_type_names(es.subrange(0, i + 1)) =~= prev.push(ct.name@));
            assert(prev.push(ct.name@).drop_last() =~= prev);
            add_used_exec(&mut used, ct.name.as_str());
        } else {
            assert(element_type_names(es.subrange(0, i + 1)) =~= prev);
        }
        i = i + 1;
    }
    assert(es.subrange(0, i as int) =~= es);
    used
}

fn hoist_complex_vec(
    cts: Vec<ComplexTypeDef>,
    out: &mut Vec<ComplexTypeDef>,
    used: &mut Vec<String>,
) -> (r: Vec<ComplexTypeDef>)
    ensures
        (cts_view(r@), hstate(*final(out), *final(used))) == hoist_complex_list(
            cts_view(cts@),
            hstate(*old(out), *old(used)),
        ),
{
    let ghost cv = cts_view(cts@);
    let len = cts.len();
    let mut rest = cts;
    let mut res: Vec<ComplexTypeDef> = Vec::new();
    let ghost n = cts@.len();
    let mut i: usize = 0;
    assert(cts_view(res@) =~= Seq::<ComplexTypeModel>::empty());
    while rest.len() > 0
        invariant
            n == cts@.len(),
            n == len,
            cv == cts_view(cts@),
            i <= n,
            rest@ == cts@.subrange(i as int, n as int),
            (cts_view(res@), hstate(*out, *used)) == hoist_complex_list(
                cv.subrange(0, i as int),
                hstate(*old(out), *old(used)),
            ),
        decreases rest.len(),
    {
        assert(rest@.len() == n - i);
        let c = rest.remove(0);
        assert(c == cts@[i as int]);
        assert(cv.subrange(0, i + 1).drop_last() =~= cv.subrange(0, i as int));
        let ghost c0 = complex_view(c);
        let ComplexTypeDef {
            name,
            members,
            attributes,
            attribute_group_refs,
            base_type,
            simple_content,
            doc,
        } = c;
        let ms = hoist_in_members(members, out, used);
        let c2 = ComplexTypeDef {
            name,
            members: ms,
            attributes,
            attribute_group_refs,
            base_type,
            simple_content,
            doc,
        };
        let ghost before = res@;
        res.push(c2);
        assert(cts_view(res@) =~= cts_view(before).push(complex_view(c2)));
        assert(complex_view(c2) =~= ComplexTypeModel { members: members_view(ms@), ..c0 });
        i = i + 1;
        assert(rest@ =~= cts@.subrange(i as int, n as int));
    }
    assert(cv.subrange(0, i as int) =~= cv);
    res
}

pub open spec fn tops_view(v: Seq<TopLevelElement>) -> Seq<TopLevelModel> {
    v.map_values(|e: TopLevelElement| top_level_view(e))
}

fn hoist_top_vec(
    es: Vec<TopLevelElement>,
    out: &mut Vec<ComplexTypeDef>,
    used: &mut Vec<String>,
) -> (r: Vec<TopLevelElement>)
    ensures
        (tops_view(r@), hstate(*final(out), *final(used))) == hoist_top_elements(
            tops_view(es@),
            hstate(*old(out), *old(used)),
        ),
{
    let ghost ev = tops_view(es@);
    let len = es.len();
    let mut rest = es;
    let mut res: Vec<TopLevelElement> = Vec::new();
    let ghost n = es@.len();
    let mut i: usize = 0;
    assert(tops_view(res@) =~= Seq::<TopLevelModel>::empty());
    while rest.len() > 0
        invariant
            n == es@.len(),
            n == len,
            ev == tops_view(es@),
            i <= n,
            rest@ == es@.subrange(i as int, n as int),
            (tops_view(res@), hstate(*out, *used)) == hoist_top_elements(
                ev.subrange(0, i as int),
                hstate(*old(out), *old(used)),
            ),
        decreases rest.len(),
    {
        assert(rest@.len() == n - i);
        let e = rest.remove(0);
        assert(e == es@[i as int]);
        assert(ev.subrange(0, i + 1).drop_last() =~= ev.subrange(0, i as int));
        let ghost e0 = top_level_view(e);
        let TopLevelElement { name, type_ref, complex_type } = e;
        let ghost before = res@;
        match complex_type {
            Some(c) => {
                let ghost c0 = complex_view(c);
                let ComplexTypeDef {
                    name: cname,
                    members,
                    attributes,
                    attribute_group_refs,
                    base_type,
                    simple_content,
                    doc,
                } = c;
                let ms = hoist_in_members(members, out, used);
                let c2 = ComplexTypeDef {
                    name: cname,
                    members: ms,
                    attributes,
                    attribute_group_refs,
                    base_type,
                    simple_content,
                    doc,
                };
                assert(complex_view(c2) =~= ComplexTypeModel { members: members_view(ms@), ..c0 });
                let e2 = TopLevelElement { name, type_ref, complex_type: Some(c2) };
                res.push(e2);
                assert(tops_view(res@) =~= tops_view(before).push(top_level_view(e2)));
            },
            None => {
                let e2 = TopLevelElement { name, type_ref, complex_type: None };
                res.push(e2);
                assert(tops_view(res@) =~= tops_view(before).push(top_level_view(e2)));
            },
        }
        i = i + 1;
        assert(rest@ =~= es@.subrange(i as int, n as int));
    }
    assert(ev.subrange(0, i as int) =~= ev);
    res
}

pub open spec fn groups_view(v: Seq<ModelGroupDef>) -> Seq<ModelGroupModel> {
    v.map_values(|g: ModelGroupDef| model_group_view(g))
}

fn hoist_group_vec(
    gs: Vec<ModelGroupDef>,
    out: &mut Vec<ComplexTypeDef>,
    used: &mut Vec<String>,
) -> (r: Vec<ModelGroupDef>)
    ensures
        (groups_view(r@), hstate(*final(out), *final(used))) == hoist_groups(
            groups_view(gs@),
            hstate(*old(out), *old(used)),
        ),
{
    let ghost gv = groups_view(gs@);
    let len = gs.len();
    let mut rest = gs;
    let mut res: Vec<ModelGroupDef> = Vec::new();
    let ghost n = gs@.len();
    let mut i: usize = 0;
    assert(groups_view(res@) =~= Seq::<ModelGroupModel>::empty());
    while rest.len() > 0
        invariant
            n == gs@.len(),
            n == len,
            gv == groups_view(gs@),
            i <= n,
            rest@ == gs@.subrange(i as int, n as int),
            (groups_view(res@), hstate(*out, *used)) == hoist_groups(
                gv.subrange(0, i as int),
                hstate(*old(out), *old(used)),
            ),
        decreases rest.len(),
    {
        assert(rest@.len() == n - i);
        let g = rest.remove(0);
        assert(g == gs@[i as int]);
        assert(gv.subrange(0, i + 1).drop_last() =~= gv.subrange(0, i as int));
        let ModelGroupDef { name, members } = g;
        let ms = hoist_in_members(members, out, used);
        let g2 = ModelGroupDef { name, members: ms };
        let ghost before = res@;
        res.push(g2);
        assert(groups_view(res@) =~= groups_view(before).push(model_group_view(g2)));
        i = i + 1;
        assert(rest@ =~= gs@.subrange(i as int, n as int));
    }
    assert(gv.subrange(0, i as int) =~= gv);
    res
}

/// Lifts every anonymous inline `<xsd:complexType>` (parsed onto an element)
/// into a named entry appended to `complex_types`, rewriting the element's
/// type reference to it. Names are `{Element}Type`, suffixed (`Type2`, ...)
/// on collision with a name in use or with the type's own base.
pub fn hoist_inline_complex_types(xsd: XsdFile) -> (r: XsdFile)
    ensures
        xsd_view(r) == hoisted(xsd_view(xsd)),
{
    let ghost x = xsd_view(xsd);
    let mut used = initial_used_exec(&xsd);
    let mut out: Vec<ComplexTypeDef> = Vec::new();
    let XsdFile {
        path,
        simple_types,
        complex_types,
        elements,
        attribute_groups,
        model_groups,
        includes,
    } = xsd;
    assert(cts_view(out@) =~= Seq::<ComplexTypeModel>::empty());
    let mut cts = hoist_complex_vec(complex_types, &mut out, &mut used);
    let es = hoist_top_vec(elements, &mut out, &mut used);
    let gs = hoist_group_vec(model_groups, &mut out, &mut used);
    let ghost cts_before = cts@;
    let ghost out_before = out@;
    cts.append(&mut out);
    assert(cts_view(cts@) =~= cts_view(cts_before) + cts_view(out_before));
    let r = XsdFile {
        path,
        simple_types,
        complex_types: cts,
        elements: es,
        attribute_groups,
        model_groups: gs,
        includes,
    };
    assert(xsd_view(r) =~= hoisted(x));
    r
}

} // verus!
