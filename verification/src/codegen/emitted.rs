//! What the text emitted for enumerations and unions holds, stated over
//! the schema's values.
use vstd::prelude::*;

use super::emit::{
    allowed_lines, debug_str, deserialize_arms, enum_type_text, member_values, serialize_arms,
    union_text, union_values,
};
use super::util::{sanitized, variant_name};
use super::GenCtx;
use crate::types::{SimpleTypeModel, Text};
use vstd::seq_lib::lemma_concat_associative;

verus! {

/// `t` occurs in `s`.
pub open spec fn occurs(s: Text, t: Text) -> bool {
    exists|p: int| 0 <= p && p + t.len() <= s.len() && #[trigger] s.subrange(p, p + t.len()) == t
}

/// What occurs in a piece of a concatenation occurs in the whole.
proof fn lemma_occurs_concat(t: Text)
    ensures
        forall|x: Text, y: Text| #![trigger x + y] occurs(x, t) ==> occurs(x + y, t),
        forall|x: Text, y: Text| #![trigger x + y] occurs(y, t) ==> occurs(x + y, t),
{
    assert forall|x: Text, y: Text| #![trigger x + y] occurs(x, t) implies occurs(x + y, t) by {
        let p = choose|p: int| 0 <= p && p + t.len() <= x.len() && #[trigger] x.subrange(p, p + t.len()) == t;
        assert((x + y).subrange(p, p + t.len()) =~= x.subrange(p, p + t.len()));
    }
    assert forall|x: Text, y: Text| #![trigger x + y] occurs(y, t) implies occurs(x + y, t) by {
        let p = choose|p: int| 0 <= p && p + t.len() <= y.len() && #[trigger] y.subrange(p, p + t.len()) == t;
        let q = x.len() + p;
        assert((x + y).subrange(q, q + t.len()) =~= y.subrange(p, p + t.len()));
    }
}

proof fn lemma_occurs_self(t: Text)
    ensures
        occurs(t, t),
{
    let p: int = 0;
    assert(t.subrange(p, p + t.len()) =~= t);
}

proof fn lemma_occurs_right(x: Text, y: Text, t: Text)
    requires
        occurs(y, t),
    ensures
        occurs(x + y, t),
{
    let p = choose|p: int| 0 <= p && p + t.len() <= y.len() && #[trigger] y.subrange(p, p + t.len()) == t;
    let q = x.len() + p;
    assert((x + y).subrange(q, q + t.len()) =~= y.subrange(p, p + t.len()));
}

proof fn lemma_occurs_tail7(p: Text, a: Text, b: Text, c: Text, d: Text, e: Text, f: Text, g: Text)
    ensures
        occurs(p + a + b + c + d + e + f + g, a + b + c + d + e + f + g),
{
    let t = a + b + c + d + e + f + g;
    lemma_concat_associative(p, a, b);
    lemma_concat_associative(p, a + b, c);
    lemma_concat_associative(p, a + b + c, d);
    lemma_concat_associative(p, a + b + c + d, e);
    lemma_concat_associative(p, a + b + c + d + e, f);
    lemma_concat_associative(p, a + b + c + d + e + f, g);
    lemma_occurs_self(t);
    lemma_occurs_right(p, t, t);
}

proof fn lemma_occurs_tail3(p: Text, a: Text, b: Text, c: Text)
    ensures
        occurs(p + a + b + c, a + b + c),
{
    let t = a + b + c;
    lemma_concat_associative(p, a, b);
    lemma_concat_associative(p, a + b, c);
    lemma_occurs_self(t);
    lemma_occurs_right(p, t, t);
}

proof fn lemma_serialize_arm(es: Seq<(Text, Option<Text>)>, tn: Text, i: int)
    requires
        0 <= i < es.len(),
    ensures
        occurs(
            serialize_arms(es, tn),
            "            "@ + tn + "::"@ + variant_name(es[i].0) + " => \""@ + es[i].0 + "\",\n"@,
        ),
    decreases es.len(),
{
    let arm = "            "@ + tn + "::"@ + variant_name(es[i].0) + " => \""@ + es[i].0 + "\",\n"@;
    let prev = serialize_arms(es.drop_last(), tn);
    if i == es.len() - 1 {
        lemma_occurs_tail7(prev, "            "@, tn, "::"@, variant_name(es[i].0), " => \""@, es[i].0, "\",\n"@);
    } else {
        assert(es.drop_last()[i] == es[i]);
        lemma_serialize_arm(es.drop_last(), tn, i);
        lemma_occurs_concat(arm);
    }
}

proof fn lemma_deserialize_arm(es: Seq<(Text, Option<Text>)>, tn: Text, i: int)
    requires
        0 <= i < es.len(),
    ensures
        occurs(
            deserialize_arms(es, tn),
            "            \""@ + es[i].0 + "\" => Ok("@ + tn + "::"@ + variant_name(es[i].0) + "),\n"@,
        ),
    decreases es.len(),
{
    let arm = "            \""@ + es[i].0 + "\" => Ok("@ + tn + "::"@ + variant_name(es[i].0) + "),\n"@;
    let prev = deserialize_arms(es.drop_last(), tn);
    if i == es.len() - 1 {
        lemma_occurs_tail7(prev, "            \""@, es[i].0, "\" => Ok("@, tn, "::"@, variant_name(es[i].0), "),\n"@);
    } else {
        assert(es.drop_last()[i] == es[i]);
        lemma_deserialize_arm(es.drop_last(), tn, i);
        lemma_occurs_concat(arm);
    }
}

/// For every enumeration value `v` of an enumeration type `T`, the emitted
/// `Serialize` impl has the arm `T::V => "v"` and the emitted `Deserialize`
/// impl the arm `"v" => Ok(T::V)`, where `V` is the variant named after
/// `v`: the variant is written as the schema's own value, and that value
/// is read back as the same variant.
pub proof fn lemma_enum_arms(st: SimpleTypeModel, i: int)
    requires
        0 <= i < st.enumerations.len(),
    ensures
        ({
            let tn = sanitized(st.name);
            let v = st.enumerations[i].0;
            &&& occurs(enum_type_text(st), "            "@ + tn + "::"@ + variant_name(v) + " => \""@ + v + "\",\n"@)
            &&& occurs(enum_type_text(st), "            \""@ + v + "\" => Ok("@ + tn + "::"@ + variant_name(v) + "),\n"@)
        }),
{
    let tn = sanitized(st.name);
    let v = st.enumerations[i].0;
    let sa = "            "@ + tn + "::"@ + variant_name(v) + " => \""@ + v + "\",\n"@;
    let da = "            \""@ + v + "\" => Ok("@ + tn + "::"@ + variant_name(v) + "),\n"@;
    lemma_serialize_arm(st.enumerations, tn, i);
    lemma_deserialize_arm(st.enumerations, tn, i);
    lemma_occurs_concat(sa);
    lemma_occurs_concat(da);
    assert(occurs(enum_type_text(st), sa));
    assert(occurs(enum_type_text(st), da));
}

// ---------------------------------------------------------------------------
// Unions
// ---------------------------------------------------------------------------

/// Every member type is a known enumeration.
pub open spec fn members_known(ctx: GenCtx, ms: Seq<Text>) -> bool {
    forall|k: int| 0 <= k < ms.len() ==> ctx.enums.contains_key(#[trigger] ms[k])
}

/// `v` is a value of one of the member types `ms`.
pub open spec fn member_value(ctx: GenCtx, ms: Seq<Text>, v: Text) -> bool {
    exists|k: int, j: int| 0 <= k < ms.len() && 0 <= j < ctx.enums[ms[k]].len() && #[trigger] ctx.enums[ms[k]][j] == v
}

/// `v` is one of the type's own enumeration values.
pub open spec fn own_value(st: SimpleTypeModel, v: Text) -> bool {
    exists|i: int| 0 <= i < st.enumerations.len() && #[trigger] st.enumerations[i].0 == v
}

proof fn lemma_member_values(ctx: GenCtx, ms: Seq<Text>)
    ensures
        member_values(ctx, ms) is Some <==> members_known(ctx, ms),
        member_values(ctx, ms) matches Some(vs) ==> {
            &&& forall|k: int, j: int|
                #![trigger ctx.enums[ms[k]][j]]
                0 <= k < ms.len() && 0 <= j < ctx.enums[ms[k]].len() ==> vs.contains(ctx.enums[ms[k]][j])
            &&& forall|p: int| 0 <= p < vs.len() ==> member_value(ctx, ms, #[trigger] vs[p])
        },
    decreases ms.len(),
{
    if ms.len() > 0 {
        let init = ms.drop_last();
        let m = ms.last();
        lemma_member_values(ctx, init);
        assert forall|k: int| 0 <= k < init.len() implies #[trigger] init[k] == ms[k] by {}
        if members_known(ctx, ms) {
            assert(ctx.enums.contains_key(ms[ms.len() - 1]));
            assert(members_known(ctx, init));
            let vs0 = member_values(ctx, init)->0;
            let e = ctx.enums[m];
            let vs = vs0 + e;
            assert(member_values(ctx, ms) == Some(vs));
            assert forall|k: int, j: int|
                #![trigger ctx.enums[ms[k]][j]]
                0 <= k < ms.len() && 0 <= j < ctx.enums[ms[k]].len() implies vs.contains(ctx.enums[ms[k]][j]) by {
                if k < init.len() {
                    assert(init[k] == ms[k]);
                    assert(vs0.contains(ctx.enums[init[k]][j]));
                    let p = choose|p: int| 0 <= p < vs0.len() && vs0[p] == ctx.enums[init[k]][j];
                    assert(vs[p] == vs0[p]);
                } else {
                    assert(vs[vs0.len() + j] == e[j]);
                }
            }
            assert forall|p: int| 0 <= p < vs.len() implies member_value(ctx, ms, #[trigger] vs[p]) by {
                if p < vs0.len() {
                    assert(vs[p] == vs0[p]);
                    assert(member_value(ctx, init, vs0[p]));
                    let (k, j) = choose|k: int, j: int|
                        0 <= k < init.len() && 0 <= j < ctx.enums[init[k]].len() && #[trigger] ctx.enums[init[k]][j] == vs0[p];
                    assert(init[k] == ms[k]);
                    assert(ctx.enums[ms[k]][j] == vs[p]);
                } else {
                    let k = ms.len() - 1;
                    let j = p - vs0.len();
                    assert(ms[k] == m);
                    assert(ctx.enums[ms[k]][j] == vs[p]);
                }
            }
        } else {
            let k = choose|k: int| 0 <= k < ms.len() && !ctx.enums.contains_key(#[trigger] ms[k]);
            if k < init.len() {
                assert(init[k] == ms[k]);
                assert(!members_known(ctx, init));
            } else {
                assert(!ctx.enums.contains_key(m));
            }
        }
    }
}

/// The values of the member types `ms`, one type after another.
pub open spec fn member_enums(ctx: GenCtx, ms: Seq<Text>) -> Seq<Seq<Text>> {
    ms.map_values(|m: Text| ctx.enums[m])
}

proof fn lemma_member_values_in_order(ctx: GenCtx, ms: Seq<Text>)
    requires
        members_known(ctx, ms),
    ensures
        member_values(ctx, ms) == Some(member_enums(ctx, ms).flatten()),
    decreases ms.len(),
{
    let es = member_enums(ctx, ms);
    if ms.len() > 0 {
        let init = ms.drop_last();
        assert forall|k: int| 0 <= k < init.len() implies ctx.enums.contains_key(#[trigger] init[k]) by {
            assert(init[k] == ms[k]);
        }
        lemma_member_values_in_order(ctx, init);
        assert(member_enums(ctx, init) =~= es.drop_last());
        es.lemma_flatten_and_flatten_alt_are_equivalent();
        es.drop_last().lemma_flatten_and_flatten_alt_are_equivalent();
        assert(ctx.enums.contains_key(ms[ms.len() - 1]));
        assert(es.last() == ctx.enums[ms.last()]);
    } else {
        assert(es =~= Seq::<Seq<Text>>::empty());
    }
}

/// The values a union accepts. When the union has member types and every
/// one of them is a known enumeration, its value set is the union's own
/// enumeration values followed by the values of each member type, member
/// by member in the order written (none when that is empty): it holds
/// every such value and nothing else. When some member type is not a known
/// enumeration, or there are no member types, no value set is given.
pub proof fn lemma_union_values(ctx: GenCtx, st: SimpleTypeModel)
    ensures
        (st.member_types.len() == 0 || !members_known(ctx, st.member_types)) ==> union_values(ctx, st) is None,
        union_values(ctx, st) matches Some(vs) ==> {
            &&& forall|i: int| 0 <= i < st.enumerations.len() ==> vs.contains(#[trigger] st.enumerations[i].0)
            &&& forall|k: int, j: int|
                #![trigger ctx.enums[st.member_types[k]][j]]
                0 <= k < st.member_types.len() && 0 <= j < ctx.enums[st.member_types[k]].len()
                    ==> vs.contains(ctx.enums[st.member_types[k]][j])
            &&& forall|p: int|
                0 <= p < vs.len() ==> own_value(st, #[trigger] vs[p]) || member_value(ctx, st.member_types, vs[p])
        },
        st.member_types.len() > 0 && members_known(ctx, st.member_types) ==> {
            let all = st.enumerations.map_values(|e: (Text, Option<Text>)| e.0) + member_enums(
                ctx,
                st.member_types,
            ).flatten();
            union_values(ctx, st) == if all.len() == 0 {
                None
            } else {
                Some(all)
            }
        },
        st.member_types.len() > 0 && members_known(ctx, st.member_types) && (st.enumerations.len() > 0 || exists|
            k: int,
        | 0 <= k < st.member_types.len() && #[trigger] ctx.enums[st.member_types[k]].len() > 0) ==> union_values(ctx, st) is Some,
{
    let ms = st.member_types;
    lemma_member_values(ctx, ms);
    if ms.len() > 0 && members_known(ctx, ms) {
        lemma_member_values_in_order(ctx, ms);
        let own = st.enumerations.map_values(|e: (Text, Option<Text>)| e.0);
        let mv = member_values(ctx, ms)->0;
        let vs = own + mv;
        assert forall|i: int| 0 <= i < st.enumerations.len() implies vs.contains(#[trigger] st.enumerations[i].0) by {
            assert(vs[i] == own[i]);
        }
        assert forall|k: int, j: int|
            #![trigger ctx.enums[ms[k]][j]]
            0 <= k < ms.len() && 0 <= j < ctx.enums[ms[k]].len() implies vs.contains(ctx.enums[ms[k]][j]) by {
            assert(mv.contains(ctx.enums[ms[k]][j]));
            let p = choose|p: int| 0 <= p < mv.len() && mv[p] == ctx.enums[ms[k]][j];
            assert(vs[own.len() + p] == mv[p]);
        }
        assert forall|p: int| 0 <= p < vs.len() implies own_value(st, #[trigger] vs[p]) || member_value(ctx, ms, vs[p]) by {
            if p < own.len() {
                assert(st.enumerations[p].0 == vs[p]);
            } else {
                assert(vs[p] == mv[p - own.len()]);
                assert(member_value(ctx, ms, mv[p - own.len()]));
            }
        }
        if st.enumerations.len() == 0 {
            if exists|k: int| 0 <= k < ms.len() && #[trigger] ctx.enums[ms[k]].len() > 0 {
                let k = choose|k: int| 0 <= k < ms.len() && #[trigger] ctx.enums[ms[k]].len() > 0;
                assert(mv.contains(ctx.enums[ms[k]][0]));
            }
        }
    }
}

proof fn lemma_allowed_line(vs: Seq<Text>, i: int)
    requires
        0 <= i < vs.len(),
    ensures
        occurs(allowed_lines(vs), "        "@ + debug_str(vs[i]) + ",\n"@),
    decreases vs.len(),
{
    let line = "        "@ + debug_str(vs[i]) + ",\n"@;
    let prev = allowed_lines(vs.drop_last());
    if i == vs.len() - 1 {
        lemma_occurs_tail3(prev, "        "@, debug_str(vs[i]), ",\n"@);
    } else {
        assert(vs.drop_last()[i] == vs[i]);
        lemma_allowed_line(vs.drop_last(), i);
        lemma_occurs_concat(line);
    }
}

/// A union with a value set lists every one of its values, quoted, in its
/// `ALLOWED` table.
pub proof fn lemma_union_allowed(ctx: GenCtx, st: SimpleTypeModel, i: int)
    requires
        union_values(ctx, st) is Some,
        0 <= i < union_values(ctx, st)->0.len(),
    ensures
        occurs(union_text(ctx, st), "        "@ + debug_str(union_values(ctx, st)->0[i]) + ",\n"@),
{
    let vs = union_values(ctx, st)->0;
    let line = "        "@ + debug_str(vs[i]) + ",\n"@;
    lemma_allowed_line(vs, i);
    lemma_occurs_concat(line);
    assert(occurs(union_text(ctx, st), line));
}

} // verus!
