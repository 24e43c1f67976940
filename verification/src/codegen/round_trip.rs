//! What the emitted serde impls of an enumeration type read and write.
use vstd::prelude::*;

use super::util::variant_name;
use crate::types::{SimpleTypeModel, Text};

verus! {

/// What the emitted `Serialize` impl writes for the variant named `v`: the
/// value of the first arm of `serialize_arms` for that variant.
pub open spec fn serialized_value(es: Seq<(Text, Option<Text>)>, v: Text) -> Option<Text>
    decreases es.len(),
{
    if es.len() == 0 {
        None
    } else if variant_name(es[0].0) == v {
        Some(es[0].0)
    } else {
        serialized_value(es.drop_first(), v)
    }
}

/// What the emitted `Deserialize` impl reads from the string `s`: the
/// variant of the first arm of `deserialize_arms` whose value is `s`, or
/// `None` where the catch-all arm rejects it.
pub open spec fn deserialized_variant(es: Seq<(Text, Option<Text>)>, s: Text) -> Option<Text>
    decreases es.len(),
{
    if es.len() == 0 {
        None
    } else if es[0].0 == s {
        Some(variant_name(es[0].0))
    } else {
        deserialized_variant(es.drop_first(), s)
    }
}

pub open spec fn distinct_variants(es: Seq<(Text, Option<Text>)>) -> bool {
    forall|a: int, b: int| 0 <= a < b < es.len() ==> variant_name(#[trigger] es[a].0) != variant_name(#[trigger] es[b].0)
}

proof fn lemma_serialized_value(es: Seq<(Text, Option<Text>)>, i: int)
    requires
        0 <= i < es.len(),
        distinct_variants(es),
    ensures
        serialized_value(es, variant_name(es[i].0)) == Some(es[i].0),
    decreases es.len(),
{
    if i > 0 {
        let rest = es.drop_first();
        assert(variant_name(es[0].0) != variant_name(es[i].0));
        assert(rest[i - 1] == es[i]);
        assert forall|a: int, b: int| 0 <= a < b < rest.len() implies variant_name(#[trigger] rest[a].0)
            != variant_name(#[trigger] rest[b].0) by {
            assert(rest[a] == es[a + 1] && rest[b] == es[b + 1]);
        }
        lemma_serialized_value(rest, i - 1);
    }
}

proof fn lemma_deserialized_variant(es: Seq<(Text, Option<Text>)>, i: int)
    requires
        0 <= i < es.len(),
    ensures
        deserialized_variant(es, es[i].0) == Some(variant_name(es[i].0)),
    decreases es.len(),
{
    if i > 0 && es[0].0 != es[i].0 {
        assert(es.drop_first()[i - 1] == es[i]);
        lemma_deserialized_variant(es.drop_first(), i - 1);
    }
}

/// Round trip of an enumeration type: when the variants' names are
/// distinct, each variant serializes to its own XSD value, and that value
/// deserializes back to the same variant.
pub proof fn lemma_enum_round_trip(st: SimpleTypeModel, i: int)
    requires
        0 <= i < st.enumerations.len(),
        distinct_variants(st.enumerations),
    ensures
        serialized_value(st.enumerations, variant_name(st.enumerations[i].0)) == Some(st.enumerations[i].0),
        deserialized_variant(st.enumerations, st.enumerations[i].0) == Some(variant_name(st.enumerations[i].0)),
{
    lemma_serialized_value(st.enumerations, i);
    lemma_deserialized_variant(st.enumerations, i);
}

} // verus!
