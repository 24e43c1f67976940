//! What each restriction facet does to a simple type.
use vstd::prelude::*;

use super::spec::{facet_apply, simple_step, SimpleState};
use super::xml::{attr_spec, local_name_spec, EventModel, TagModel};
use crate::text::parse_u64_spec;
use crate::types::{SimpleTypeModel, Text};

verus! {

/// The tag names a simple type's body is matched against, told apart by
/// their lengths and, where those agree, by one character.
proof fn lemma_tag_names()
    ensures
        "restriction"@.len() == 11,
        "list"@.len() == 4,
        "enumeration"@.len() == 11,
        "pattern"@.len() == 7,
        "minLength"@.len() == 9,
        "maxLength"@.len() == 9,
        "totalDigits"@.len() == 11,
        "fractionDigits"@.len() == 14,
        "minInclusive"@.len() == 12,
        "maxInclusive"@.len() == 12,
        "documentation"@.len() == 13,
        "union"@.len() == 5,
        "restriction"@[0] == 'r' && "enumeration"@[0] == 'e' && "totalDigits"@[0] == 't',
        "minLength"@[1] == 'i' && "maxLength"@[1] == 'a',
        "minInclusive"@[1] == 'i' && "maxInclusive"@[1] == 'a',
{
    reveal_strlit("restriction");
    reveal_strlit("list");
    reveal_strlit("enumeration");
    reveal_strlit("pattern");
    reveal_strlit("minLength");
    reveal_strlit("maxLength");
    reveal_strlit("totalDigits");
    reveal_strlit("fractionDigits");
    reveal_strlit("minInclusive");
    reveal_strlit("maxInclusive");
    reveal_strlit("documentation");
    reveal_strlit("union");
}

/// A facet tag with a `value` sets exactly the field it names: the bounds
/// `minInclusive` and `maxInclusive` are kept as written, the lengths and
/// digit counts as numbers, `pattern` as written, and `enumeration` starts
/// a pending value without touching the type. Every other field, and the
/// pending value (but for `enumeration`), is left as it was.
pub proof fn lemma_facet_values(l: Text, t: TagModel, st: SimpleTypeModel, cur: Option<Text>, x: Text)
    requires
        attr_spec(t, "value"@) == Some(x),
    ensures
        l == "minInclusive"@ ==> facet_apply(l, t, st, cur) == (SimpleTypeModel { min_inclusive: Some(x), ..st }, cur),
        l == "maxInclusive"@ ==> facet_apply(l, t, st, cur) == (SimpleTypeModel { max_inclusive: Some(x), ..st }, cur),
        l == "pattern"@ ==> facet_apply(l, t, st, cur) == (SimpleTypeModel { pattern: Some(x), ..st }, cur),
        l == "minLength"@ ==> facet_apply(l, t, st, cur) == (SimpleTypeModel { min_length: parse_u64_spec(x), ..st }, cur),
        l == "maxLength"@ ==> facet_apply(l, t, st, cur) == (SimpleTypeModel { max_length: parse_u64_spec(x), ..st }, cur),
        l == "totalDigits"@ ==> facet_apply(l, t, st, cur) == (SimpleTypeModel { total_digits: parse_u64_spec(x), ..st }, cur),
        l == "fractionDigits"@ ==> facet_apply(l, t, st, cur) == (SimpleTypeModel { fraction_digits: parse_u64_spec(x), ..st }, cur),
        l == "enumeration"@ ==> facet_apply(l, t, st, cur) == (st, Some(x)),
{
    lemma_tag_names();
}

/// A facet tag without a `value` changes nothing; `restriction` takes its
/// `base` (when given) and `list` makes the base `string`.
pub proof fn lemma_facet_without_value(l: Text, t: TagModel, st: SimpleTypeModel, cur: Option<Text>)
    ensures
        attr_spec(t, "value"@) is None && l != "restriction"@ && l != "list"@ ==> facet_apply(l, t, st, cur) == (st, cur),
        l == "restriction"@ ==> facet_apply(l, t, st, cur) == (SimpleTypeModel {
            base: match attr_spec(t, "base"@) {
                Some(b) => b,
                None => st.base,
            },
            ..st
        }, cur),
        l == "list"@ ==> facet_apply(l, t, st, cur) == (SimpleTypeModel { base: "string"@, ..st }, cur),
{
    lemma_tag_names();
}

/// Reading a `<minInclusive value="x"/>` or `<maxInclusive value="x"/>`
/// tag (empty or opening) inside a simple type sets that bound of the type
/// to `x` and leaves the other bound, and every other field, unchanged.
pub proof fn lemma_bound_facet_step(t: TagModel, s: SimpleState, x: Text, start: bool)
    requires
        attr_spec(t, "value"@) == Some(x),
        local_name_spec(t.name) == "minInclusive"@ || local_name_spec(t.name) == "maxInclusive"@,
    ensures
        ({
            let ev = if start {
                EventModel::Start(t)
            } else {
                EventModel::Empty(t)
            };
            let r = simple_step(ev, s).0.st;
            &&& local_name_spec(t.name) == "minInclusive"@ ==> r == SimpleTypeModel { min_inclusive: Some(x), ..s.st }
            &&& local_name_spec(t.name) == "maxInclusive"@ ==> r == SimpleTypeModel { max_inclusive: Some(x), ..s.st }
            &&& !simple_step(ev, s).1
        }),
{
    lemma_tag_names();
    let l = local_name_spec(t.name);
    lemma_facet_values(l, t, s.st, s.cur, x);
}

} // verus!
