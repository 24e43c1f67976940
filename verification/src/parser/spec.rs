//! What the schema parser reads from a stream of XML events, stated as the
//! transitions of the streaming parser: each `*_scan` consumes events from
//! position `i` with the parser's state, and each `*_parse` starts a nested
//! construct whose start tag was just consumed. A parse returns what it built
//! and the position after the construct.
use vstd::prelude::*;

use super::xml::{attr_spec, local_name_spec, EventModel, TagModel};
use crate::text::{local_part, parse_u64_spec, trim};
use crate::types::{
    AttributeGroupModel, ModelGroupModel, XsdModel, AttributeModel, ChoiceModel, ComplexTypeModel, ElementModel, MaxOccurs, MemberModel,
    SimpleTypeModel, Text, TopLevelModel,
};

verus! {

pub type Events = Seq<EventModel>;

/// The position to continue from after a nested parse that returned `j`,
/// when the nested construct started at `i + 1`.
pub open spec fn next_pos(len: int, j: int, i: int) -> int {
    if i < j <= len {
        j
    } else {
        i + 1
    }
}

pub open spec fn text_or_empty(t: Option<Text>) -> Text {
    match t {
        Some(s) => s,
        None => Seq::empty(),
    }
}

// ---------------------------------------------------------------------------
// Attributes of a tag
// ---------------------------------------------------------------------------

/// `minOccurs`, parsed; 1 when absent or not a number.
pub open spec fn min_occurs_of(t: TagModel) -> u64 {
    match attr_spec(t, "minOccurs"@) {
        Some(v) => match parse_u64_spec(v) {
            Some(n) => n,
            None => 1,
        },
        None => 1,
    }
}

/// `maxOccurs`: `unbounded`, a number (1 when not a number), or 1 when absent.
pub open spec fn max_occurs_of(t: TagModel) -> MaxOccurs {
    match attr_spec(t, "maxOccurs"@) {
        Some(v) => if v == "unbounded"@ {
            MaxOccurs::Unbounded
        } else {
            MaxOccurs::Bounded(
                match parse_u64_spec(v) {
                    Some(n) => n,
                    None => 1,
                },
            )
        },
        None => MaxOccurs::Bounded(1),
    }
}

/// An element's name: its `name`, else its `ref` without prefix, else empty.
pub open spec fn element_name_of(t: TagModel) -> Text {
    match attr_spec(t, "name"@) {
        Some(n) => n,
        None => match attr_spec(t, "ref"@) {
            Some(r) => local_part(r),
            None => Seq::empty(),
        },
    }
}

/// An element's type: its `type`, else its `ref` without prefix.
pub open spec fn element_type_of(t: TagModel) -> Option<Text> {
    match attr_spec(t, "type"@) {
        Some(x) => Some(x),
        None => match attr_spec(t, "ref"@) {
            Some(r) => Some(local_part(r)),
            None => None,
        },
    }
}

/// An element declared by `t`, before its content is read.
pub open spec fn element_head(t: TagModel) -> ElementModel {
    ElementModel {
        name: element_name_of(t),
        type_ref: element_type_of(t),
        min_occurs: min_occurs_of(t),
        max_occurs: max_occurs_of(t),
        doc: None,
        inline_simple_type: None,
        inline_complex_type: None,
    }
}

/// An attribute declared by `t`: a missing name is empty, a missing type is
/// `String`, it is required when `use="required"`.
pub open spec fn attribute_of(t: TagModel) -> AttributeModel {
    AttributeModel {
        name: text_or_empty(attr_spec(t, "name"@)),
        type_ref: match attr_spec(t, "type"@) {
            Some(x) => x,
            None => "String"@,
        },
        required: attr_spec(t, "use"@) == Some("required"@),
        fixed: attr_spec(t, "fixed"@),
    }
}

/// A reference `<xsd:group ref>` as a member, when `t` has a `ref`.
pub open spec fn group_ref_of(t: TagModel) -> Option<MemberModel> {
    match attr_spec(t, "ref"@) {
        Some(r) => Some(MemberModel::GroupRef { name: local_part(r), min_occurs: min_occurs_of(t) }),
        None => None,
    }
}

// ---------------------------------------------------------------------------
// Simple types
// ---------------------------------------------------------------------------

pub struct SimpleState {
    pub st: SimpleTypeModel,
    pub depth: int,
    pub cur: Option<Text>,
    pub in_doc: bool,
    pub cur_doc: Option<Text>,
}

pub open spec fn simple_head(name: Text) -> SimpleTypeModel {
    SimpleTypeModel {
        name,
        base: Seq::empty(),
        enumerations: Seq::empty(),
        pattern: None,
        min_length: None,
        max_length: None,
        total_digits: None,
        fraction_digits: None,
        min_inclusive: None,
        max_inclusive: None,
        doc: None,
        is_union: false,
        member_types: Seq::empty(),
    }
}

/// The whitespace-separated `memberTypes` of a union, without prefixes.
pub open spec fn member_types_of(t: TagModel) -> Seq<Text> {
    crate::text::split_ws(text_or_empty(attr_spec(t, "memberTypes"@))).map_values(
        |w: Text| local_part(w),
    )
}

pub open spec fn parsed_u64(t: TagModel, old: Option<u64>) -> Option<u64> {
    match attr_spec(t, "value"@) {
        Some(v) => parse_u64_spec(v),
        None => old,
    }
}

pub open spec fn set_if_value(t: TagModel, old: Option<Text>) -> Option<Text> {
    match attr_spec(t, "value"@) {
        Some(v) => Some(v),
        None => old,
    }
}

/// The effect of a restriction facet (or `list`) tag on a simple type and
/// on the pending enumeration value.
pub open spec fn facet_apply(l: Text, t: TagModel, st: SimpleTypeModel, cur: Option<Text>) -> (
    SimpleTypeModel,
    Option<Text>,
) {
    if l == "restriction"@ {
        (
            SimpleTypeModel {
                base: match attr_spec(t, "base"@) {
                    Some(b) => b,
                    None => st.base,
                },
                ..st
            },
            cur,
        )
    } else if l == "list"@ {
        (SimpleTypeModel { base: "string"@, ..st }, cur)
    } else if l == "enumeration"@ {
        (st, set_if_value(t, cur))
    } else if l == "pattern"@ {
        (SimpleTypeModel { pattern: set_if_value(t, st.pattern), ..st }, cur)
    } else if l == "minLength"@ {
        (SimpleTypeModel { min_length: parsed_u64(t, st.min_length), ..st }, cur)
    } else if l == "maxLength"@ {
        (SimpleTypeModel { max_length: parsed_u64(t, st.max_length), ..st }, cur)
    } else if l == "totalDigits"@ {
        (SimpleTypeModel { total_digits: parsed_u64(t, st.total_digits), ..st }, cur)
    } else if l == "fractionDigits"@ {
        (SimpleTypeModel { fraction_digits: parsed_u64(t, st.fraction_digits), ..st }, cur)
    } else if l == "minInclusive"@ {
        (SimpleTypeModel { min_inclusive: set_if_value(t, st.min_inclusive), ..st }, cur)
    } else if l == "maxInclusive"@ {
        (SimpleTypeModel { max_inclusive: set_if_value(t, st.max_inclusive), ..st }, cur)
    } else {
        (st, cur)
    }
}

pub open spec fn facet(l: Text, t: TagModel, s: SimpleState) -> SimpleState {
    let (st, cur) = facet_apply(l, t, s.st, s.cur);
    SimpleState { st, cur, ..s }
}

pub open spec fn with_union(t: TagModel, s: SimpleState) -> SimpleState {
    SimpleState {
        st: SimpleTypeModel { is_union: true, member_types: member_types_of(t), ..s.st },
        ..s
    }
}

/// Ends a pending enumeration value, recording it with `doc`.
pub open spec fn close_enum(s: SimpleState, doc: Option<Text>) -> SimpleState {
    match s.cur {
        Some(v) => SimpleState {
            st: SimpleTypeModel { enumerations: s.st.enumerations.push((v, doc)), ..s.st },
            cur: None,
            ..s
        },
        None => s,
    }
}

/// One event of a simple type's body; `None` when the type ends with it.
pub open spec fn simple_step(ev: EventModel, s: SimpleState) -> (SimpleState, bool) {
    match ev {
        EventModel::Start(t) => {
            let l = local_name_spec(t.name);
            let s1 = SimpleState { depth: s.depth + 1, ..s };
            if l == "documentation"@ {
                (SimpleState { in_doc: true, ..s1 }, false)
            } else if l == "union"@ {
                (with_union(t, s1), false)
            } else {
                (facet(l, t, s1), false)
            }
        },
        EventModel::Empty(t) => {
            let l = local_name_spec(t.name);
            let s1 = if l == "union"@ {
                with_union(t, s)
            } else {
                s
            };
            let s2 = facet(l, t, s1);
            if l == "enumeration"@ {
                (close_enum(s2, None), false)
            } else {
                (s2, false)
            }
        },
        EventModel::Text(tx) => {
            let text = trim(text_or_empty(tx));
            if s.in_doc && text.len() > 0 {
                if s.cur is Some {
                    (SimpleState { cur_doc: Some(text), ..s }, false)
                } else {
                    (SimpleState { st: SimpleTypeModel { doc: Some(text), ..s.st }, ..s }, false)
                }
            } else {
                (s, false)
            }
        },
        EventModel::End(n) => {
            let l = local_name_spec(n);
            let s1 = SimpleState { depth: s.depth - 1, ..s };
            let s2 = if l == "documentation"@ {
                SimpleState { in_doc: false, ..s1 }
            } else if l == "enumeration"@ && s1.cur is Some {
                SimpleState { cur_doc: None, ..close_enum(s1, s1.cur_doc) }
            } else {
                s1
            };
            (s2, s2.depth <= 0)
        },
        EventModel::Eof => (s, true),
        _ => (s, false),
    }
}

pub open spec fn simple_scan(ev: Events, i: int, s: SimpleState) -> (SimpleTypeModel, int)
    decreases ev.len() - i,
{
    if i < 0 || i >= ev.len() {
        (s.st, i)
    } else {
        let (s1, stop) = simple_step(ev[i], s);
        if stop {
            (s1.st, i + 1)
        } else {
            simple_scan(ev, i + 1, s1)
        }
    }
}

pub open spec fn simple_init(name: Text) -> SimpleState {
    SimpleState { st: simple_head(name), depth: 1, cur: None, in_doc: false, cur_doc: None }
}

/// The simple type named `name` whose start tag precedes position `i`.
pub open spec fn simple_parse(ev: Events, i: int, name: Text) -> (SimpleTypeModel, int) {
    simple_scan(ev, i, simple_init(name))
}

// ---------------------------------------------------------------------------
// Elements, complex types, choices
// ---------------------------------------------------------------------------

pub struct ElemState {
    pub e: ElementModel,
    pub depth: int,
    pub in_doc: bool,
}

pub struct ComplexState {
    pub ct: ComplexTypeModel,
    pub depth: int,
    pub in_doc: bool,
    pub in_sc: bool,
}

pub open spec fn complex_head(name: Text) -> ComplexTypeModel {
    ComplexTypeModel {
        name,
        members: Seq::empty(),
        attributes: Seq::empty(),
        attribute_group_refs: Seq::empty(),
        base_type: None,
        simple_content: false,
        doc: None,
    }
}

/// The effect of an `extension` tag: its `base` and, inside
/// `simpleContent`, the simple-content flag.
pub open spec fn with_extension(t: TagModel, s: ComplexState) -> ComplexState {
    let ct = s.ct;
    ComplexState {
        ct: ComplexTypeModel {
            base_type: match attr_spec(t, "base"@) {
                Some(b) => Some(b),
                None => ct.base_type,
            },
            simple_content: if s.in_sc {
                true
            } else {
                ct.simple_content
            },
            ..ct
        },
        ..s
    }
}

pub open spec fn push_member(s: ComplexState, m: MemberModel) -> ComplexState {
    ComplexState { ct: ComplexTypeModel { members: s.ct.members.push(m), ..s.ct }, ..s }
}

/// The effect of a tag (start or empty) that the complex-type parser reads
/// without descending: group refs, attributes, attribute-group refs,
/// extensions.
pub open spec fn complex_tag(l: Text, t: TagModel, s: ComplexState) -> ComplexState {
    if l == "group"@ {
        match group_ref_of(t) {
            Some(m) => push_member(s, m),
            None => s,
        }
    } else if l == "attribute"@ {
        ComplexState {
            ct: ComplexTypeModel { attributes: s.ct.attributes.push(attribute_of(t)), ..s.ct },
            ..s
        }
    } else if l == "attributeGroup"@ {
        match attr_spec(t, "ref"@) {
            Some(r) => ComplexState {
                ct: ComplexTypeModel {
                    attribute_group_refs: s.ct.attribute_group_refs.push(local_part(r)),
                    ..s.ct
                },
                ..s
            },
            None => s,
        }
    } else if l == "extension"@ {
        with_extension(t, s)
    } else {
        s
    }
}

pub open spec fn element_scan(ev: Events, i: int, s: ElemState) -> (ElementModel, int)
    decreases ev.len() - i, 0int,
{
    if i < 0 || i >= ev.len() {
        (s.e, i)
    } else {
        match ev[i] {
            EventModel::Start(t) => {
                let l = local_name_spec(t.name);
                if l == "simpleType"@ {
                    let r = simple_parse(ev, i + 1, s.e.name + "Inline"@);
                    element_scan(
                        ev,
                        next_pos(ev.len() as int, r.1, i),
                        ElemState { e: ElementModel { inline_simple_type: Some(r.0), ..s.e }, ..s },
                    )
                } else if l == "complexType"@ {
                    let r = complex_parse(ev, i + 1, s.e.name + "Type"@);
                    element_scan(
                        ev,
                        next_pos(ev.len() as int, r.1, i),
                        ElemState {
                            e: ElementModel { inline_complex_type: Some(Box::new(r.0)), ..s.e },
                            ..s
                        },
                    )
                } else if l == "documentation"@ {
                    element_scan(ev, i + 1, ElemState { depth: s.depth + 1, in_doc: true, ..s })
                } else {
                    element_scan(ev, i + 1, ElemState { depth: s.depth + 1, ..s })
                }
            },
            EventModel::End(n) => {
                if s.depth - 1 <= 0 {
                    (s.e, i + 1)
                } else {
                    element_scan(
                        ev,
                        i + 1,
                        ElemState {
                            depth: s.depth - 1,
                            in_doc: if local_name_spec(n) == "documentation"@ {
                                false
                            } else {
                                s.in_doc
                            },
                            ..s
                        },
                    )
                }
            },
            EventModel::Text(tx) => {
                let text = trim(text_or_empty(tx));
                if s.in_doc && text.len() > 0 {
                    element_scan(
                        ev,
                        i + 1,
                        ElemState { e: ElementModel { doc: Some(text), ..s.e }, ..s },
                    )
                } else {
                    element_scan(ev, i + 1, s)
                }
            },
            EventModel::Eof => (s.e, i + 1),
            _ => element_scan(ev, i + 1, s),
        }
    }
}

/// The element whose start tag `t` precedes position `i`.
pub open spec fn element_parse(ev: Events, i: int, t: TagModel) -> (ElementModel, int)
    decreases ev.len() - i, 1int,
{
    element_scan(ev, i, ElemState { e: element_head(t), depth: 1, in_doc: false })
}

pub open spec fn complex_scan(ev: Events, i: int, s: ComplexState) -> (ComplexTypeModel, int)
    decreases ev.len() - i, 0int,
{
    if i < 0 || i >= ev.len() {
        (s.ct, i)
    } else {
        match ev[i] {
            EventModel::Start(t) => {
                let l = local_name_spec(t.name);
                if l == "element"@ {
                    let r = element_parse(ev, i + 1, t);
                    complex_scan(ev, next_pos(ev.len() as int, r.1, i), push_member(s, MemberModel::Element(r.0)))
                } else if l == "choice"@ {
                    let r = choice_parse(ev, i + 1, min_occurs_of(t), max_occurs_of(t));
                    complex_scan(ev, next_pos(ev.len() as int, r.1, i), push_member(s, MemberModel::Choice(r.0)))
                } else {
                    let s1 = ComplexState { depth: s.depth + 1, ..s };
                    let s2 = if l == "documentation"@ {
                        ComplexState { in_doc: true, ..s1 }
                    } else if l == "simpleContent"@ {
                        ComplexState { in_sc: true, ..s1 }
                    } else {
                        complex_tag(l, t, s1)
                    };
                    complex_scan(ev, i + 1, s2)
                }
            },
            EventModel::Empty(t) => {
                let l = local_name_spec(t.name);
                if l == "element"@ {
                    complex_scan(ev, i + 1, push_member(s, MemberModel::Element(element_head(t))))
                } else {
                    complex_scan(ev, i + 1, complex_tag(l, t, s))
                }
            },
            EventModel::Text(tx) => {
                let text = trim(text_or_empty(tx));
                if s.in_doc && text.len() > 0 {
                    complex_scan(
                        ev,
                        i + 1,
                        ComplexState { ct: ComplexTypeModel { doc: Some(text), ..s.ct }, ..s },
                    )
                } else {
                    complex_scan(ev, i + 1, s)
                }
            },
            EventModel::End(n) => {
                let l = local_name_spec(n);
                let s1 = if l == "documentation"@ {
                    ComplexState { in_doc: false, ..s }
                } else if l == "simpleContent"@ {
                    ComplexState { in_sc: false, ..s }
                } else {
                    s
                };
                if s.depth - 1 <= 0 {
                    (s1.ct, i + 1)
                } else {
                    complex_scan(ev, i + 1, ComplexState { depth: s.depth - 1, ..s1 })
                }
            },
            EventModel::Eof => (s.ct, i + 1),
            _ => complex_scan(ev, i + 1, s),
        }
    }
}

/// The complex type (or model-group body) named `name` whose start tag
/// precedes position `i`.
pub open spec fn complex_parse(ev: Events, i: int, name: Text) -> (ComplexTypeModel, int)
    decreases ev.len() - i, 1int,
{
    complex_scan(
        ev,
        i,
        ComplexState { ct: complex_head(name), depth: 1, in_doc: false, in_sc: false },
    )
}

/// A choice after a tag named `l` inside it: a `sequence` makes it composite.
pub open spec fn choice_tag(l: Text, c: ChoiceModel) -> ChoiceModel {
    if l == "sequence"@ {
        ChoiceModel { composite: true, ..c }
    } else {
        c
    }
}

pub open spec fn choice_scan(ev: Events, i: int, depth: int, c: ChoiceModel) -> (ChoiceModel, int)
    decreases ev.len() - i, 0int,
{
    if i < 0 || i >= ev.len() {
        (c, i)
    } else {
        match ev[i] {
            EventModel::Start(t) => {
                let l = local_name_spec(t.name);
                if l == "element"@ {
                    let r = element_parse(ev, i + 1, t);
                    choice_scan(
                        ev,
                        next_pos(ev.len() as int, r.1, i),
                        depth,
                        ChoiceModel { elements: c.elements.push(r.0), ..c },
                    )
                } else {
                    choice_scan(ev, i + 1, depth + 1, choice_tag(l, c))
                }
            },
            EventModel::Empty(t) => {
                let l = local_name_spec(t.name);
                if l == "element"@ {
                    choice_scan(
                        ev,
                        i + 1,
                        depth,
                        ChoiceModel { elements: c.elements.push(element_head(t)), ..c },
                    )
                } else {
                    choice_scan(ev, i + 1, depth, choice_tag(l, c))
                }
            },
            EventModel::End(_) => if depth - 1 <= 0 {
                (c, i + 1)
            } else {
                choice_scan(ev, i + 1, depth - 1, c)
            },
            EventModel::Eof => (c, i + 1),
            _ => choice_scan(ev, i + 1, depth, c),
        }
    }
}

/// The choice group whose start tag (with `minOccurs` and `maxOccurs` as
/// given) precedes position `i`.
pub open spec fn choice_parse(ev: Events, i: int, min_occurs: u64, max_occurs: MaxOccurs) -> (ChoiceModel, int)
    decreases ev.len() - i, 1int,
{
    choice_scan(
        ev,
        i,
        1,
        ChoiceModel { min_occurs, max_occurs, composite: false, elements: Seq::empty() },
    )
}

// ---------------------------------------------------------------------------
// Attribute groups and top-level elements
// ---------------------------------------------------------------------------

pub open spec fn attr_group_scan(ev: Events, i: int, depth: int, attrs: Seq<AttributeModel>) -> (
    Seq<AttributeModel>,
    int,
)
    decreases ev.len() - i,
{
    if i < 0 || i >= ev.len() {
        (attrs, i)
    } else {
        match ev[i] {
            EventModel::Start(t) => {
                let a = if local_name_spec(t.name) == "attribute"@ {
                    attrs.push(attribute_of(t))
                } else {
                    attrs
                };
                attr_group_scan(ev, i + 1, depth + 1, a)
            },
            EventModel::Empty(t) => {
                let a = if local_name_spec(t.name) == "attribute"@ {
                    attrs.push(attribute_of(t))
                } else {
                    attrs
                };
                attr_group_scan(ev, i + 1, depth, a)
            },
            EventModel::End(_) => if depth - 1 <= 0 {
                (attrs, i + 1)
            } else {
                attr_group_scan(ev, i + 1, depth - 1, attrs)
            },
            EventModel::Eof => (attrs, i + 1),
            _ => attr_group_scan(ev, i + 1, depth, attrs),
        }
    }
}

/// The attributes of the attribute group whose start tag precedes `i`.
pub open spec fn attr_group_parse(ev: Events, i: int) -> (Seq<AttributeModel>, int) {
    attr_group_scan(ev, i, 1, Seq::empty())
}

pub open spec fn top_scan(ev: Events, i: int, depth: int, name: Text, ct: Option<ComplexTypeModel>) -> (
    Option<ComplexTypeModel>,
    int,
)
    decreases ev.len() - i,
{
    if i < 0 || i >= ev.len() {
        (ct, i)
    } else {
        match ev[i] {
            EventModel::Start(t) => {
                if local_name_spec(t.name) == "complexType"@ {
                    let r = complex_parse(ev, i + 1, name);
                    top_scan(ev, next_pos(ev.len() as int, r.1, i), depth, name, Some(r.0))
                } else {
                    top_scan(ev, i + 1, depth + 1, name, ct)
                }
            },
            EventModel::End(_) => if depth - 1 <= 0 {
                (ct, i + 1)
            } else {
                top_scan(ev, i + 1, depth - 1, name, ct)
            },
            EventModel::Eof => (ct, i + 1),
            _ => top_scan(ev, i + 1, depth, name, ct),
        }
    }
}

/// The top-level element `name` whose start tag precedes position `i`: its
/// inline complex type, if it has one, is named after the element.
pub open spec fn top_parse(ev: Events, i: int, name: Text, type_ref: Option<Text>) -> (
    TopLevelModel,
    int,
) {
    let r = top_scan(ev, i, 1, name, None);
    (TopLevelModel { name, type_ref, complex_type: r.0 }, r.1)
}

// ---------------------------------------------------------------------------
// Whole documents
// ---------------------------------------------------------------------------

pub open spec fn xsd_head(path: Text) -> XsdModel {
    XsdModel {
        path,
        simple_types: Seq::empty(),
        complex_types: Seq::empty(),
        elements: Seq::empty(),
        attribute_groups: Seq::empty(),
        model_groups: Seq::empty(),
        includes: Seq::empty(),
    }
}

/// An `include` tag adds its `schemaLocation`, when it has one.
pub open spec fn with_include(t: TagModel, x: XsdModel) -> XsdModel {
    match attr_spec(t, "schemaLocation"@) {
        Some(loc) => XsdModel { includes: x.includes.push(loc), ..x },
        None => x,
    }
}

/// The error message for a tokenizer error in the document at `path`.
pub open spec fn xml_error_text(path: Text, msg: Text) -> Text {
    "XML parse error in "@ + path + ": "@ + msg
}

/// The top level of a schema document from position `i`: named simple and
/// complex types, attribute groups, model groups and elements, and
/// includes. A tokenizer error at the top level ends the parse with an error.
pub open spec fn xsd_scan(ev: Events, i: int, x: XsdModel) -> Result<XsdModel, Text>
    decreases ev.len() - i,
{
    if i < 0 || i >= ev.len() {
        Ok(x)
    } else {
        match ev[i] {
            EventModel::Empty(t) => {
                let l = local_name_spec(t.name);
                if l == "include"@ {
                    xsd_scan(ev, i + 1, with_include(t, x))
                } else if l == "element"@ {
                    match attr_spec(t, "name"@) {
                        Some(n) => xsd_scan(
                            ev,
                            i + 1,
                            XsdModel {
                                elements: x.elements.push(
                                    TopLevelModel {
                                        name: n,
                                        type_ref: attr_spec(t, "type"@),
                                        complex_type: None,
                                    },
                                ),
                                ..x
                            },
                        ),
                        None => xsd_scan(ev, i + 1, x),
                    }
                } else {
                    xsd_scan(ev, i + 1, x)
                }
            },
            EventModel::Start(t) => {
                let l = local_name_spec(t.name);
                let name = attr_spec(t, "name"@);
                if l == "include"@ {
                    xsd_scan(ev, i + 1, with_include(t, x))
                } else if l == "simpleType"@ && name is Some {
                    let r = simple_parse(ev, i + 1, name->0);
                    xsd_scan(
                        ev,
                        next_pos(ev.len() as int, r.1, i),
                        XsdModel { simple_types: x.simple_types.push(r.0), ..x },
                    )
                } else if l == "complexType"@ && name is Some {
                    let r = complex_parse(ev, i + 1, name->0);
                    xsd_scan(
                        ev,
                        next_pos(ev.len() as int, r.1, i),
                        XsdModel { complex_types: x.complex_types.push(r.0), ..x },
                    )
                } else if l == "attributeGroup"@ && name is Some {
                    let r = attr_group_parse(ev, i + 1);
                    xsd_scan(
                        ev,
                        next_pos(ev.len() as int, r.1, i),
                        XsdModel {
                            attribute_groups: x.attribute_groups.push(
                                AttributeGroupModel { name: name->0, attributes: r.0 },
                            ),
                            ..x
                        },
                    )
                } else if l == "group"@ && name is Some {
                    let r = complex_parse(ev, i + 1, name->0);
                    xsd_scan(
                        ev,
                        next_pos(ev.len() as int, r.1, i),
                        XsdModel {
                            model_groups: x.model_groups.push(
                                ModelGroupModel { name: name->0, members: r.0.members },
                            ),
                            ..x
                        },
                    )
                } else if l == "element"@ && name is Some {
                    let r = top_parse(ev, i + 1, name->0, attr_spec(t, "type"@));
                    xsd_scan(
                        ev,
                        next_pos(ev.len() as int, r.1, i),
                        XsdModel { elements: x.elements.push(r.0), ..x },
                    )
                } else {
                    xsd_scan(ev, i + 1, x)
                }
            },
            EventModel::Eof => Ok(x),
            EventModel::Error(m) => Err(xml_error_text(x.path, m)),
            _ => xsd_scan(ev, i + 1, x),
        }
    }
}

} // verus!
