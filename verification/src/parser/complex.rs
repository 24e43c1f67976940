//! Complex types, choices and attribute groups.
use vstd::prelude::*;

use super::element::{make_attribute, make_element_from_empty, parse_element_start, parse_occurs};
use super::spec::{
    attr_group_parse, attr_group_scan, attribute_of, choice_parse, choice_scan, choice_tag, complex_head,
    complex_parse, complex_scan, complex_tag, element_head, group_ref_of, min_occurs_of,
    push_member, text_or_empty, with_extension, ComplexState, Events,
};
use super::xml::{attr_spec, event_view, events_view, get_attr, local_name, tag_view, XmlEvent, XmlTag};
use crate::text::{local_part, str_eq, strip_ns, trim, trim_exec};
use crate::types::{
    attr_view, attrs_view, complex_view, element_view, elements_view, lemma_elements_view_push,
    lemma_members_view_push, member_view, members_view, opt_text, texts, AttributeDef,
    AttributeModel, ChoiceGroup, ChoiceModel, ComplexTypeDef, ComplexTypeModel, ElementDef,
    MemberModel, SequenceMember, choice_view, MaxOccurs,
};

verus! {

pub open spec fn complex_state_view(
    ct: ComplexTypeDef,
    depth: u128,
    in_doc: bool,
    in_sc: bool,
) -> ComplexState {
    ComplexState { ct: complex_view(ct), depth: depth as int, in_doc, in_sc }
}

fn push_member_exec(ct: &mut ComplexTypeDef, m: SequenceMember)
    ensures
        complex_view(*final(ct)) == (ComplexTypeModel {
            members: complex_view(*old(ct)).members.push(member_view(m)),
            ..complex_view(*old(ct))
        }),
{
    let ghost before = ct.members@;
    ct.members.push(m);
    proof {
        lemma_members_view_push(before, m);
    }
    assert(complex_view(*ct) =~= ComplexTypeModel {
        members: complex_view(*old(ct)).members.push(member_view(m)),
        ..complex_view(*old(ct))
    });
}

/// A `<xsd:group ref>` as a member, when the tag has a `ref`.
fn group_ref_member(e: &XmlTag) -> (r: Option<SequenceMember>)
    ensures
        match r {
            Some(m) => group_ref_of(tag_view(*e)) == Some(member_view(m)),
            None => group_ref_of(tag_view(*e)) is None,
        },
{
    match get_attr(e, "ref") {
        Some(r) => {
            let (min_occurs, _) = parse_occurs(e);
            Some(SequenceMember::GroupRef { name: strip_ns(r.as_str()), min_occurs })
        },
        None => None,
    }
}

/// The effect of a group-ref, attribute, attribute-group-ref or extension
/// tag on the complex type being read.
fn complex_tag_exec(local: &str, e: &XmlTag, ct: &mut ComplexTypeDef, in_sc: bool)
    ensures
        complex_view(*final(ct)) == complex_tag(
            local@,
            tag_view(*e),
            (ComplexState { ct: complex_view(*old(ct)), depth: 0, in_doc: false, in_sc }),
        ).ct,
{
    let ghost cv = complex_view(*old(ct));
    if str_eq(local, "group") {
        if let Some(m) = group_ref_member(e) {
            push_member_exec(ct, m);
        }
    } else if str_eq(local, "attribute") {
        let a = make_attribute(e);
        let ghost before = ct.attributes@;
        ct.attributes.push(a);
        assert(attrs_view(ct.attributes@) =~= attrs_view(before).push(attr_view(a)));
        assert(complex_view(*ct) =~= ComplexTypeModel {
            attributes: cv.attributes.push(attr_view(a)),
            ..cv
        });
    } else if str_eq(local, "attributeGroup") {
        if let Some(r) = get_attr(e, "ref") {
            let ghost before = ct.attribute_group_refs@;
            let s = strip_ns(r.as_str());
            ct.attribute_group_refs.push(s);
            assert(texts(ct.attribute_group_refs@) =~= texts(before).push(local_part(r@)));
            assert(complex_view(*ct) =~= ComplexTypeModel {
                attribute_group_refs: cv.attribute_group_refs.push(local_part(r@)),
                ..cv
            });
        }
    } else if str_eq(local, "extension") {
        if let Some(base) = get_attr(e, "base") {
            ct.base_type = Some(base);
        }
        if in_sc {
            ct.simple_content = true;
        }
        assert(complex_view(*ct) =~= with_extension(
            tag_view(*e),
            ComplexState { ct: cv, depth: 0, in_doc: false, in_sc },
        ).ct);
    }
}

/// Parses the body of a `<xsd:complexType>` (or of a model group, whose body
/// has the same shape) whose start tag was just read. Returns the type named
/// `name` and the position after it.
pub fn parse_complex_type(events: &Vec<XmlEvent>, pos: usize, name: &str) -> (r: (
    ComplexTypeDef,
    usize,
))
    requires
        pos <= events@.len(),
    ensures
        (complex_view(r.0), r.1 as int) == complex_parse(events_view(events@), pos as int, name@),
        pos <= r.1 <= events@.len(),
    decreases events@.len() - pos, 0int,
{
    let ghost ev = events_view(events@);
    let mut ct = ComplexTypeDef {
        name: crate::text::owned(name),
        members: Vec::new(),
        attributes: Vec::new(),
        attribute_group_refs: Vec::new(),
        base_type: None,
        simple_content: false,
        doc: None,
    };
    let mut depth: u128 = 1;
    let mut in_doc = false;
    let mut in_sc = false;
    assert(members_view(ct.members@) =~= Seq::empty());
    assert(attrs_view(ct.attributes@) =~= Seq::empty());
    assert(texts(ct.attribute_group_refs@) =~= Seq::empty());
    assert(complex_state_view(ct, depth, in_doc, in_sc) =~= ComplexState {
        ct: complex_head(name@),
        depth: 1,
        in_doc: false,
        in_sc: false,
    });
    let mut i: usize = pos;
    while i < events.len()
        invariant
            ev == events_view(events@),
            ev.len() == events@.len(),
            pos <= i <= events@.len(),
            1 <= depth <= i - pos + 1,
            complex_scan(ev, i as int, complex_state_view(ct, depth, in_doc, in_sc))
                == complex_parse(ev, pos as int, name@),
        decreases events.len() - i,
    {
        let ghost s0 = complex_state_view(ct, depth, in_doc, in_sc);
        assert(ev[i as int] == event_view(events@[i as int]));
        match &events[i] {
            XmlEvent::Start(e) => {
                let local = local_name(&e.name);
                if str_eq(local.as_str(), "element") {
                    let (elem, j) = parse_element_start(events, i + 1, e);
                    push_member_exec(&mut ct, SequenceMember::Element(Box::new(elem)));
                    assert(complex_state_view(ct, depth, in_doc, in_sc) =~= push_member(
                        s0,
                        MemberModel::Element(element_view(elem)),
                    ));
                    i = j;
                    continue;
                } else if str_eq(local.as_str(), "choice") {
                    let (min_occurs, max_occurs) = parse_occurs(e);
                    let (choice, j) = parse_choice(events, i + 1, min_occurs, max_occurs);
                    let ghost cm = choice_view(choice);
                    push_member_exec(&mut ct, SequenceMember::Choice(choice));
                    assert(complex_state_view(ct, depth, in_doc, in_sc) =~= push_member(
                        s0,
                        MemberModel::Choice(cm),
                    ));
                    i = j;
                    continue;
                } else {
                    depth = depth + 1;
                    if str_eq(local.as_str(), "documentation") {
                        in_doc = true;
                    } else if str_eq(local.as_str(), "simpleContent") {
                        in_sc = true;
                    } else {
                        complex_tag_exec(local.as_str(), e, &mut ct, in_sc);
                    }
                }
            },
            XmlEvent::Empty(e) => {
                let local = local_name(&e.name);
                if str_eq(local.as_str(), "element") {
                    let elem = make_element_from_empty(e);
                    push_member_exec(&mut ct, SequenceMember::Element(Box::new(elem)));
                } else {
                    complex_tag_exec(local.as_str(), e, &mut ct, in_sc);
                }
            },
            XmlEvent::Text(t) => {
                if in_doc {
                    let text = match t {
                        Some(s) => trim_exec(s.as_str()),
                        None => String::new(),
                    };
                    assert(text@ == trim(text_or_empty(opt_text(*t)))) by {
                        if t is None {
                            assert(trim(Seq::<char>::empty()) =~= Seq::<char>::empty());
                        }
                    }
                    if !text.as_str().is_empty() {
                        ct.doc = Some(text);
                    }
                }
            },
            XmlEvent::End(n) => {
                let local = local_name(n);
                if str_eq(local.as_str(), "documentation") {
                    in_doc = false;
                } else if str_eq(local.as_str(), "simpleContent") {
                    in_sc = false;
                }
                depth = depth - 1;
                if depth == 0 {
                    return (ct, i + 1);
                }
            },
            XmlEvent::Eof => {
                return (ct, i + 1);
            },
            _ => {},
        }
        i = i + 1;
    }
    (ct, i)
}

/// Parses the body of a `<xsd:choice>` whose start tag was just read.
pub fn parse_choice(events: &Vec<XmlEvent>, pos: usize, min_occurs: u64, max_occurs: MaxOccurs) -> (r: (ChoiceGroup, usize))
    requires
        pos <= events@.len(),
    ensures
        (choice_view(r.0), r.1 as int) == choice_parse(events_view(events@), pos as int, min_occurs, max_occurs),
        pos <= r.1 <= events@.len(),
    decreases events@.len() - pos, 0int,
{
    let ghost ev = events_view(events@);
    let mut choice = ChoiceGroup { min_occurs, max_occurs, composite: false, elements: Vec::new() };
    let mut depth: u128 = 1;
    assert(choice_view(choice) =~= (ChoiceModel { min_occurs, max_occurs, composite: false, elements: Seq::empty() }));
    let mut i: usize = pos;
    while i < events.len()
        invariant
            ev == events_view(events@),
            ev.len() == events@.len(),
            pos <= i <= events@.len(),
            1 <= depth <= i - pos + 1,
            choice_scan(ev, i as int, depth as int, choice_view(choice)) == choice_parse(
                ev,
                pos as int,
                min_occurs,
                max_occurs,
            ),
        decreases events.len() - i,
    {
        assert(ev[i as int] == event_view(events@[i as int]));
        let ghost before = choice.elements@;
        let ghost c0 = choice_view(choice);
        match &events[i] {
            XmlEvent::Start(e) => {
                let local = local_name(&e.name);
                if str_eq(local.as_str(), "element") {
                    let (elem, j) = parse_element_start(events, i + 1, e);
                    choice.elements.push(elem);
                    proof {
                        lemma_elements_view_push(before, elem);
                        assert(choice_view(choice) =~= (ChoiceModel { elements: c0.elements.push(element_view(elem)), ..c0 }));
                    }
                    i = j;
                    continue;
                }
                if str_eq(local.as_str(), "sequence") {
                    choice.composite = true;
                }
                assert(choice_view(choice) == choice_tag(local@, c0));
                depth = depth + 1;
            },
            XmlEvent::Empty(e) => {
                let local = local_name(&e.name);
                if str_eq(local.as_str(), "element") {
                    let elem = make_element_from_empty(e);
                    choice.elements.push(elem);
                    proof {
                        lemma_elements_view_push(before, elem);
                        assert(choice_view(choice) =~= (ChoiceModel { elements: c0.elements.push(element_view(elem)), ..c0 }));
                    }
                } else {
                    if str_eq(local.as_str(), "sequence") {
                        choice.composite = true;
                    }
                    assert(choice_view(choice) == choice_tag(local@, c0));
                }
            },
            XmlEvent::End(_) => {
                depth = depth - 1;
                if depth == 0 {
                    return (choice, i + 1);
                }
            },
            XmlEvent::Eof => {
                return (choice, i + 1);
            },
            _ => {},
        }
        i = i + 1;
    }
    (choice, i)
}

/// Parses the body of a top-level `<xsd:attributeGroup name="...">` whose
/// start tag was just read, collecting its `<xsd:attribute>` children.
/// Nested `<xsd:attributeGroup ref>`s inside a group definition are not
/// expanded.
pub fn parse_attribute_group(events: &Vec<XmlEvent>, pos: usize) -> (r: (Vec<AttributeDef>, usize))
    requires
        pos <= events@.len(),
    ensures
        (attrs_view(r.0@), r.1 as int) == attr_group_parse(events_view(events@), pos as int),
        pos <= r.1 <= events@.len(),
{
    let ghost ev = events_view(events@);
    let mut attributes: Vec<AttributeDef> = Vec::new();
    let mut depth: u128 = 1;
    assert(attrs_view(attributes@) =~= Seq::empty());
    let mut i: usize = pos;
    while i < events.len()
        invariant
            ev == events_view(events@),
            ev.len() == events@.len(),
            pos <= i <= events@.len(),
            1 <= depth <= i - pos + 1,
            attr_group_scan(ev, i as int, depth as int, attrs_view(attributes@)) == attr_group_parse(
                ev,
                pos as int,
            ),
        decreases events.len() - i,
    {
        assert(ev[i as int] == event_view(events@[i as int]));
        let ghost before = attributes@;
        match &events[i] {
            XmlEvent::Start(e) => {
                depth = depth + 1;
                if str_eq(local_name(&e.name).as_str(), "attribute") {
                    let a = make_attribute(e);
                    attributes.push(a);
                    assert(attrs_view(attributes@) =~= attrs_view(before).push(attr_view(a)));
                }
            },
            XmlEvent::Empty(e) => {
                if str_eq(local_name(&e.name).as_str(), "attribute") {
                    let a = make_attribute(e);
                    attributes.push(a);
                    assert(attrs_view(attributes@) =~= attrs_view(before).push(attr_view(a)));
                }
            },
            XmlEvent::End(_) => {
                depth = depth - 1;
                if depth == 0 {
                    return (attributes, i + 1);
                }
            },
            XmlEvent::Eof => {
                return (attributes, i + 1);
            },
            _ => {},
        }
        i = i + 1;
    }
    (attributes, i)
}

} // verus!
