//! Elements and attributes: what their tags declare, and the body of an
//! element declaration.
use vstd::prelude::*;

use super::complex::parse_complex_type;
use super::simple::parse_simple_type;
use super::spec::{
    attribute_of, element_head, element_name_of, element_parse, element_scan, element_type_of,
    max_occurs_of, min_occurs_of, text_or_empty, top_parse, top_scan, ElemState,
};
use super::xml::{event_view, events_view, get_attr, local_name, tag_view, XmlEvent, XmlTag};
use crate::text::{parse_u64, push_str, str_eq, strip_ns, trim, trim_exec};
use crate::types::{
    attr_view, complex_view, element_view, opt_text, simple_view, top_level_view, AttributeDef,
    ComplexTypeDef, ComplexTypeModel, ElementDef, ElementModel, MaxOccurs, TopLevelElement,
    TopLevelModel,
};

verus! {

/// `minOccurs` and `maxOccurs` of a tag.
pub fn parse_occurs(e: &XmlTag) -> (r: (u64, MaxOccurs))
    ensures
        r.0 == min_occurs_of(tag_view(*e)),
        r.1 == max_occurs_of(tag_view(*e)),
{
    let min_occurs = match get_attr(e, "minOccurs") {
        Some(v) => match parse_u64(v.as_str()) {
            Some(n) => n,
            None => 1,
        },
        None => 1,
    };
    let max_occurs = match get_attr(e, "maxOccurs") {
        Some(v) => {
            if str_eq(v.as_str(), "unbounded") {
                MaxOccurs::Unbounded
            } else {
                MaxOccurs::Bounded(
                    match parse_u64(v.as_str()) {
                        Some(n) => n,
                        None => 1,
                    },
                )
            }
        },
        None => MaxOccurs::Bounded(1),
    };
    (min_occurs, max_occurs)
}

/// An element's name: `name`, else `ref` without its prefix, else empty.
pub fn element_name_from(e: &XmlTag) -> (r: String)
    ensures
        r@ == element_name_of(tag_view(*e)),
{
    match get_attr(e, "name") {
        Some(n) => n,
        None => match get_attr(e, "ref") {
            Some(r) => strip_ns(r.as_str()),
            None => String::new(),
        },
    }
}

/// An element's type: `type`, else `ref` without its prefix.
pub fn element_type_from(e: &XmlTag) -> (r: Option<String>)
    ensures
        opt_text(r) == element_type_of(tag_view(*e)),
{
    match get_attr(e, "type") {
        Some(t) => Some(t),
        None => match get_attr(e, "ref") {
            Some(r) => Some(strip_ns(r.as_str())),
            None => None,
        },
    }
}

/// The element declared by an empty-element tag.
pub fn make_element_from_empty(e: &XmlTag) -> (r: ElementDef)
    ensures
        element_view(r) == element_head(tag_view(*e)),
{
    let name = element_name_from(e);
    let type_ref = element_type_from(e);
    let (min_occurs, max_occurs) = parse_occurs(e);
    let r = ElementDef {
        name,
        type_ref,
        min_occurs,
        max_occurs,
        doc: None,
        inline_simple_type: None,
        inline_complex_type: None,
    };
    assert(element_view(r) =~= element_head(tag_view(*e)));
    r
}

/// The attribute declared by a tag.
pub fn make_attribute(e: &XmlTag) -> (r: AttributeDef)
    ensures
        attr_view(r) == attribute_of(tag_view(*e)),
{
    let name = match get_attr(e, "name") {
        Some(n) => n,
        None => String::new(),
    };
    let type_ref = match get_attr(e, "type") {
        Some(t) => t,
        None => crate::text::owned("String"),
    };
    let required = match get_attr(e, "use") {
        Some(u) => str_eq(u.as_str(), "required"),
        None => false,
    };
    let fixed = get_attr(e, "fixed");
    let r = AttributeDef { name, type_ref, required, fixed };
    assert(attr_view(r) =~= attribute_of(tag_view(*e)));
    r
}

pub open spec fn elem_state_view(e: ElementDef, depth: u128, in_doc: bool) -> ElemState {
    ElemState { e: element_view(e), depth: depth as int, in_doc }
}

/// Parses the body of an element declaration whose start tag `start` was just
/// read: an inline `<xsd:simpleType>` (named `{name}Inline`), an inline
/// `<xsd:complexType>` (named `{name}Type`, hoisted later) and its
/// documentation. Returns the element and the position after it.
pub fn parse_element_start(events: &Vec<XmlEvent>, pos: usize, start: &XmlTag) -> (r: (
    ElementDef,
    usize,
))
    requires
        pos <= events@.len(),
    ensures
        (element_view(r.0), r.1 as int) == element_parse(events_view(events@), pos as int, tag_view(*start)),
        pos <= r.1 <= events@.len(),
    decreases events@.len() - pos, 1int,
{
    let ghost ev = events_view(events@);
    let mut elem = make_element_from_empty(start);
    let mut depth: u128 = 1;
    let mut in_doc = false;
    let mut i: usize = pos;
    while i < events.len()
        invariant
            ev == events_view(events@),
            ev.len() == events@.len(),
            pos <= i <= events@.len(),
            1 <= depth <= i - pos + 1,
            element_scan(ev, i as int, elem_state_view(elem, depth, in_doc)) == element_parse(
                ev,
                pos as int,
                tag_view(*start),
            ),
        decreases events.len() - i,
    {
        assert(ev[i as int] == event_view(events@[i as int]));
        let ghost e0 = element_view(elem);
        match &events[i] {
            XmlEvent::Start(e) => {
                let local = local_name(&e.name);
                if str_eq(local.as_str(), "simpleType") {
                    let mut inline_name = elem.name.clone();
                    push_str(&mut inline_name, "Inline");
                    let (st, j) = parse_simple_type(events, i + 1, inline_name.as_str());
                    elem.inline_simple_type = Some(st);
                    assert(element_view(elem) =~= ElementModel {
                        inline_simple_type: Some(simple_view(st)),
                        ..e0
                    });
                    i = j;
                    continue;
                } else if str_eq(local.as_str(), "complexType") {
                    let mut inline_name = elem.name.clone();
                    push_str(&mut inline_name, "Type");
                    let (ct, j) = parse_complex_type(events, i + 1, inline_name.as_str());
                    let ghost cv = complex_view(ct);
                    elem.inline_complex_type = Some(Box::new(ct));
                    assert(element_view(elem) =~= ElementModel {
                        inline_complex_type: Some(Box::new(cv)),
                        ..e0
                    });
                    i = j;
                    continue;
                }
                depth = depth + 1;
                if str_eq(local.as_str(), "documentation") {
                    in_doc = true;
                }
            },
            XmlEvent::End(n) => {
                depth = depth - 1;
                if depth == 0 {
                    return (elem, i + 1);
                }
                if str_eq(local_name(n).as_str(), "documentation") {
                    in_doc = false;
                }
            },
            XmlEvent::Text(t) => {
                if in_doc {
                    let text = match t {
                        Some(s) => trim_exec(s.as_str()),
                        None => String::new(),
                    };
                    assert(text@ == trim(text_or_empty(opt_text(*t)))) by {
                        if t is None {
                            assert(trim(Seq::<char>::empty()) =~= Seq::<char>::empty());
                        }
                    }
                    if !text.as_str().is_empty() {
                        elem.doc = Some(text);
                        assert(element_view(elem) =~= ElementModel { doc: Some(text@), ..e0 });
                    }
                }
            },
            XmlEvent::Eof => {
                return (elem, i + 1);
            },
            _ => {},
        }
        i = i + 1;
    }
    (elem, i)
}

pub open spec fn opt_complex_view(c: Option<ComplexTypeDef>) -> Option<ComplexTypeModel> {
    match c {
        Some(x) => Some(complex_view(x)),
        None => None,
    }
}

fn top_element(name: &str, type_ref: Option<String>, complex_type: Option<ComplexTypeDef>) -> (r:
    TopLevelElement)
    ensures
        top_level_view(r) == (TopLevelModel {
            name: name@,
            type_ref: opt_text(type_ref),
            complex_type: opt_complex_view(complex_type),
        }),
{
    TopLevelElement { name: crate::text::owned(name), type_ref, complex_type }
}

/// Parses the body of a top-level `<xsd:element name="...">` whose start tag
/// was just read: an inline `<xsd:complexType>` becomes the element's
/// complex type, named after the element.
pub fn parse_top_level_element(
    events: &Vec<XmlEvent>,
    pos: usize,
    name: &str,
    type_ref: Option<String>,
) -> (r: (TopLevelElement, usize))
    requires
        pos <= events@.len(),
    ensures
        (top_level_view(r.0), r.1 as int) == top_parse(
            events_view(events@),
            pos as int,
            name@,
            opt_text(type_ref),
        ),
        pos <= r.1 <= events@.len(),
{
    let ghost ev = events_view(events@);
    let mut complex_type: Option<ComplexTypeDef> = None;
    let mut depth: u128 = 1;
    let mut i: usize = pos;
    while i < events.len()
        invariant
            ev == events_view(events@),
            ev.len() == events@.len(),
            pos <= i <= events@.len(),
            1 <= depth <= i - pos + 1,
            top_scan(ev, i as int, depth as int, name@, opt_complex_view(complex_type)) == top_scan(
                ev,
                pos as int,
                1,
                name@,
                None,
            ),
        decreases events.len() - i,
    {
        assert(ev[i as int] == event_view(events@[i as int]));
        match &events[i] {
            XmlEvent::Start(e) => {
                if str_eq(local_name(&e.name).as_str(), "complexType") {
                    let (ct, j) = parse_complex_type(events, i + 1, name);
                    complex_type = Some(ct);
                    i = j;
                    continue;
                }
                depth = depth + 1;
            },
            XmlEvent::End(_) => {
                depth = depth - 1;
                if depth == 0 {
                    return (top_element(name, type_ref, complex_type), i + 1);
                }
            },
            XmlEvent::Eof => {
                return (top_element(name, type_ref, complex_type), i + 1);
            },
            _ => {},
        }
        i = i + 1;
    }
    (top_element(name, type_ref, complex_type), i)
}

} // verus!
