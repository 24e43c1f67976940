//! XSD parsing: from XML events to the schema model.
pub mod xml;
pub mod spec;
pub mod facets;
pub mod element;
pub mod fresh;
pub mod hoist;
pub mod simple;
pub mod complex;

use vstd::prelude::*;

use complex::{parse_attribute_group, parse_complex_type};
use element::parse_top_level_element;
use simple::parse_simple_type;
use spec::{xml_error_text, xsd_head, xsd_scan};
use xml::{event_view, events_view, get_attr, local_name, tag_view, XmlEvent, XmlTag};

use crate::text::{push_str, str_eq};
use crate::types::{
    attr_group_view, complex_view, model_group_view, opt_text, simple_view, texts, top_level_view,
    xsd_view, AttributeGroupDef, AttributeGroupModel, ModelGroupDef, ModelGroupModel,
    TopLevelElement, TopLevelModel, XsdFile, XsdModel,
};

verus! {

fn push_include(xsd: &mut XsdFile, e: &XmlTag)
    ensures
        xsd_view(*final(xsd)) == spec::with_include(tag_view(*e), xsd_view(*old(xsd))),
{
    if let Some(loc) = get_attr(e, "schemaLocation") {
        let ghost before = xsd.includes@;
        xsd.includes.push(loc);
        assert(texts(xsd.includes@) =~= texts(before).push(loc@));
        assert(xsd_view(*xsd) =~= spec::with_include(tag_view(*e), xsd_view(*old(xsd))));
    }
}

/// Reads the top level of a schema document from its events: named simple
/// and complex types, attribute groups, model groups, elements and includes.
/// A tokenizer error at the top level is an error naming `path`.
pub fn scan_xsd(events: &Vec<XmlEvent>, path: &str) -> (r: Result<XsdFile, String>)
    ensures
        match r {
            Ok(f) => xsd_scan(events_view(events@), 0, xsd_head(path@)) == Ok::<XsdModel, Seq<char>>(
                xsd_view(f),
            ),
            Err(m) => xsd_scan(events_view(events@), 0, xsd_head(path@)) == Err::<XsdModel, Seq<char>>(
                m@,
            ),
        },
{
    let ghost ev = events_view(events@);
    let mut xsd = XsdFile {
        path: crate::text::owned(path),
        simple_types: Vec::new(),
        complex_types: Vec::new(),
        elements: Vec::new(),
        attribute_groups: Vec::new(),
        model_groups: Vec::new(),
        includes: Vec::new(),
    };
    assert(xsd.simple_types@.map_values(|s: crate::types::SimpleTypeDef| simple_view(s)) =~= Seq::empty());
    assert(xsd.complex_types@.map_values(|c: crate::types::ComplexTypeDef| complex_view(c)) =~= Seq::empty());
    assert(xsd.elements@.map_values(|e: TopLevelElement| top_level_view(e)) =~= Seq::empty());
    assert(xsd.attribute_groups@.map_values(|g: AttributeGroupDef| attr_group_view(g)) =~= Seq::empty());
    assert(xsd.model_groups@.map_values(|g: ModelGroupDef| model_group_view(g)) =~= Seq::empty());
    assert(texts(xsd.includes@) =~= Seq::empty());
    assert(xsd_view(xsd) =~= xsd_head(path@));
    let mut i: usize = 0;
    while i < events.len()
        invariant
            ev == events_view(events@),
            ev.len() == events@.len(),
            i <= events@.len(),
            xsd.path@ == path@,
            xsd_scan(ev, i as int, xsd_view(xsd)) == xsd_scan(ev, 0, xsd_head(path@)),
        decreases events.len() - i,
    {
        assert(ev[i as int] == event_view(events@[i as int]));
        let ghost x0 = xsd_view(xsd);
        match &events[i] {
            XmlEvent::Empty(e) => {
                let local = local_name(&e.name);
                if str_eq(local.as_str(), "include") {
                    push_include(&mut xsd, e);
                } else if str_eq(local.as_str(), "element") {
                    if let Some(name) = get_attr(e, "name") {
                        let el = TopLevelElement {
                            name,
                            type_ref: get_attr(e, "type"),
                            complex_type: None,
                        };
                        let ghost before = xsd.elements@;
                        xsd.elements.push(el);
                        assert(xsd.elements@.map_values(|e: TopLevelElement| top_level_view(e))
                            =~= before.map_values(|e: TopLevelElement| top_level_view(e)).push(
                            top_level_view(el),
                        ));
                        assert(xsd_view(xsd) =~= XsdModel {
                            elements: x0.elements.push(top_level_view(el)),
                            ..x0
                        });
                    }
                }
            },
            XmlEvent::Start(e) => {
                let local = local_name(&e.name);
                let ls = local.as_str();
                let name = get_attr(e, "name");
                if str_eq(ls, "include") {
                    push_include(&mut xsd, e);
                } else if str_eq(ls, "simpleType") && name.is_some() {
                    let n = name.unwrap();
                    let (st, j) = parse_simple_type(events, i + 1, n.as_str());
                    let ghost before = xsd.simple_types@;
                    xsd.simple_types.push(st);
                    assert(xsd.simple_types@.map_values(|s: crate::types::SimpleTypeDef| simple_view(s))
                        =~= before.map_values(|s: crate::types::SimpleTypeDef| simple_view(s)).push(
                        simple_view(st),
                    ));
                    assert(xsd_view(xsd) =~= XsdModel {
                        simple_types: x0.simple_types.push(simple_view(st)),
                        ..x0
                    });
                    i = j;
                    continue;
                } else if str_eq(ls, "complexType") && name.is_some() {
                    let n = name.unwrap();
                    let (ct, j) = parse_complex_type(events, i + 1, n.as_str());
                    let ghost before = xsd.complex_types@;
                    let ghost cv = complex_view(ct);
                    xsd.complex_types.push(ct);
                    assert(xsd.complex_types@.map_values(|c: crate::types::ComplexTypeDef| complex_view(c))
                        =~= before.map_values(|c: crate::types::ComplexTypeDef| complex_view(c)).push(
                        cv,
                    ));
                    assert(xsd_view(xsd) =~= XsdModel {
                        complex_types: x0.complex_types.push(cv),
                        ..x0
                    });
                    i = j;
                    continue;
                } else if str_eq(ls, "attributeGroup") && name.is_some() {
                    let n = name.unwrap();
                    let (attributes, j) = parse_attribute_group(events, i + 1);
                    let g = AttributeGroupDef { name: n, attributes };
                    let ghost before = xsd.attribute_groups@;
                    xsd.attribute_groups.push(g);
                    assert(xsd.attribute_groups@.map_values(|g: AttributeGroupDef| attr_group_view(g))
                        =~= before.map_values(|g: AttributeGroupDef| attr_group_view(g)).push(
                        attr_group_view(g),
                    ));
                    assert(xsd_view(xsd) =~= XsdModel {
                        attribute_groups: x0.attribute_groups.push(attr_group_view(g)),
                        ..x0
                    });
                    i = j;
                    continue;
                } else if str_eq(ls, "group") && name.is_some() {
                    let n = name.unwrap();
                    let (body, j) = parse_complex_type(events, i + 1, n.as_str());
                    let g = ModelGroupDef { name: n, members: body.members };
                    let ghost before = xsd.model_groups@;
                    xsd.model_groups.push(g);
                    assert(xsd.model_groups@.map_values(|g: ModelGroupDef| model_group_view(g))
                        =~= before.map_values(|g: ModelGroupDef| model_group_view(g)).push(
                        model_group_view(g),
                    ));
                    assert(xsd_view(xsd) =~= XsdModel {
                        model_groups: x0.model_groups.push(model_group_view(g)),
                        ..x0
                    });
                    i = j;
                    continue;
                } else if str_eq(ls, "element") && name.is_some() {
                    let n = name.unwrap();
                    let type_ref = get_attr(e, "type");
                    let (el, j) = parse_top_level_element(events, i + 1, n.as_str(), type_ref);
                    let ghost before = xsd.elements@;
                    let ghost tv = top_level_view(el);
                    xsd.elements.push(el);
                    assert(xsd.elements@.map_values(|e: TopLevelElement| top_level_view(e))
                        =~= before.map_values(|e: TopLevelElement| top_level_view(e)).push(tv));
                    assert(xsd_view(xsd) =~= XsdModel { elements: x0.elements.push(tv), ..x0 });
                    i = j;
                    continue;
                }
            },
            XmlEvent::Eof => {
                return Ok(xsd);
            },
            XmlEvent::Error(msg) => {
                let mut m = crate::text::owned("XML parse error in ");
                push_str(&mut m, path);
                push_str(&mut m, ": ");
                push_str(&mut m, msg.as_str());
                assert(m@ =~= xml_error_text(path@, msg@));
                return Err(m);
            },
            _ => {},
        }
        i = i + 1;
    }
    Ok(xsd)
}

/// What parsing a schema document with events `ev` gives: the top level
/// read, then inline complex types lifted; or the tokenizer's error.
pub open spec fn xsd_parse_spec(ev: spec::Events, path: Seq<char>) -> Result<XsdModel, Seq<char>> {
    match xsd_scan(ev, 0, xsd_head(path)) {
        Ok(x) => Ok(hoist::hoisted(x)),
        Err(m) => Err(m),
    }
}

pub open spec fn parse_result_view(r: Result<XsdFile, String>) -> Result<XsdModel, Seq<char>> {
    match r {
        Ok(f) => Ok(xsd_view(f)),
        Err(m) => Err(m@),
    }
}

/// Parses a schema document given as its XML events.
pub fn parse_xsd_events(events: &Vec<XmlEvent>, path: &str) -> (r: Result<XsdFile, String>)
    ensures
        parse_result_view(r) == xsd_parse_spec(events_view(events@), path@),
        r matches Ok(f) ==> hoist::schema_flat(xsd_view(f)),
{
    match scan_xsd(events, path) {
        Ok(f) => {
            let ghost x = xsd_view(f);
            let h = hoist::hoist_inline_complex_types(f);
            proof {
                hoist::lemma_hoisted_flat(x);
            }
            Ok(h)
        },
        Err(m) => Err(m),
    }
}

/// Parses the schema document `content` read from `path`: its XML events
/// (read by `quick_xml`), parsed as `parse_xsd_events` does.
pub fn parse_xsd(path: &str, content: &str) -> (r: Result<XsdFile, String>)
    ensures
        parse_result_view(r) == xsd_parse_spec(xml::xml_events(content@), path@),
        r matches Ok(f) ==> hoist::schema_flat(xsd_view(f)),
{
    let events = xml::read_events(content);
    parse_xsd_events(&events, path)
}

} // verus!
