//! Simple types: restrictions, enumerations, lists and unions.
use vstd::prelude::*;

use super::spec::{
    close_enum, facet, facet_apply, member_types_of, simple_head, simple_init, simple_parse,
    simple_scan, simple_step, text_or_empty, Events, SimpleState,
};
use super::xml::{event_view, events_view, get_attr, local_name, tag_view, XmlEvent, XmlTag};
use crate::text::{local_part, parse_u64, split_whitespace_exec, split_ws, str_eq, strip_ns, trim, trim_exec};
use crate::types::{copy_opt_string, opt_text, simple_view, texts, SimpleTypeDef, SimpleTypeModel, Text};

verus! {

/// The `memberTypes` attribute of an `<xsd:union>`, split on whitespace and
/// stripped of namespace prefixes.
pub fn union_member_types(e: &XmlTag) -> (r: Vec<String>)
    ensures
        texts(r@) == member_types_of(tag_view(*e)),
{
    let raw = match get_attr(e, "memberTypes") {
        Some(v) => v,
        None => String::new(),
    };
    let words = split_whitespace_exec(raw.as_str());
    let ghost ws = split_ws(raw@);
    let ghost want = ws.map_values(|w: Text| local_part(w));
    let mut r: Vec<String> = Vec::new();
    let mut i: usize = 0;
    while i < words.len()
        invariant
            i <= words@.len(),
            words@.len() == ws.len(),
            forall|j: int| 0 <= j < words@.len() ==> #[trigger] words@[j]@ == ws[j],
            want == ws.map_values(|w: Text| local_part(w)),
            texts(r@) == want.subrange(0, i as int),
        decreases words.len() - i,
    {
        let ghost before = r@;
        r.push(strip_ns(words[i].as_str()));
        assert(texts(r@) =~= texts(before).push(local_part(ws[i as int])));
        assert(want.subrange(0, i + 1) =~= want.subrange(0, i as int).push(want[i as int]));
        i = i + 1;
    }
    assert(want.subrange(0, i as int) =~= want);
    assert(text_or_empty(super::xml::attr_spec(tag_view(*e), "memberTypes"@)) == raw@);
    r
}

/// Applies a restriction facet (or `list`) tag to `st` and the pending
/// enumeration value `current_enum_value`.
pub fn handle_facet(
    local: &str,
    e: &XmlTag,
    st: &mut SimpleTypeDef,
    current_enum_value: &mut Option<String>,
)
    ensures
        (simple_view(*final(st)), opt_text(*final(current_enum_value))) == facet_apply(
            local@,
            tag_view(*e),
            simple_view(*old(st)),
            opt_text(*old(current_enum_value)),
        ),
{
    let ghost sv = simple_view(*old(st));
    if str_eq(local, "restriction") {
        if let Some(base) = get_attr(e, "base") {
            st.base = base;
        }
    } else if str_eq(local, "list") {
        st.base = crate::text::owned("string");
    } else if str_eq(local, "enumeration") {
        if let Some(val) = get_attr(e, "value") {
            *current_enum_value = Some(val);
        }
    } else if str_eq(local, "pattern") {
        if let Some(val) = get_attr(e, "value") {
            st.pattern = Some(val);
        }
    } else if str_eq(local, "minLength") {
        if let Some(val) = get_attr(e, "value") {
            st.min_length = parse_u64(val.as_str());
        }
    } else if str_eq(local, "maxLength") {
        if let Some(val) = get_attr(e, "value") {
            st.max_length = parse_u64(val.as_str());
        }
    } else if str_eq(local, "totalDigits") {
        if let Some(val) = get_attr(e, "value") {
            st.total_digits = parse_u64(val.as_str());
        }
    } else if str_eq(local, "fractionDigits") {
        if let Some(val) = get_attr(e, "value") {
            st.fraction_digits = parse_u64(val.as_str());
        }
    } else if str_eq(local, "minInclusive") {
        if let Some(val) = get_attr(e, "value") {
            st.min_inclusive = Some(val);
        }
    } else if str_eq(local, "maxInclusive") {
        if let Some(val) = get_attr(e, "value") {
            st.max_inclusive = Some(val);
        }
    }
    assert(simple_view(*st) =~= facet_apply(
        local@,
        tag_view(*e),
        sv,
        opt_text(*old(current_enum_value)),
    ).0);
}

pub open spec fn simple_state_view(
    st: SimpleTypeDef,
    depth: u128,
    cur: Option<String>,
    in_doc: bool,
    cur_doc: Option<String>,
) -> SimpleState {
    SimpleState {
        st: simple_view(st),
        depth: depth as int,
        cur: opt_text(cur),
        in_doc,
        cur_doc: opt_text(cur_doc),
    }
}

/// Records the pending enumeration value, if any, with `doc`.
fn take_enum(st: &mut SimpleTypeDef, cur: &mut Option<String>, doc: Option<String>)
    ensures
        simple_view(*final(st)) == close_enum(
            (SimpleState {
                st: simple_view(*old(st)),
                depth: 0,
                cur: opt_text(*old(cur)),
                in_doc: false,
                cur_doc: None,
            }),
            opt_text(doc),
        ).st,
        *final(cur) is None,
        *old(cur) is None ==> simple_view(*final(st)) == simple_view(*old(st)),
{
    let ghost sv = simple_view(*old(st));
    if let Some(val) = cur.take() {
        let ghost ev = st.enumerations@;
        let ghost pair = (val, doc);
        st.enumerations.push((val, doc));
        assert(st.enumerations@ == ev.push(pair));
        assert(st.enumerations@.map_values(|e: (String, Option<String>)| crate::types::enum_view(e))
            =~= ev.map_values(|e: (String, Option<String>)| crate::types::enum_view(e)).push(
            crate::types::enum_view(pair),
        ));
        assert(simple_view(*st) =~= SimpleTypeModel {
            enumerations: sv.enumerations.push((val@, opt_text(doc))),
            ..sv
        });
    }
}

/// Parses the body of a `<xsd:simpleType>` whose start tag was just read:
/// events from `pos` to its end tag. Returns the type named `name` and the
/// position after it.
pub fn parse_simple_type(events: &Vec<XmlEvent>, pos: usize, name: &str) -> (r: (
    SimpleTypeDef,
    usize,
))
    requires
        pos <= events@.len(),
    ensures
        (simple_view(r.0), r.1 as int) == simple_parse(events_view(events@), pos as int, name@),
        pos <= r.1 <= events@.len(),
{
    let ghost ev = events_view(events@);
    let mut st = SimpleTypeDef {
        name: crate::text::owned(name),
        base: String::new(),
        enumerations: Vec::new(),
        pattern: None,
        min_length: None,
        max_length: None,
        total_digits: None,
        fraction_digits: None,
        min_inclusive: None,
        max_inclusive: None,
        doc: None,
        is_union: false,
        member_types: Vec::new(),
    };
    let mut depth: u128 = 1;
    let mut cur: Option<String> = None;
    let mut in_doc = false;
    let mut cur_doc: Option<String> = None;
    assert(st.enumerations@.map_values(|e: (String, Option<String>)| crate::types::enum_view(e))
        =~= Seq::empty());
    assert(texts(st.member_types@) =~= Seq::empty());
    assert(simple_view(st) =~= simple_head(name@));
    assert(simple_state_view(st, depth, cur, in_doc, cur_doc) =~= simple_init(name@));
    let mut i: usize = pos;
    while i < events.len()
        invariant
            ev == events_view(events@),
            ev.len() == events@.len(),
            pos <= i <= events@.len(),
            1 <= depth <= i - pos + 1,
            simple_scan(ev, i as int, simple_state_view(st, depth, cur, in_doc, cur_doc))
                == simple_parse(ev, pos as int, name@),
        decreases events.len() - i,
    {
        let ghost s0 = simple_state_view(st, depth, cur, in_doc, cur_doc);
        assert(ev[i as int] == event_view(events@[i as int]));
        match &events[i] {
            XmlEvent::Start(e) => {
                depth = depth + 1;
                let local = local_name(&e.name);
                if str_eq(local.as_str(), "documentation") {
                    in_doc = true;
                } else if str_eq(local.as_str(), "union") {
                    st.is_union = true;
                    st.member_types = union_member_types(e);
                } else {
                    handle_facet(local.as_str(), e, &mut st, &mut cur);
                }
                assert(simple_state_view(st, depth, cur, in_doc, cur_doc) =~= simple_step(
                    ev[i as int],
                    s0,
                ).0);
            },
            XmlEvent::Empty(e) => {
                let local = local_name(&e.name);
                if str_eq(local.as_str(), "union") {
                    st.is_union = true;
                    st.member_types = union_member_types(e);
                }
                handle_facet(local.as_str(), e, &mut st, &mut cur);
                if str_eq(local.as_str(), "enumeration") {
                    take_enum(&mut st, &mut cur, None);
                }
                assert(simple_state_view(st, depth, cur, in_doc, cur_doc) =~= simple_step(
                    ev[i as int],
                    s0,
                ).0);
            },
            XmlEvent::Text(t) => {
                if in_doc {
                    let text = match t {
                        Some(s) => trim_exec(s.as_str()),
                        None => String::new(),
                    };
                    assert(text@ == trim(text_or_empty(opt_text(*t)))) by {
                        if t is None {
                            assert(trim(Seq::<char>::empty()) =~= Seq::<char>::empty());
                        }
                    }
                    if !text.as_str().is_empty() {
                        if cur.is_some() {
                            cur_doc = Some(text);
                        } else {
                            st.doc = Some(text);
                        }
                    }
                }
                assert(simple_state_view(st, depth, cur, in_doc, cur_doc) =~= simple_step(
                    ev[i as int],
                    s0,
                ).0);
            },
            XmlEvent::End(n) => {
                depth = depth - 1;
                let local = local_name(n);
                if str_eq(local.as_str(), "documentation") {
                    in_doc = false;
                } else if str_eq(local.as_str(), "enumeration") {
                    if cur.is_some() {
                        let d = cur_doc.take();
                        take_enum(&mut st, &mut cur, d);
                    }
                }
                assert(simple_state_view(st, depth, cur, in_doc, cur_doc) =~= simple_step(
                    ev[i as int],
                    s0,
                ).0);
                if depth == 0 {
                    return (st, i + 1);
                }
            },
            XmlEvent::Eof => {
                return (st, i + 1);
            },
            _ => {},
        }
        i = i + 1;
    }
    (st, i)
}

} // verus!
