//! XML events as plain values, read with `quick_xml`, and the helpers that
//! the schema parser uses to look at tags.
use vstd::prelude::*;
use vstd::string::StringSliceAdditionalSpecFns;
use vstd::utf8::{decode_utf8, valid_utf8};

use quick_xml::events::{BytesStart, BytesText, Event};
use quick_xml::reader::Reader;

use crate::text::{chars_of, local_part, owned, strip_ns};

verus! {

/// A start or empty-element tag: its qualified name and its attributes in
/// document order, each as raw key and value bytes (`None` for an attribute
/// the tokenizer could not read).
pub struct XmlTag {
    pub name: Vec<u8>,
    pub attrs: Vec<Option<(Vec<u8>, Vec<u8>)>>,
}

/// One event of an XML document.
pub enum XmlEvent {
    Start(XmlTag),
    Empty(XmlTag),
    End(Vec<u8>),
    /// Character data, unescaped (`None` when unescaping failed).
    Text(Option<String>),
    Eof,
    /// A tokenizer error, with its message.
    Error(String),
    /// Comments, CDATA, declarations and the like, which the parser skips.
    Other,
}

pub type Attrs = Seq<Option<(Seq<u8>, Seq<u8>)>>;

pub struct TagModel {
    pub name: Seq<u8>,
    pub attrs: Attrs,
}

pub enum EventModel {
    Start(TagModel),
    Empty(TagModel),
    End(Seq<u8>),
    Text(Option<Seq<char>>),
    Eof,
    Error(Seq<char>),
    Other,
}

pub open spec fn attr_entry_view(a: Option<(Vec<u8>, Vec<u8>)>) -> Option<(Seq<u8>, Seq<u8>)> {
    match a {
        Some((k, v)) => Some((k@, v@)),
        None => None,
    }
}

pub open spec fn tag_view(t: XmlTag) -> TagModel {
    TagModel {
        name: t.name@,
        attrs: t.attrs@.map_values(|a: Option<(Vec<u8>, Vec<u8>)>| attr_entry_view(a)),
    }
}

pub open spec fn event_view(e: XmlEvent) -> EventModel {
    match e {
        XmlEvent::Start(t) => EventModel::Start(tag_view(t)),
        XmlEvent::Empty(t) => EventModel::Empty(tag_view(t)),
        XmlEvent::End(n) => EventModel::End(n@),
        XmlEvent::Text(t) => EventModel::Text(
            match t {
                Some(s) => Some(s@),
                None => None,
            },
        ),
        XmlEvent::Eof => EventModel::Eof,
        XmlEvent::Error(m) => EventModel::Error(m@),
        XmlEvent::Other => EventModel::Other,
    }
}

pub open spec fn events_view(v: Seq<XmlEvent>) -> Seq<EventModel> {
    v.map_values(|e: XmlEvent| event_view(e))
}

// ---------------------------------------------------------------------------
// Reading events with quick_xml
// ---------------------------------------------------------------------------

/// An event as `quick_xml` reads it, before it is taken apart: a start or
/// empty-element tag is kept as its content bytes (name and attributes)
/// with the length of its name, character data as its escaped bytes.
pub enum RawEvent {
    Start(Vec<u8>, usize),
    Empty(Vec<u8>, usize),
    End(Vec<u8>),
    Text(Vec<u8>),
    Eof,
    Error(String),
    Other,
}

pub enum RawEventModel {
    Start(Seq<u8>, nat),
    Empty(Seq<u8>, nat),
    End(Seq<u8>),
    Text(Seq<u8>),
    Eof,
    Error(Seq<char>),
    Other,
}

pub open spec fn raw_view(e: RawEvent) -> RawEventModel {
    match e {
        RawEvent::Start(c, n) => RawEventModel::Start(c@, n as nat),
        RawEvent::Empty(c, n) => RawEventModel::Empty(c@, n as nat),
        RawEvent::End(n) => RawEventModel::End(n@),
        RawEvent::Text(t) => RawEventModel::Text(t@),
        RawEvent::Eof => RawEventModel::Eof,
        RawEvent::Error(m) => RawEventModel::Error(m@),
        RawEvent::Other => RawEventModel::Other,
    }
}

pub open spec fn raws_view(v: Seq<RawEvent>) -> Seq<RawEventModel> {
    v.map_values(|e: RawEvent| raw_view(e))
}

/// The events `quick_xml` reads from `text` (`Reader::from_str`, then
/// `Reader::read_event` until `Event::Eof`), up to and including the first
/// `Eof`. After an error the reader yields only `Eof`, so an error is
/// followed by the end. The events depend on the text alone.
pub uninterp spec fn xml_raw_events(text: Seq<char>) -> Seq<RawEventModel>;

/// The name and attributes `quick_xml` finds in the tag content `content`
/// whose name is its first `name_len` bytes (`BytesStart::name`,
/// `BytesStart::attributes`).
pub uninterp spec fn tag_parts(content: Seq<u8>, name_len: nat) -> TagModel;

/// What `BytesText::unescape` gives for character data with escaped bytes
/// `b`: the text with entity and character references replaced, or `None`
/// for a malformed reference.
pub uninterp spec fn unescaped(b: Seq<u8>) -> Option<Seq<char>>;

/// A tag's name length lies within its content.
pub open spec fn tag_fits(e: RawEventModel) -> bool {
    match e {
        RawEventModel::Start(c, n) => n <= c.len(),
        RawEventModel::Empty(c, n) => n <= c.len(),
        _ => true,
    }
}

/// An event with its tag taken apart.
pub open spec fn cook(e: RawEventModel) -> EventModel {
    match e {
        RawEventModel::Start(c, n) => EventModel::Start(tag_parts(c, n)),
        RawEventModel::Empty(c, n) => EventModel::Empty(tag_parts(c, n)),
        RawEventModel::End(n) => EventModel::End(n),
        RawEventModel::Text(t) => EventModel::Text(unescaped(t)),
        RawEventModel::Eof => EventModel::Eof,
        RawEventModel::Error(m) => EventModel::Error(m),
        RawEventModel::Other => EventModel::Other,
    }
}

/// The events of `text`, tags taken apart.
pub open spec fn xml_events(text: Seq<char>) -> Seq<EventModel> {
    xml_raw_events(text).map_values(|e: RawEventModel| cook(e))
}

/// Reads all the events of `text` with `quick_xml`, copied out as bytes.
/// The name of a tag, as `quick_xml` delimits it, lies within its content.
#[verifier::external_body]
fn read_raw_events(text: &str) -> (r: Vec<RawEvent>)
    ensures
        raws_view(r@) == xml_raw_events(text@),
        forall|i: int| 0 <= i < r@.len() ==> tag_fits(#[trigger] raws_view(r@)[i]),
{
    let mut reader = Reader::from_str(text);
    let mut out = vec![];
    while !matches!(out.last(), Some(RawEvent::Eof)) {
        out.push(match reader.read_event() {
            Ok(Event::Start(e)) => RawEvent::Start(e.to_vec(), e.name().0.len()),
            Ok(Event::Empty(e)) => RawEvent::Empty(e.to_vec(), e.name().0.len()),
            Ok(Event::End(e)) => RawEvent::End(e.to_vec()),
            Ok(Event::Text(t)) => RawEvent::Text(t.to_vec()),
            Ok(Event::Eof) => RawEvent::Eof,
            Err(e) => RawEvent::Error(e.to_string()),
            Ok(_) => RawEvent::Other,
        });
    }
    out
}

/// The name and attributes of the tag with content `content` whose name is
/// its first `name_len` bytes (`BytesStart::from_content`, `name`,
/// `attributes`), copied out as bytes; an attribute that cannot be read is
/// `None`. The content of a tag read from a `str` is valid UTF-8, and then
/// the lossy decoding keeps it as it is.
#[verifier::external_body]
fn tag_of(content: &[u8], name_len: usize) -> (r: XmlTag)
    requires
        name_len <= content@.len(),
    ensures
        tag_view(r) == tag_parts(content@, name_len as nat),
{
    let e = BytesStart::from_content(String::from_utf8_lossy(content), name_len);
    XmlTag {
        name: e.name().as_ref().to_vec(),
        attrs: e.attributes().map(|a| a.ok().map(|a| (a.key.as_ref().to_vec(), a.value.to_vec()))).collect(),
    }
}

/// Character data with escaped bytes `b` unescaped (`BytesText::from_escaped`,
/// `unescape`); `None` for a malformed reference. Character data read from
/// a `str` is valid UTF-8, and then the lossy decoding keeps it as it is.
#[verifier::external_body]
fn unescape_text(b: &[u8]) -> (r: Option<String>)
    ensures
        match r {
            Some(s) => unescaped(b@) == Some(s@),
            None => unescaped(b@) is None,
        },
{
    BytesText::from_escaped(String::from_utf8_lossy(b)).unescape().ok().map(|c| c.into_owned())
}

fn copy_bytes(v: &Vec<u8>) -> (r: Vec<u8>)
    ensures
        r@ == v@,
{
    let mut r: Vec<u8> = Vec::new();
    let mut i: usize = 0;
    while i < v.len()
        invariant
            i <= v.len(),
            r@ == v@.take(i as int),
        decreases v.len() - i,
    {
        r.push(v[i]);
        assert(r@ =~= v@.take(i + 1));
        i = i + 1;
    }
    assert(v@.take(i as int) =~= v@);
    r
}

/// The events of `text` as `quick_xml` reads them, up to and including the
/// end of the document, each tag taken apart into its name and attributes.
pub fn read_events(text: &str) -> (r: Vec<XmlEvent>)
    ensures
        events_view(r@) == xml_events(text@),
{
    let raw = read_raw_events(text);
    let ghost rv = raws_view(raw@);
    let mut out: Vec<XmlEvent> = Vec::new();
    let mut i: usize = 0;
    while i < raw.len()
        invariant
            rv == raws_view(raw@),
            rv == xml_raw_events(text@),
            forall|j: int| 0 <= j < raw@.len() ==> tag_fits(#[trigger] rv[j]),
            i <= raw.len(),
            events_view(out@) == rv.take(i as int).map_values(|e: RawEventModel| cook(e)),
        decreases raw.len() - i,
    {
        assert(tag_fits(rv[i as int]));
        assert(rv[i as int] == raw_view(raw@[i as int]));
        let ev = match &raw[i] {
            RawEvent::Start(c, n) => XmlEvent::Start(tag_of(c.as_slice(), *n)),
            RawEvent::Empty(c, n) => XmlEvent::Empty(tag_of(c.as_slice(), *n)),
            RawEvent::End(n) => XmlEvent::End(copy_bytes(n)),
            RawEvent::Text(t) => XmlEvent::Text(unescape_text(t.as_slice())),
            RawEvent::Eof => XmlEvent::Eof,
            RawEvent::Error(m) => XmlEvent::Error(owned(m.as_str())),
            RawEvent::Other => XmlEvent::Other,
        };
        assert(event_view(ev) == cook(rv[i as int]));
        let ghost before = out@;
        out.push(ev);
        assert(events_view(out@) =~= events_view(before).push(event_view(ev)));
        assert(rv.take(i + 1) =~= rv.take(i as int).push(rv[i as int]));
        assert(rv.take(i + 1).map_values(|e: RawEventModel| cook(e)) =~= rv.take(i as int).map_values(
            |e: RawEventModel| cook(e),
        ).push(cook(rv[i as int])));
        i = i + 1;
    }
    assert(rv.take(i as int) =~= rv);
    out
}

// ---------------------------------------------------------------------------
// Names and attributes
// ---------------------------------------------------------------------------

/// What `String::from_utf8(bytes).ok()` gives (std): the decoded string for
/// valid UTF-8, `None` otherwise.
pub open spec fn utf8_string_spec(b: Seq<u8>) -> Option<Seq<char>> {
    if valid_utf8(b) {
        Some(decode_utf8(b))
    } else {
        None
    }
}

/// Decodes `b` as UTF-8 (`String::from_utf8`).
#[verifier::external_body]
fn utf8_string(b: &[u8]) -> (r: Option<String>)
    ensures
        r is Some == valid_utf8(b@),
        r matches Some(s) ==> s@ == decode_utf8(b@),
{
    String::from_utf8(b.to_vec()).ok()
}

/// The local name of a tag name: the name decoded as UTF-8 (empty when it is
/// not valid UTF-8) without its namespace prefix.
pub open spec fn local_name_spec(name: Seq<u8>) -> Seq<char> {
    local_part(
        match utf8_string_spec(name) {
            Some(s) => s,
            None => Seq::empty(),
        },
    )
}

pub fn local_name(name: &Vec<u8>) -> (r: String)
    ensures
        r@ == local_name_spec(name@),
{
    match utf8_string(name.as_slice()) {
        Some(s) => strip_ns(s.as_str()),
        None => {
            assert(local_part(Seq::<char>::empty()) =~= Seq::<char>::empty());
            String::new()
        },
    }
}

/// The raw value of the first readable attribute named `key`.
pub open spec fn first_attr(attrs: Attrs, key: Seq<u8>) -> Option<Seq<u8>>
    decreases attrs.len(),
{
    if attrs.len() == 0 {
        None
    } else {
        match attrs[0] {
            Some((k, v)) => if k == key {
                Some(v)
            } else {
                first_attr(attrs.drop_first(), key)
            },
            None => first_attr(attrs.drop_first(), key),
        }
    }
}

/// The value of attribute `key` on a tag: the first attribute with that
/// name, decoded as UTF-8 (`None` when absent or not valid UTF-8).
pub open spec fn attr_spec(t: TagModel, key: Seq<char>) -> Option<Seq<char>> {
    match first_attr(t.attrs, vstd::utf8::encode_utf8(key)) {
        Some(v) => utf8_string_spec(v),
        None => None,
    }
}

fn bytes_eq(a: &Vec<u8>, b: &[u8]) -> (r: bool)
    ensures
        r == (a@ == b@),
{
    if a.len() != b.len() {
        return false;
    }
    let mut i: usize = 0;
    while i < a.len()
        invariant
            a@.len() == b@.len(),
            i <= a@.len(),
            forall|j: int| 0 <= j < i ==> a@[j] == b@[j],
        decreases a.len() - i,
    {
        if a[i] != b[i] {
            return false;
        }
        i = i + 1;
    }
    assert(a@ =~= b@);
    true
}

proof fn lemma_first_attr_skip(attrs: Attrs, key: Seq<u8>, i: int)
    requires
        0 <= i <= attrs.len(),
        forall|j: int|
            0 <= j < i ==> match #[trigger] attrs[j] {
                Some((k, v)) => k != key,
                None => true,
            },
    ensures
        first_attr(attrs, key) == first_attr(attrs.subrange(i, attrs.len() as int), key),
    decreases i,
{
    if i > 0 {
        assert forall|j: int| 0 <= j < i - 1 implies match #[trigger] attrs.drop_first()[j] {
            Some((k, v)) => k != key,
            None => true,
        } by {
            assert(attrs.drop_first()[j] == attrs[j + 1]);
        }
        lemma_first_attr_skip(attrs.drop_first(), key, i - 1);
        assert(attrs.drop_first().subrange(i - 1, attrs.len() - 1) =~= attrs.subrange(
            i,
            attrs.len() as int,
        ));
    } else {
        assert(attrs.subrange(0, attrs.len() as int) =~= attrs);
    }
}

/// The value of attribute `key` of a tag.
pub fn get_attr(t: &XmlTag, key: &str) -> (r: Option<String>)
    ensures
        crate::types::opt_text(r) == attr_spec(tag_view(*t), key@),
{
    let kb = key.as_bytes();
    let ghost attrs = tag_view(*t).attrs;
    let ghost kv = vstd::utf8::encode_utf8(key@);
    assert(kb@ == kv);
    let mut i: usize = 0;
    while i < t.attrs.len()
        invariant
            kb@ == kv,
            kv == vstd::utf8::encode_utf8(key@),
            attrs == tag_view(*t).attrs,
            attrs.len() == t.attrs@.len(),
            i <= t.attrs@.len(),
            forall|j: int|
                0 <= j < i ==> match #[trigger] attrs[j] {
                    Some((k, v)) => k != kv,
                    None => true,
                },
        decreases t.attrs.len() - i,
    {
        assert(attrs[i as int] == attr_entry_view(t.attrs@[i as int]));
        if let Some((k, v)) = &t.attrs[i] {
            if bytes_eq(k, kb) {
                proof {
                    lemma_first_attr_skip(attrs, kv, i as int);
                    let rest = attrs.subrange(i as int, attrs.len() as int);
                    assert(rest[0] == attrs[i as int]);
                    assert(first_attr(rest, kv) == Some(v@));
                }
                let r = utf8_string(v.as_slice());
                assert(first_attr(attrs, kv) == Some(v@));
                assert(attr_spec(tag_view(*t), key@) == utf8_string_spec(v@));
                return r;
            }
        }
        i = i + 1;
    }
    proof {
        lemma_first_attr_skip(attrs, kv, i as int);
    }
    None
}

} // verus!
