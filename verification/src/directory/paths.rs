//! Names derived from schema paths: Rust identifiers for directories and
//! files, module paths, output file paths and their display form. A path is
//! given as its components, in order.
use vstd::prelude::*;

use crate::naming::{lowercase, to_lowercase};
use crate::text::{chars_of, is_ascii_digit, last_index_of, lemma_last_index_exact, push_str};
use crate::types::{texts, Text};

verus! {

pub open spec fn is_ascii_alphanumeric(c: char) -> bool {
    ('0' <= c <= '9') || ('a' <= c <= 'z') || ('A' <= c <= 'Z')
}

/// A character kept in an identifier; any other becomes `_`.
pub open spec fn ident_char(c: char) -> char {
    if is_ascii_alphanumeric(c) || c == '_' {
        c
    } else {
        '_'
    }
}

/// `s` lower-cased, every character other than an ASCII letter, digit or
/// `_` replaced by `_`, and `_` put in front when it then starts with a
/// digit.
pub open spec fn sanitize_spec(s: Text) -> Text {
    let l = lowercase(s).map_values(|c: char| ident_char(c));
    if l.len() > 0 && is_ascii_digit(l[0]) {
        seq!['_'] + l
    } else {
        l
    }
}

/// The identifier a path component becomes (see `sanitize_spec`).
pub fn sanitize_ident(s: &str) -> (r: String)
    ensures
        r@ == sanitize_spec(s@),
{
    let lower = to_lowercase(s);
    let v = chars_of(lower.as_str());
    let ghost l = lowercase(s@).map_values(|c: char| ident_char(c));
    let mut out = String::new();
    if v.len() > 0 && '0' <= v[0] && v[0] <= '9' {
        out.push('_');
    }
    let ghost start = out@;
    let mut i: usize = 0;
    while i < v.len()
        invariant
            v@ == lowercase(s@),
            l == v@.map_values(|c: char| ident_char(c)),
            i <= v.len(),
            out@ == start + l.subrange(0, i as int),
        decreases v.len() - i,
    {
        let c = v[i];
        let k = if ('0' <= c && c <= '9') || ('a' <= c && c <= 'z') || ('A' <= c && c <= 'Z') || c
            == '_' {
            c
        } else {
            '_'
        };
        out.push(k);
        assert(l.subrange(0, i + 1) =~= l.subrange(0, i as int).push(l[i as int]));
        i = i + 1;
    }
    assert(l.subrange(0, i as int) =~= l);
    out
}

/// A file name without its extension, as `Path::file_stem` gives it: the
/// part before the last `.`, unless that `.` is the first character (or
/// there is none), in which case the whole name; `..` has none.
pub open spec fn stem_spec(name: Text) -> Text {
    if name == seq!['.', '.'] {
        Seq::empty()
    } else if last_index_of(name, '.') <= 0 {
        name
    } else {
        name.take(last_index_of(name, '.'))
    }
}

/// The stem of the file name `name` (see `stem_spec`).
pub fn file_stem(name: &str) -> (r: String)
    ensures
        r@ == stem_spec(name@),
{
    let v = chars_of(name);
    if v.len() == 2 && v[0] == '.' && v[1] == '.' {
        assert(name@ =~= seq!['.', '.']);
        return String::new();
    }
    let mut i: usize = v.len();
    while i > 0 && v[i - 1] != '.'
        invariant
            v@ == name@,
            i <= v.len(),
            forall|j: int| i <= j < v.len() ==> v@[j] != '.',
        decreases i,
    {
        i = i - 1;
    }
    proof {
        lemma_last_index_exact(v@, '.', i - 1);
    }
    // `i - 1` is the index of the last `.`, when there is one.
    let end = if i <= 1 {
        v.len()
    } else {
        i - 1
    };
    let mut r = String::new();
    let mut k: usize = 0;
    while k < end
        invariant
            v@ == name@,
            end <= v.len(),
            k <= end,
            r@ == v@.subrange(0, k as int),
        decreases end - k,
    {
        r.push(v[k]);
        k = k + 1;
    }
    assert(v@.subrange(0, end as int) =~= stem_spec(name@));
    r
}

/// `parts` joined with `sep` between each two.
pub open spec fn join_spec(parts: Seq<Text>, sep: Text) -> Text
    decreases parts.len(),
{
    if parts.len() == 0 {
        Seq::empty()
    } else if parts.len() == 1 {
        parts[0]
    } else {
        join_spec(parts.drop_last(), sep) + sep + parts.last()
    }
}

/// `parts` joined with `sep` between each two.
pub fn join(parts: &Vec<String>, sep: &str) -> (r: String)
    ensures
        r@ == join_spec(texts(parts@), sep@),
{
    let ghost ps = texts(parts@);
    let mut r = String::new();
    let mut i: usize = 0;
    while i < parts.len()
        invariant
            ps == texts(parts@),
            i <= parts.len(),
            r@ == join_spec(ps.subrange(0, i as int), sep@),
        decreases parts.len() - i,
    {
        assert(ps.subrange(0, i + 1).drop_last() =~= ps.subrange(0, i as int));
        if i > 0 {
            push_str(&mut r, sep);
        }
        push_str(&mut r, parts[i].as_str());
        i = i + 1;
    }
    assert(ps.subrange(0, i as int) =~= ps);
    r
}

/// Each component turned into an identifier.
pub open spec fn sanitize_all(comps: Seq<Text>) -> Seq<Text> {
    comps.map_values(|c: Text| sanitize_spec(c))
}

fn sanitize_components(comps: &Vec<String>, n: usize) -> (r: Vec<String>)
    requires
        n <= comps.len(),
    ensures
        texts(r@) == sanitize_all(texts(comps@).take(n as int)),
{
    let mut r: Vec<String> = Vec::new();
    let mut i: usize = 0;
    while i < n
        invariant
            n <= comps.len(),
            i <= n,
            texts(r@) == sanitize_all(texts(comps@).take(i as int)),
        decreases n - i,
    {
        let s = sanitize_ident(comps[i].as_str());
        let ghost before = r@;
        r.push(s);
        assert(texts(r@) =~= texts(before).push(s@));
        assert(texts(comps@).take(i + 1) =~= texts(comps@).take(i as int).push(comps@[i as int]@));
        assert(texts(r@) =~= sanitize_all(texts(comps@).take(i + 1)));
        i = i + 1;
    }
    r
}

/// The module path (`a::b::c`) of the schema at `rel`: its directories and
/// its file stem, each made an identifier.
pub open spec fn mod_path_spec(rel: Seq<Text>) -> Text {
    if rel.len() == 0 {
        sanitize_spec(Seq::empty())
    } else {
        join_spec(
            sanitize_all(rel.drop_last()).push(sanitize_spec(stem_spec(rel.last()))),
            "::"@,
        )
    }
}

/// The module path of the schema whose path components are `rel`.
pub fn xsd_rel_to_mod_path(rel: &Vec<String>) -> (r: String)
    ensures
        r@ == mod_path_spec(texts(rel@)),
{
    if rel.len() == 0 {
        proof {
            reveal_strlit("");
            assert(""@ =~= Seq::<char>::empty());
        }
        return sanitize_ident("");
    }
    let n = rel.len() - 1;
    let mut parts = sanitize_components(rel, n);
    let stem = file_stem(rel[n].as_str());
    parts.push(sanitize_ident(stem.as_str()));
    assert(texts(rel@).take(n as int) =~= texts(rel@).drop_last());
    assert(texts(parts@) =~= sanitize_all(texts(rel@).drop_last()).push(
        sanitize_spec(stem_spec(texts(rel@).last())),
    ));
    join(&parts, "::")
}

/// Where the Rust file for the schema at `rel` goes: its directories made
/// identifiers, then its file stem made an identifier with `.rs` added.
pub open spec fn out_rel_spec(rel: Seq<Text>) -> Seq<Text> {
    if rel.len() == 0 {
        seq![sanitize_spec(Seq::empty()) + ".rs"@]
    } else {
        sanitize_all(rel.drop_last()).push(sanitize_spec(stem_spec(rel.last())) + ".rs"@)
    }
}

/// The output path (components) of the schema whose path components are
/// `rel`.
pub fn out_rel(rel: &Vec<String>) -> (r: Vec<String>)
    ensures
        texts(r@) == out_rel_spec(texts(rel@)),
{
    if rel.len() == 0 {
        proof {
            reveal_strlit("");
            assert(""@ =~= Seq::<char>::empty());
        }
        let mut f = sanitize_ident("");
        push_str(&mut f, ".rs");
        let mut r: Vec<String> = Vec::new();
        r.push(f);
        assert(texts(r@) =~= out_rel_spec(texts(rel@)));
        return r;
    }
    let n = rel.len() - 1;
    let mut parts = sanitize_components(rel, n);
    let stem = file_stem(rel[n].as_str());
    let mut f = sanitize_ident(stem.as_str());
    push_str(&mut f, ".rs");
    parts.push(f);
    assert(texts(rel@).take(n as int) =~= texts(rel@).drop_last());
    assert(texts(parts@) =~= out_rel_spec(texts(rel@)));
    parts
}

/// A relative path as `Path::display` shows it: components joined by `/`.
pub open spec fn display_spec(comps: Seq<Text>) -> Text {
    join_spec(comps, "/"@)
}

/// The display form of the relative path with components `comps`.
pub fn display(comps: &Vec<String>) -> (r: String)
    ensures
        r@ == display_spec(texts(comps@)),
{
    join(comps, "/")
}

} // verus!
