//! Name and type mapping from XSD to Rust.
use vstd::prelude::*;

use crate::naming::{to_upper_camel_case, upper_camel_case};
use crate::text::{ascii_upper, ascii_upper_exec, chars_of, is_ascii_digit, is_ascii_lowercase, local_part, owned, push_str, str_eq, string_of_chars, strip_ns};

verus! {

/// The Rust types that generated code uses as they are.
pub open spec fn is_primitive(ty: Seq<char>) -> bool {
    ||| ty == "String"@
    ||| ty == "bool"@
    ||| ty == "i64"@
    ||| ty == "f64"@
    ||| ty == "Decimal"@
}

pub fn is_rust_primitive(ty: &str) -> (r: bool)
    ensures
        r == is_primitive(ty@),
{
    str_eq(ty, "String") || str_eq(ty, "bool") || str_eq(ty, "i64") || str_eq(ty, "f64")
        || str_eq(ty, "Decimal")
}

/// A type name as emitted: primitives unchanged, otherwise a leading ASCII
/// lower-case letter is upper-cased.
pub open spec fn sanitized(name: Seq<char>) -> Seq<char> {
    if is_primitive(name) {
        name
    } else if name.len() > 0 && is_ascii_lowercase(name[0]) {
        seq![ascii_upper(name[0])] + name.drop_first()
    } else {
        name
    }
}

pub fn sanitize_type_name(name: &str) -> (r: String)
    ensures
        r@ == sanitized(name@),
{
    if is_rust_primitive(name) {
        return owned(name);
    }
    let v = chars_of(name);
    if v.len() > 0 && 'a' <= v[0] && v[0] <= 'z' {
        let mut r = String::new();
        r.push(ascii_upper_exec(v[0]));
        let mut i: usize = 1;
        while i < v.len()
            invariant
                v@ == name@,
                1 <= i <= v.len(),
                r@ == seq![ascii_upper(v@[0])] + v@.subrange(1, i as int),
            decreases v.len() - i,
        {
            r.push(v[i]);
            i = i + 1;
        }
        assert(v@.subrange(1, v.len() as int) =~= v@.drop_first());
        r
    } else {
        owned(name)
    }
}

pub open spec fn is_string_like(l: Seq<char>) -> bool {
    ||| l == "string"@
    ||| l == "normalizedString"@
    ||| l == "token"@
    ||| l == "anyURI"@
    ||| l == "NMTOKEN"@
    ||| l == "NMTOKENS"@
    ||| l == "Name"@
    ||| l == "NCName"@
    ||| l == "QName"@
    ||| l == "ID"@
    ||| l == "IDREF"@
    ||| l == "language"@
    ||| l == "date"@
    ||| l == "dateTime"@
    ||| l == "time"@
    ||| l == "gYear"@
    ||| l == "gYearMonth"@
    ||| l == "gMonthDay"@
    ||| l == "gMonth"@
    ||| l == "gDay"@
    ||| l == "duration"@
    ||| l == "base64Binary"@
    ||| l == "hexBinary"@
}

pub open spec fn is_integer_like(l: Seq<char>) -> bool {
    ||| l == "integer"@
    ||| l == "int"@
    ||| l == "long"@
    ||| l == "nonNegativeInteger"@
    ||| l == "positiveInteger"@
    ||| l == "negativeInteger"@
    ||| l == "nonPositiveInteger"@
    ||| l == "short"@
    ||| l == "unsignedInt"@
    ||| l == "unsignedLong"@
    ||| l == "unsignedShort"@
    ||| l == "byte"@
    ||| l == "unsignedByte"@
}

/// The Rust type for an XSD built-in type, or the local name itself when it
/// is not a built-in.
pub open spec fn base_to_rust(base: Seq<char>) -> Seq<char> {
    let l = local_part(base);
    if is_string_like(l) {
        "String"@
    } else if l == "boolean"@ {
        "bool"@
    } else if is_integer_like(l) {
        "i64"@
    } else if l == "decimal"@ {
        "Decimal"@
    } else if l == "float"@ || l == "double"@ {
        "f64"@
    } else {
        l
    }
}

fn string_like(l: &str) -> (r: bool)
    ensures
        r == is_string_like(l@),
{
    str_eq(l, "string") || str_eq(l, "normalizedString") || str_eq(l, "token") || str_eq(
        l,
        "anyURI",
    ) || str_eq(l, "NMTOKEN") || str_eq(l, "NMTOKENS") || str_eq(l, "Name") || str_eq(l, "NCName")
        || str_eq(l, "QName") || str_eq(l, "ID") || str_eq(l, "IDREF") || str_eq(l, "language")
        || str_eq(l, "date") || str_eq(l, "dateTime") || str_eq(l, "time") || str_eq(l, "gYear")
        || str_eq(l, "gYearMonth") || str_eq(l, "gMonthDay") || str_eq(l, "gMonth") || str_eq(
        l,
        "gDay",
    ) || str_eq(l, "duration") || str_eq(l, "base64Binary") || str_eq(l, "hexBinary")
}

fn integer_like(l: &str) -> (r: bool)
    ensures
        r == is_integer_like(l@),
{
    str_eq(l, "integer") || str_eq(l, "int") || str_eq(l, "long") || str_eq(
        l,
        "nonNegativeInteger",
    ) || str_eq(l, "positiveInteger") || str_eq(l, "negativeInteger") || str_eq(
        l,
        "nonPositiveInteger",
    ) || str_eq(l, "short") || str_eq(l, "unsignedInt") || str_eq(l, "unsignedLong") || str_eq(
        l,
        "unsignedShort",
    ) || str_eq(l, "byte") || str_eq(l, "unsignedByte")
}

/// Maps XSD base types to Rust types.
pub fn xsd_base_to_rust(base: &str) -> (r: String)
    ensures
        r@ == base_to_rust(base@),
{
    let l = strip_ns(base);
    let ls = l.as_str();
    if string_like(ls) {
        owned("String")
    } else if str_eq(ls, "boolean") {
        owned("bool")
    } else if integer_like(ls) {
        owned("i64")
    } else if str_eq(ls, "decimal") {
        owned("Decimal")
    } else if str_eq(ls, "float") || str_eq(ls, "double") {
        owned("f64")
    } else {
        l
    }
}

/// A type reference without its namespace prefix.
pub fn resolve_type(ty: &str) -> (r: String)
    ensures
        r@ == local_part(ty@),
{
    strip_ns(ty)
}

/// Characters that become `_` in a variant name that starts with a digit.
pub open spec fn digit_variant_sep(c: char) -> bool {
    c == '-' || c == '.' || c == ' ' || c == '/'
}

/// Characters that become `_` before camel-casing a variant name.
pub open spec fn variant_sep(c: char) -> bool {
    c == ' ' || c == '-' || c == '.' || c == '/' || c == '(' || c == ')'
}

pub open spec fn underscore_digit_seps(s: Seq<char>) -> Seq<char> {
    Seq::new(s.len(), |i: int| if digit_variant_sep(s[i]) { '_' } else { s[i] })
}

pub open spec fn underscore_seps(s: Seq<char>) -> Seq<char> {
    Seq::new(s.len(), |i: int| if variant_sep(s[i]) { '_' } else { s[i] })
}

/// `str::replace("__", "_")`: each non-overlapping `__`, scanning left to
/// right, becomes a single `_`.
pub open spec fn collapse_double_underscore(s: Seq<char>) -> Seq<char>
    decreases s.len(),
{
    if s.len() >= 2 && s[0] == '_' && s[1] == '_' {
        seq!['_'] + collapse_double_underscore(s.subrange(2, s.len() as int))
    } else if s.len() == 0 {
        s
    } else {
        seq![s[0]] + collapse_double_underscore(s.drop_first())
    }
}

/// The Rust variant name for an enumeration value.
pub open spec fn variant_name(val: Seq<char>) -> Seq<char> {
    if val.len() > 0 && is_ascii_digit(val[0]) {
        seq!['V'] + underscore_digit_seps(val)
    } else {
        let camel = upper_camel_case(collapse_double_underscore(underscore_seps(val)));
        if camel.len() == 0 {
            seq!['V'] + val
        } else {
            camel
        }
    }
}

fn map_seps(v: &Vec<char>, digit_rule: bool) -> (r: Vec<char>)
    ensures
        r@ == (if digit_rule {
            underscore_digit_seps(v@)
        } else {
            underscore_seps(v@)
        }),
{
    let mut r: Vec<char> = Vec::new();
    let mut i: usize = 0;
    while i < v.len()
        invariant
            i <= v.len(),
            r@.len() == i,
            forall|j: int|
                0 <= j < i ==> r@[j] == (if (if digit_rule {
                    digit_variant_sep(v@[j])
                } else {
                    variant_sep(v@[j])
                }) {
                    '_'
                } else {
                    v@[j]
                }),
        decreases v.len() - i,
    {
        let c = v[i];
        let sep = if digit_rule {
            c == '-' || c == '.' || c == ' ' || c == '/'
        } else {
            c == ' ' || c == '-' || c == '.' || c == '/' || c == '(' || c == ')'
        };
        if sep {
            r.push('_');
        } else {
            r.push(c);
        }
        i = i + 1;
    }
    proof {
        if digit_rule {
            assert(r@ =~= underscore_digit_seps(v@));
        } else {
            assert(r@ =~= underscore_seps(v@));
        }
    }
    r
}

fn collapse_exec(v: &Vec<char>) -> (r: Vec<char>)
    ensures
        r@ == collapse_double_underscore(v@),
{
    let mut r: Vec<char> = Vec::new();
    let mut i: usize = 0;
    assert(v@.subrange(0, v.len() as int) =~= v@);
    assert(r@ + collapse_double_underscore(v@) =~= collapse_double_underscore(v@));
    while i < v.len()
        invariant
            i <= v.len(),
            r@ + collapse_double_underscore(v@.subrange(i as int, v.len() as int))
                == collapse_double_underscore(v@),
        decreases v.len() - i,
    {
        let ghost rest = v@.subrange(i as int, v.len() as int);
        if i + 1 < v.len() && v[i] == '_' && v[i + 1] == '_' {
            assert(rest.subrange(2, rest.len() as int) =~= v@.subrange(i + 2, v.len() as int));
            assert(r@.push('_') + collapse_double_underscore(v@.subrange(i + 2, v.len() as int))
                =~= r@ + collapse_double_underscore(rest));
            r.push('_');
            i = i + 2;
        } else {
            assert(rest.drop_first() =~= v@.subrange(i + 1, v.len() as int));
            assert(r@.push(v@[i as int]) + collapse_double_underscore(
                v@.subrange(i + 1, v.len() as int),
            ) =~= r@ + collapse_double_underscore(rest));
            r.push(v[i]);
            i = i + 1;
        }
    }
    assert(v@.subrange(v.len() as int, v.len() as int) =~= Seq::<char>::empty());
    assert(r@ + Seq::<char>::empty() =~= r@);
    r
}

/// The Rust variant name for an enumeration value.
pub fn enum_variant_name(val: &str) -> (r: String)
    ensures
        r@ == variant_name(val@),
{
    let v = chars_of(val);
    if v.len() > 0 && '0' <= v[0] && v[0] <= '9' {
        let mapped = map_seps(&v, true);
        let mut r = owned("V");
        let tail = string_of_chars(&mapped);
        push_str(&mut r, tail.as_str());
        proof {
            reveal_strlit("V");
        }
        assert(r@ =~= seq!['V'] + underscore_digit_seps(val@));
        return r;
    }
    let mapped = map_seps(&v, false);
    let cleaned = string_of_chars(&collapse_exec(&mapped));
    let camel = to_upper_camel_case(cleaned.as_str());
    if camel.as_str().is_empty() {
        let mut r = owned("V");
        push_str(&mut r, val);
        proof {
            reveal_strlit("V");
        }
        assert(r@ =~= seq!['V'] + val@);
        r
    } else {
        camel
    }
}

} // verus!
