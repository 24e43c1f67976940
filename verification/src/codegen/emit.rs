//! Emission of simple types: enums, newtypes, unions, and their validation.
use vstd::prelude::*;

use super::util::{enum_variant_name, is_primitive, is_rust_primitive, sanitize_type_name, sanitized, variant_name};
use super::{resolved_field_type, CodeGenerator, GenCtx};
use crate::text::{chars_of, decimal, push_decimal, push_str, str_eq, trim, trim_exec};
use crate::types::{simple_view, texts, SimpleTypeDef, SimpleTypeModel, Text};

verus! {

// ---------------------------------------------------------------------------
// Doc comments
// ---------------------------------------------------------------------------

/// The lines of `s`: split at `\n`, where a final `\n` ends the last line
/// rather than starting an empty one. Returns the lines and whether the last
/// one is still open.
pub open spec fn line_state(s: Seq<char>) -> (Seq<Text>, bool)
    decreases s.len(),
{
    if s.len() == 0 {
        (Seq::empty(), false)
    } else {
        let (ls, open) = line_state(s.drop_last());
        let c = s.last();
        if c == '\n' {
            if open {
                (ls, false)
            } else {
                (ls.push(Seq::empty()), false)
            }
        } else if open && ls.len() > 0 {
            (ls.update(ls.len() - 1, ls.last().push(c)), true)
        } else {
            (ls.push(seq![c]), true)
        }
    }
}

pub open spec fn split_lines(s: Seq<char>) -> Seq<Text> {
    line_state(s).0
}

/// One `///` line per line of the documentation, each line trimmed.
pub open spec fn doc_lines_text(ls: Seq<Text>, indent: Text) -> Text
    decreases ls.len(),
{
    if ls.len() == 0 {
        Seq::empty()
    } else {
        doc_lines_text(ls.drop_last(), indent) + indent + "/// "@ + trim(ls.last()) + "\n"@
    }
}

pub open spec fn doc_text(doc: Text, indent: Text) -> Text {
    doc_lines_text(split_lines(doc), indent)
}

pub open spec fn opt_doc_text(doc: Option<Text>, indent: Text) -> Text {
    match doc {
        Some(d) => doc_text(d, indent),
        None => Seq::empty(),
    }
}

fn split_lines_exec(s: &str) -> (r: Vec<String>)
    ensures
        r@.len() == split_lines(s@).len(),
        forall|i: int| 0 <= i < r@.len() ==> #[trigger] r@[i]@ == split_lines(s@)[i],
{
    let v = chars_of(s);
    let mut ls: Vec<String> = Vec::new();
    let mut open = false;
    let mut i: usize = 0;
    while i < v.len()
        invariant
            v@ == s@,
            i <= v.len(),
            ls@.len() == line_state(v@.subrange(0, i as int)).0.len(),
            forall|j: int|
                0 <= j < ls@.len() ==> #[trigger] ls@[j]@ == line_state(
                    v@.subrange(0, i as int),
                ).0[j],
            open == line_state(v@.subrange(0, i as int)).1,
        decreases v.len() - i,
    {
        let c = v[i];
        let ghost prev = v@.subrange(0, i as int);
        assert(v@.subrange(0, i + 1).drop_last() =~= prev);
        let ghost old_ls = ls@;
        if c == '\n' {
            if !open {
                ls.push(String::new());
            }
            open = false;
        } else if open && ls.len() > 0 {
            let k = ls.len() - 1;
            let mut last = ls.pop().unwrap();
            last.push(c);
            ls.push(last);
            proof {
                assert forall|j: int| 0 <= j < ls@.len() implies #[trigger] ls@[j]@ == line_state(
                    v@.subrange(0, i + 1),
                ).0[j] by {
                    if j < k {
                        assert(ls@[j] == old_ls[j]);
                    }
                }
            }
        } else {
            let mut one = String::new();
            one.push(c);
            ls.push(one);
            open = true;
            proof {
                assert forall|j: int| 0 <= j < ls@.len() implies #[trigger] ls@[j]@ == line_state(
                    v@.subrange(0, i + 1),
                ).0[j] by {
                    if j < old_ls.len() {
                        assert(ls@[j] == old_ls[j]);
                    } else {
                        assert(ls@[j]@ =~= seq![c]);
                    }
                }
            }
        }
        i = i + 1;
        proof {
            if c == '\n' && !line_state(prev).1 {
                assert forall|j: int| 0 <= j < ls@.len() implies #[trigger] ls@[j]@ == line_state(
                    v@.subrange(0, i as int),
                ).0[j] by {
                    if j < old_ls.len() {
                        assert(ls@[j] == old_ls[j]);
                    }
                }
            }
        }
    }
    assert(v@.subrange(0, v.len() as int) =~= s@);
    ls
}

/// Appends the `///` lines for `doc`, each prefixed by `indent`.
pub fn emit_doc_comment(output: &mut String, doc: &str, indent: &str)
    ensures
        final(output)@ == old(output)@ + doc_text(doc@, indent@),
{
    let ls = split_lines_exec(doc);
    let ghost all = split_lines(doc@);
    let mut i: usize = 0;
    while i < ls.len()
        invariant
            ls@.len() == all.len(),
            forall|j: int| 0 <= j < ls@.len() ==> #[trigger] ls@[j]@ == all[j],
            all == split_lines(doc@),
            i <= ls.len(),
            output@ == old(output)@ + doc_lines_text(all.subrange(0, i as int), indent@),
        decreases ls.len() - i,
    {
        let line = trim_exec(ls[i].as_str());
        push_str(output, indent);
        push_str(output, "/// ");
        push_str(output, line.as_str());
        push_str(output, "\n");
        assert(all.subrange(0, i + 1).drop_last() =~= all.subrange(0, i as int));
        assert(ls@[i as int]@ == all[i as int]);
        i = i + 1;
    }
    assert(all.subrange(0, ls.len() as int) =~= all);
}

pub(crate) fn emit_opt_doc(output: &mut String, doc: &Option<String>, indent: &str)
    ensures
        final(output)@ == old(output)@ + opt_doc_text(crate::types::opt_text(*doc), indent@),
{
    if let Some(d) = doc {
        emit_doc_comment(output, d.as_str(), indent);
    } else {
        assert(old(output)@ + Seq::<char>::empty() =~= old(output)@);
    }
}

pub open spec fn derive_all_text() -> Text {
    "#[derive(Debug, Clone, PartialEq, Serialize, Deserialize)]\n"@
}

pub fn push_derive_all(out: &mut String)
    ensures
        final(out)@ == old(out)@ + derive_all_text(),
{
    push_str(out, "#[derive(Debug, Clone, PartialEq, Serialize, Deserialize)]\n");
}

// ---------------------------------------------------------------------------
// Newtypes and `try_new`
// ---------------------------------------------------------------------------

pub open spec fn has_restrictions(st: SimpleTypeModel) -> bool {
    st.min_length is Some || st.max_length is Some || st.min_inclusive is Some
        || st.max_inclusive is Some
}

pub fn has_try_new_restrictions(st: &SimpleTypeDef) -> (r: bool)
    ensures
        r == has_restrictions(simple_view(*st)),
{
    st.min_length.is_some() || st.max_length.is_some() || st.min_inclusive.is_some()
        || st.max_inclusive.is_some()
}

pub open spec fn min_len_check(m: Text) -> Text {
    "        if value.len() < "@ + m
        + " {\n            return Err(format!(\"Length {} is less than minimum "@ + m
        + "\", value.len()));\n        }\n"@
}

pub open spec fn max_len_check(m: Text) -> Text {
    "        if value.len() > "@ + m + " {\n            return Err(format!(\"Length {} exceeds maximum "@
        + m + "\", value.len()));\n        }\n"@
}

pub open spec fn min_dec_check(m: Text) -> Text {
    "        if value < Decimal::from_str(\""@ + m
        + "\").unwrap() {\n            return Err(format!(\"Value {} is less than minimum "@ + m
        + "\", value));\n        }\n"@
}

pub open spec fn max_dec_check(m: Text) -> Text {
    "        if value > Decimal::from_str(\""@ + m
        + "\").unwrap() {\n            return Err(format!(\"Value {} exceeds maximum "@ + m
        + "\", value));\n        }\n"@
}

pub open spec fn min_int_check(m: Text, base: Text) -> Text {
    "        if value < "@ + m + "_"@ + base
        + " {\n            return Err(format!(\"Value {} is less than minimum "@ + m
        + "\", value));\n        }\n"@
}

pub open spec fn max_int_check(m: Text, base: Text) -> Text {
    "        if value > "@ + m + "_"@ + base + " {\n            return Err(format!(\"Value {} exceeds maximum "@
        + m + "\", value));\n        }\n"@
}

pub open spec fn opt_check<T>(o: Option<T>, f: spec_fn(T) -> Text) -> Text {
    match o {
        Some(x) => f(x),
        None => Seq::empty(),
    }
}

/// The bound checks of `try_new` for a newtype over `base`.
pub open spec fn try_new_checks(st: SimpleTypeModel, base: Text) -> Text {
    if base == "String"@ {
        opt_check(st.min_length, |m: u64| min_len_check(decimal(m as nat))) + opt_check(
            st.max_length,
            |m: u64| max_len_check(decimal(m as nat)),
        )
    } else if base == "Decimal"@ {
        opt_check(st.min_inclusive, |m: Text| min_dec_check(m)) + opt_check(
            st.max_inclusive,
            |m: Text| max_dec_check(m),
        )
    } else {
        opt_check(st.min_inclusive, |m: Text| min_int_check(m, base)) + opt_check(
            st.max_inclusive,
            |m: Text| max_int_check(m, base),
        )
    }
}

/// A validating constructor `try_new` for the newtype `tname` over `base`.
pub open spec fn try_new_text(st: SimpleTypeModel, tn: Text, base: Text) -> Text {
    "impl "@ + tn + " {\n"@ + "    /// Creates a new `"@ + tn
        + "`, validating against schema restrictions.\n"@ + "    pub fn try_new(value: "@ + base
        + ") -> Result<Self, String> {\n"@ + try_new_checks(st, base)
        + "        Ok(Self(value))\n"@ + "    }\n"@ + "}\n\n"@
}

/// A restricted simple type without enumerations: a newtype over its base.
pub open spec fn newtype_text(ctx: GenCtx, st: SimpleTypeModel) -> Text {
    let b = resolved_field_type(ctx, st.base);
    let base = if b.len() == 0 {
        "String"@
    } else {
        b
    };
    let tn = sanitized(st.name);
    opt_doc_text(st.doc, ""@) + derive_all_text() + "pub struct "@ + tn + "(pub "@ + base
        + ");\n\n"@ + if has_restrictions(st) && is_primitive(base) {
        try_new_text(st, tn, base)
    } else {
        Seq::empty()
    }
}

// ---------------------------------------------------------------------------
// Enumerations
// ---------------------------------------------------------------------------

pub open spec fn variant_lines(es: Seq<(Text, Option<Text>)>) -> Text
    decreases es.len(),
{
    if es.len() == 0 {
        Seq::empty()
    } else {
        variant_lines(es.drop_last()) + opt_doc_text(es.last().1, "    "@) + "    "@ + variant_name(
            es.last().0,
        ) + ",\n"@
    }
}

pub open spec fn serialize_arms(es: Seq<(Text, Option<Text>)>, tn: Text) -> Text
    decreases es.len(),
{
    if es.len() == 0 {
        Seq::empty()
    } else {
        serialize_arms(es.drop_last(), tn) + "            "@ + tn + "::"@ + variant_name(es.last().0)
            + " => \""@ + es.last().0 + "\",\n"@
    }
}

pub open spec fn deserialize_arms(es: Seq<(Text, Option<Text>)>, tn: Text) -> Text
    decreases es.len(),
{
    if es.len() == 0 {
        Seq::empty()
    } else {
        deserialize_arms(es.drop_last(), tn) + "            \""@ + es.last().0 + "\" => Ok("@ + tn
            + "::"@ + variant_name(es.last().0) + "),\n"@
    }
}

/// An enumeration simple type: a Rust enum that (de)serializes as the bare
/// XSD string value of each variant.
pub open spec fn enum_type_text(st: SimpleTypeModel) -> Text {
    let tn = sanitized(st.name);
    let es = st.enumerations;
    opt_doc_text(st.doc, ""@) + "#[derive(Debug, Clone, PartialEq)]\n"@ + "pub enum "@ + tn
        + " {\n"@ + variant_lines(es) + "}\n\n"@ + "impl Serialize for "@ + tn + " {\n"@
        + "    fn serialize<S: serde::Serializer>(&self, serializer: S) -> Result<S::Ok, S::Error> {\n"@
        + "        serializer.serialize_str(match self {\n"@ + serialize_arms(es, tn)
        + "        })\n"@ + "    }\n"@ + "}\n\n"@ + "impl<'de> Deserialize<'de> for "@ + tn
        + " {\n"@
        + "    fn deserialize<D: serde::Deserializer<'de>>(deserializer: D) -> Result<Self, D::Error> {\n"@
        + "        match String::deserialize(deserializer)?.as_str() {\n"@ + deserialize_arms(es, tn)
        + "            other => Err(serde::de::Error::custom(format!(\"invalid "@ + tn
        + " value {other:?}\"))),\n"@ + "        }\n"@ + "    }\n"@ + "}\n\n"@
}

// ---------------------------------------------------------------------------
// Unions
// ---------------------------------------------------------------------------

/// What `format!("{:?}", s)` writes for a string `s`: `s` quoted and escaped
/// as a Rust string literal.
pub uninterp spec fn debug_str(s: Seq<char>) -> Seq<char>;

/// Formats `s` with `Debug` (std), named `debug_str`.
#[verifier::external_body]
fn debug_quoted(s: &str) -> (r: String)
    ensures
        r@ == debug_str(s@),
{
    format!("{s:?}")
}

/// The values of a union's member types in order, or `None` when a member is
/// not a known enumeration.
pub open spec fn member_values(ctx: GenCtx, ms: Seq<Text>) -> Option<Seq<Text>>
    decreases ms.len(),
{
    if ms.len() == 0 {
        Some(Seq::empty())
    } else {
        match member_values(ctx, ms.drop_last()) {
            None => None,
            Some(vs) => if ctx.enums.contains_key(ms.last()) {
                Some(vs + ctx.enums[ms.last()])
            } else {
                None
            },
        }
    }
}

/// The union's full set of allowed values, or `None` when it cannot be
/// enumerated: a union is enumerable only if every member type is a known
/// enumeration and the set is not empty.
pub open spec fn union_values(ctx: GenCtx, st: SimpleTypeModel) -> Option<Seq<Text>> {
    if st.member_types.len() == 0 {
        None
    } else {
        let own = st.enumerations.map_values(|e: (Text, Option<Text>)| e.0);
        match member_values(ctx, st.member_types) {
            None => None,
            Some(vs) => if (own + vs).len() == 0 {
                None
            } else {
                Some(own + vs)
            },
        }
    }
}

pub open spec fn allowed_lines(vs: Seq<Text>) -> Text
    decreases vs.len(),
{
    if vs.len() == 0 {
        Seq::empty()
    } else {
        allowed_lines(vs.drop_last()) + "        "@ + debug_str(vs.last()) + ",\n"@
    }
}

/// A union whose value set is known: a `String` newtype with its `ALLOWED`
/// values and a deserializer that rejects anything else.
pub open spec fn union_validated_text(tn: Text, vs: Seq<Text>) -> Text {
    "#[derive(Debug, Clone, PartialEq, Serialize)]\n"@ + "pub struct "@ + tn
        + "(pub String);\n\n"@ + "impl "@ + tn + " {\n"@
        + "    /// Every value this union accepts.\n"@
        + "    pub const ALLOWED: &'static [&'static str] = &[\n"@ + allowed_lines(vs)
        + "    ];\n"@ + "}\n\n"@ + "impl<'de> Deserialize<'de> for "@ + tn + " {\n"@
        + "    fn deserialize<D: serde::Deserializer<'de>>(deserializer: D) -> Result<Self, D::Error> {\n"@
        + "        let s = String::deserialize(deserializer)?;\n"@
        + "        if Self::ALLOWED.contains(&s.as_str()) {\n"@ + "            Ok("@ + tn
        + "(s))\n"@ + "        } else {\n"@
        + "            Err(serde::de::Error::custom(format!(\"invalid "@ + tn
        + " value {s:?}\")))\n"@ + "        }\n"@ + "    }\n"@ + "}\n\n"@
}

/// A union: a `String` newtype, validated on deserialization when its value
/// set is known.
pub open spec fn union_text(ctx: GenCtx, st: SimpleTypeModel) -> Text {
    let tn = sanitized(st.name);
    opt_doc_text(st.doc, ""@) + match union_values(ctx, st) {
        None => derive_all_text() + "pub struct "@ + tn + "(pub String);\n\n"@,
        Some(vs) => union_validated_text(tn, vs),
    }
}

/// The text emitted for a simple type.
pub open spec fn simple_type_text(ctx: GenCtx, st: SimpleTypeModel) -> Text {
    if st.is_union {
        union_text(ctx, st)
    } else if st.enumerations.len() > 0 {
        enum_type_text(st)
    } else {
        newtype_text(ctx, st)
    }
}

pub fn decimal_string(n: u128) -> (r: String)
    ensures
        r@ == decimal(n as nat),
{
    let mut r = String::new();
    push_decimal(&mut r, n);
    assert(r@ =~= decimal(n as nat));
    r
}

/// Appends `a + m + b + m + c`.
fn push_check(t: &mut String, a: &str, m: &str, b: &str, c: &str)
    ensures
        final(t)@ == old(t)@ + (a@ + m@ + b@ + m@ + c@),
{
    push_str(t, a);
    push_str(t, m);
    push_str(t, b);
    push_str(t, m);
    push_str(t, c);
    assert(final(t)@ =~= old(t)@ + (a@ + m@ + b@ + m@ + c@));
}

/// Appends `a + m + "_" + base + b + m + c`.
fn push_int_check(t: &mut String, a: &str, m: &str, base: &str, b: &str, c: &str)
    ensures
        final(t)@ == old(t)@ + (a@ + m@ + "_"@ + base@ + b@ + m@ + c@),
{
    push_str(t, a);
    push_str(t, m);
    push_str(t, "_");
    push_str(t, base);
    push_str(t, b);
    push_str(t, m);
    push_str(t, c);
    assert(final(t)@ =~= old(t)@ + (a@ + m@ + "_"@ + base@ + b@ + m@ + c@));
}

fn try_new_checks_exec(st: &SimpleTypeDef, base: &str) -> (r: String)
    ensures
        r@ == try_new_checks(simple_view(*st), base@),
{
    let ghost sv = simple_view(*st);
    let mut t = String::new();
    if str_eq(base, "String") {
        if let Some(min) = st.min_length {
            let m = decimal_string(min as u128);
            push_check(
                &mut t,
                "        if value.len() < ",
                m.as_str(),
                " {\n            return Err(format!(\"Length {} is less than minimum ",
                "\", value.len()));\n        }\n",
            );
        }
        let ghost t1 = t@;
        if let Some(max) = st.max_length {
            let m = decimal_string(max as u128);
            push_check(
                &mut t,
                "        if value.len() > ",
                m.as_str(),
                " {\n            return Err(format!(\"Length {} exceeds maximum ",
                "\", value.len()));\n        }\n",
            );
        }
        assert(t@ =~= t1 + opt_check(sv.max_length, |m: u64| max_len_check(decimal(m as nat))));
    } else if str_eq(base, "Decimal") {
        if let Some(min) = &st.min_inclusive {
            push_check(
                &mut t,
                "        if value < Decimal::from_str(\"",
                min.as_str(),
                "\").unwrap() {\n            return Err(format!(\"Value {} is less than minimum ",
                "\", value));\n        }\n",
            );
        }
        let ghost t1 = t@;
        if let Some(max) = &st.max_inclusive {
            push_check(
                &mut t,
                "        if value > Decimal::from_str(\"",
                max.as_str(),
                "\").unwrap() {\n            return Err(format!(\"Value {} exceeds maximum ",
                "\", value));\n        }\n",
            );
        }
        assert(t@ =~= t1 + opt_check(sv.max_inclusive, |m: Text| max_dec_check(m)));
    } else {
        if let Some(min) = &st.min_inclusive {
            push_int_check(
                &mut t,
                "        if value < ",
                min.as_str(),
                base,
                " {\n            return Err(format!(\"Value {} is less than minimum ",
                "\", value));\n        }\n",
            );
        }
        let ghost t1 = t@;
        if let Some(max) = &st.max_inclusive {
            push_int_check(
                &mut t,
                "        if value > ",
                max.as_str(),
                base,
                " {\n            return Err(format!(\"Value {} exceeds maximum ",
                "\", value));\n        }\n",
            );
        }
        assert(t@ =~= t1 + opt_check(sv.max_inclusive, |m: Text| max_int_check(m, base@)));
    }
    t
}

impl CodeGenerator {
    fn emit_try_new(&mut self, st: &SimpleTypeDef, tname: &str, base: &str)
        ensures
            final(self).output@ == old(self).output@ + try_new_text(
                simple_view(*st),
                tname@,
                base@,
            ),
            final(self).same_tables(old(self)),
    {
        let mut t = String::new();
        push_str(&mut t, "impl ");
        push_str(&mut t, tname);
        push_str(&mut t, " {\n");
        push_str(&mut t, "    /// Creates a new `");
        push_str(&mut t, tname);
        push_str(&mut t, "`, validating against schema restrictions.\n");
        push_str(&mut t, "    pub fn try_new(value: ");
        push_str(&mut t, base);
        push_str(&mut t, ") -> Result<Self, String> {\n");
        let checks = try_new_checks_exec(st, base);
        push_str(&mut t, checks.as_str());
        push_str(&mut t, "        Ok(Self(value))\n");
        push_str(&mut t, "    }\n");
        push_str(&mut t, "}\n\n");
        assert(t@ =~= try_new_text(simple_view(*st), tname@, base@));
        push_str(&mut self.output, t.as_str());
    }

    #[verifier::rlimit(30)]
    fn emit_newtype(&mut self, st: &SimpleTypeDef)
        requires
            old(self).wf(),
        ensures
            final(self).output@ == old(self).output@ + newtype_text(
                old(self).ctx(),
                simple_view(*st),
            ),
            final(self).same_tables(old(self)),
            final(self).wf(),
    {
        let b = self.resolve_field_type(st.base.as_str());
        let base = if b.as_str().is_empty() {
            crate::text::owned("String")
        } else {
            b
        };
        let ghost start = self.output@;
        emit_opt_doc(&mut self.output, &st.doc, "");
        push_derive_all(&mut self.output);
        let tname = sanitize_type_name(st.name.as_str());
        push_str(&mut self.output, "pub struct ");
        push_str(&mut self.output, tname.as_str());
        push_str(&mut self.output, "(pub ");
        push_str(&mut self.output, base.as_str());
        push_str(&mut self.output, ");\n\n");
        let ghost mid = self.output@;
        if has_try_new_restrictions(st) && is_rust_primitive(base.as_str()) {
            self.emit_try_new(st, tname.as_str(), base.as_str());
        }
        assert(self.output@ =~= start + newtype_text(old(self).ctx(), simple_view(*st)));
    }

    fn emit_enum_type(&mut self, st: &SimpleTypeDef)
        ensures
            final(self).output@ == old(self).output@ + enum_type_text(simple_view(*st)),
            final(self).same_tables(old(self)),
    {
        let ghost es = simple_view(*st).enumerations;
        let tname = sanitize_type_name(st.name.as_str());
        let tn = tname.as_str();
        let mut t = String::new();
        emit_opt_doc(&mut t, &st.doc, "");
        push_str(&mut t, "#[derive(Debug, Clone, PartialEq)]\n");
        push_str(&mut t, "pub enum ");
        push_str(&mut t, tn);
        push_str(&mut t, " {\n");
        let mut i: usize = 0;
        while i < st.enumerations.len()
            invariant
                es == simple_view(*st).enumerations,
                es.len() == st.enumerations@.len(),
                i <= st.enumerations@.len(),
                t@ == opt_doc_text(simple_view(*st).doc, ""@) + "#[derive(Debug, Clone, PartialEq)]\n"@
                    + "pub enum "@ + tn@ + " {\n"@ + variant_lines(es.subrange(0, i as int)),
            decreases st.enumerations.len() - i,
        {
            let ghost before = t@;
            let (val, doc) = &st.enumerations[i];
            let variant = enum_variant_name(val.as_str());
            emit_opt_doc(&mut t, doc, "    ");
            push_str(&mut t, "    ");
            push_str(&mut t, variant.as_str());
            push_str(&mut t, ",\n");
            assert(es.subrange(0, i + 1).drop_last() =~= es.subrange(0, i as int));
            assert(es[i as int] == crate::types::enum_view(st.enumerations@[i as int]));
            i = i + 1;
            assert(t@ =~= before + (opt_doc_text(es[i - 1].1, "    "@) + "    "@ + variant_name(
                es[i - 1].0,
            ) + ",\n"@));
        }
        assert(es.subrange(0, i as int) =~= es);
        push_str(&mut t, "}\n\n");
        let ghost part1 = t@;
        push_str(&mut t, "impl Serialize for ");
        push_str(&mut t, tn);
        push_str(&mut t, " {\n");
        push_str(
            &mut t,
            "    fn serialize<S: serde::Serializer>(&self, serializer: S) -> Result<S::Ok, S::Error> {\n",
        );
        push_str(&mut t, "        serializer.serialize_str(match self {\n");
        let ghost part2 = t@;
        let mut i: usize = 0;
        while i < st.enumerations.len()
            invariant
                es == simple_view(*st).enumerations,
                es.len() == st.enumerations@.len(),
                i <= st.enumerations@.len(),
                t@ == part2 + serialize_arms(es.subrange(0, i as int), tn@),
            decreases st.enumerations.len() - i,
        {
            let ghost before = t@;
            let val = &st.enumerations[i].0;
            let variant = enum_variant_name(val.as_str());
            push_str(&mut t, "            ");
            push_str(&mut t, tn);
            push_str(&mut t, "::");
            push_str(&mut t, variant.as_str());
            push_str(&mut t, " => \"");
            push_str(&mut t, val.as_str());
            push_str(&mut t, "\",\n");
            assert(es.subrange(0, i + 1).drop_last() =~= es.subrange(0, i as int));
            assert(es[i as int] == crate::types::enum_view(st.enumerations@[i as int]));
            i = i + 1;
            assert(t@ =~= before + ("            "@ + tn@ + "::"@ + variant_name(es[i - 1].0)
                + " => \""@ + es[i - 1].0 + "\",\n"@));
        }
        assert(es.subrange(0, i as int) =~= es);
        push_str(&mut t, "        })\n");
        push_str(&mut t, "    }\n");
        push_str(&mut t, "}\n\n");
        push_str(&mut t, "impl<'de> Deserialize<'de> for ");
        push_str(&mut t, tn);
        push_str(&mut t, " {\n");
        push_str(
            &mut t,
            "    fn deserialize<D: serde::Deserializer<'de>>(deserializer: D) -> Result<Self, D::Error> {\n",
        );
        push_str(&mut t, "        match String::deserialize(deserializer)?.as_str() {\n");
        let ghost part3 = t@;
        let mut i: usize = 0;
        while i < st.enumerations.len()
            invariant
                es == simple_view(*st).enumerations,
                es.len() == st.enumerations@.len(),
                i <= st.enumerations@.len(),
                t@ == part3 + deserialize_arms(es.subrange(0, i as int), tn@),
            decreases st.enumerations.len() - i,
        {
            let ghost before = t@;
            let val = &st.enumerations[i].0;
            let variant = enum_variant_name(val.as_str());
            push_str(&mut t, "            \"");
            push_str(&mut t, val.as_str());
            push_str(&mut t, "\" => Ok(");
            push_str(&mut t, tn);
            push_str(&mut t, "::");
            push_str(&mut t, variant.as_str());
            push_str(&mut t, "),\n");
            assert(es.subrange(0, i + 1).drop_last() =~= es.subrange(0, i as int));
            assert(es[i as int] == crate::types::enum_view(st.enumerations@[i as int]));
            i = i + 1;
            assert(t@ =~= before + ("            \""@ + es[i - 1].0 + "\" => Ok("@ + tn@ + "::"@
                + variant_name(es[i - 1].0) + "),\n"@));
        }
        assert(es.subrange(0, i as int) =~= es);
        push_str(&mut t, "            other => Err(serde::de::Error::custom(format!(\"invalid ");
        push_str(&mut t, tn);
        push_str(&mut t, " value {other:?}\"))),\n");
        push_str(&mut t, "        }\n");
        push_str(&mut t, "    }\n");
        push_str(&mut t, "}\n\n");
        assert(t@ =~= enum_type_text(simple_view(*st)));
        push_str(&mut self.output, t.as_str());
    }
}

proof fn lemma_member_values_none(ctx: GenCtx, ms: Seq<Text>, k: int)
    requires
        0 <= k <= ms.len(),
        member_values(ctx, ms.subrange(0, k)) is None,
    ensures
        member_values(ctx, ms) is None,
    decreases ms.len() - k,
{
    if k < ms.len() {
        assert(ms.subrange(0, k + 1).drop_last() =~= ms.subrange(0, k));
        lemma_member_values_none(ctx, ms, k + 1);
    } else {
        assert(ms.subrange(0, k) =~= ms);
    }
}

/// Appends copies of the strings of `src` to `dst`.
fn extend_strings(dst: &mut Vec<String>, src: &Vec<String>)
    ensures
        texts(final(dst)@) == texts(old(dst)@) + texts(src@),
{
    let mut i: usize = 0;
    while i < src.len()
        invariant
            i <= src.len(),
            texts(dst@) == texts(old(dst)@) + texts(src@.subrange(0, i as int)),
        decreases src.len() - i,
    {
        let ghost before = dst@;
        dst.push(src[i].clone());
        assert(texts(dst@) =~= texts(before).push(src@[i as int]@));
        assert(texts(src@.subrange(0, i + 1)) =~= texts(src@.subrange(0, i as int)).push(
            src@[i as int]@,
        ));
        i = i + 1;
    }
    assert(src@.subrange(0, i as int) =~= src@);
}

fn allowed_lines_exec(values: &Vec<String>) -> (r: String)
    ensures
        r@ == allowed_lines(texts(values@)),
{
    let ghost vs = texts(values@);
    let mut t = String::new();
    let mut i: usize = 0;
    while i < values.len()
        invariant
            i <= values@.len(),
            vs == texts(values@),
            t@ == allowed_lines(vs.subrange(0, i as int)),
        decreases values.len() - i,
    {
        let ghost before = t@;
        let q = debug_quoted(values[i].as_str());
        push_str(&mut t, "        ");
        push_str(&mut t, q.as_str());
        push_str(&mut t, ",\n");
        assert(vs.subrange(0, i + 1).drop_last() =~= vs.subrange(0, i as int));
        assert(vs[i as int] == values@[i as int]@);
        i = i + 1;
        assert(t@ =~= before + ("        "@ + debug_str(vs[i - 1]) + ",\n"@));
    }
    assert(vs.subrange(0, i as int) =~= vs);
    t
}

fn union_validated(tn: &str, values: &Vec<String>) -> (r: String)
    ensures
        r@ == union_validated_text(tn@, texts(values@)),
{
    let mut t = String::new();
    push_str(&mut t, "#[derive(Debug, Clone, PartialEq, Serialize)]\n");
    push_str(&mut t, "pub struct ");
    push_str(&mut t, tn);
    push_str(&mut t, "(pub String);\n\n");
    push_str(&mut t, "impl ");
    push_str(&mut t, tn);
    push_str(&mut t, " {\n");
    push_str(&mut t, "    /// Every value this union accepts.\n");
    push_str(&mut t, "    pub const ALLOWED: &'static [&'static str] = &[\n");
    let lines = allowed_lines_exec(values);
    push_str(&mut t, lines.as_str());
    push_str(&mut t, "    ];\n");
    push_str(&mut t, "}\n\n");
    push_str(&mut t, "impl<'de> Deserialize<'de> for ");
    push_str(&mut t, tn);
    push_str(&mut t, " {\n");
    push_str(
        &mut t,
        "    fn deserialize<D: serde::Deserializer<'de>>(deserializer: D) -> Result<Self, D::Error> {\n",
    );
    push_str(&mut t, "        let s = String::deserialize(deserializer)?;\n");
    push_str(&mut t, "        if Self::ALLOWED.contains(&s.as_str()) {\n");
    push_str(&mut t, "            Ok(");
    push_str(&mut t, tn);
    push_str(&mut t, "(s))\n");
    push_str(&mut t, "        } else {\n");
    push_str(&mut t, "            Err(serde::de::Error::custom(format!(\"invalid ");
    push_str(&mut t, tn);
    push_str(&mut t, " value {s:?}\")))\n");
    push_str(&mut t, "        }\n");
    push_str(&mut t, "    }\n");
    push_str(&mut t, "}\n\n");
    assert(t@ =~= union_validated_text(tn@, texts(values@)));
    t
}

impl CodeGenerator {
    /// The union's full set of allowed values, or `None` when it cannot be
    /// enumerated (a member type is not a known enumeration).
    pub fn union_value_set(&self, st: &SimpleTypeDef) -> (r: Option<Vec<String>>)
        requires
            self.wf(),
        ensures
            r is Some == union_values(self.ctx(), simple_view(*st)) is Some,
            r matches Some(v) ==> texts(v@) == union_values(self.ctx(), simple_view(*st))->0,
    {
        let ghost sv = simple_view(*st);
        let ghost ctx = self.ctx();
        if st.member_types.len() == 0 {
            return None;
        }
        let ghost own = sv.enumerations.map_values(|e: (Text, Option<Text>)| e.0);
        let mut values: Vec<String> = Vec::new();
        let mut i: usize = 0;
        while i < st.enumerations.len()
            invariant
                i <= st.enumerations@.len(),
                sv == simple_view(*st),
                own == sv.enumerations.map_values(|e: (Text, Option<Text>)| e.0),
                texts(values@) == own.subrange(0, i as int),
            decreases st.enumerations.len() - i,
        {
            let ghost before = values@;
            values.push(st.enumerations[i].0.clone());
            assert(texts(values@) =~= texts(before).push(st.enumerations@[i as int].0@));
            assert(own.subrange(0, i + 1) =~= own.subrange(0, i as int).push(own[i as int]));
            i = i + 1;
        }
        assert(own.subrange(0, i as int) =~= own);
        let ghost ms = sv.member_types;
        let mut k: usize = 0;
        while k < st.member_types.len()
            invariant
                k <= st.member_types@.len(),
                self.wf(),
                ctx == self.ctx(),
                sv == simple_view(*st),
                ms == sv.member_types,
                ms.len() == st.member_types@.len(),
                member_values(ctx, ms.subrange(0, k as int)) is Some,
                texts(values@) == own + member_values(ctx, ms.subrange(0, k as int))->0,
            decreases st.member_types.len() - k,
        {
            assert(ms.subrange(0, k + 1).drop_last() =~= ms.subrange(0, k as int));
            assert(ms[k as int] == st.member_types@[k as int]@);
            match self.simple_type_enums.get(st.member_types[k].as_str()) {
                Some(member_values) => {
                    extend_strings(&mut values, member_values);
                },
                None => {
                    proof {
                        lemma_member_values_none(ctx, ms, k + 1);
                    }
                    return None;
                },
            }
            k = k + 1;
        }
        assert(ms.subrange(0, k as int) =~= ms);
        if values.len() == 0 {
            return None;
        }
        Some(values)
    }

    fn emit_union_newtype(&mut self, st: &SimpleTypeDef)
        requires
            old(self).wf(),
        ensures
            final(self).output@ == old(self).output@ + union_text(old(self).ctx(), simple_view(*st)),
            final(self).same_tables(old(self)),
    {
        let ghost sv = simple_view(*st);
        let ghost ctx = self.ctx();
        let tname = sanitize_type_name(st.name.as_str());
        let tn = tname.as_str();
        let mut t = String::new();
        emit_opt_doc(&mut t, &st.doc, "");
        match self.union_value_set(st) {
            None => {
                push_derive_all(&mut t);
                push_str(&mut t, "pub struct ");
                push_str(&mut t, tn);
                push_str(&mut t, "(pub String);\n\n");
            },
            Some(values) => {
                let body = union_validated(tn, &values);
                push_str(&mut t, body.as_str());
            },
        }
        assert(t@ =~= union_text(ctx, sv));
        push_str(&mut self.output, t.as_str());
    }

    /// Emits a simple type: a union newtype, an enumeration, or a newtype.
    pub fn emit_simple_type(&mut self, st: &SimpleTypeDef)
        requires
            old(self).wf(),
        ensures
            final(self).output@ == old(self).output@ + simple_type_text(
                old(self).ctx(),
                simple_view(*st),
            ),
            final(self).same_tables(old(self)),
            final(self).wf(),
    {
        if st.is_union {
            self.emit_union_newtype(st);
        } else if st.enumerations.len() > 0 {
            self.emit_enum_type(st);
        } else {
            self.emit_newtype(st);
        }
    }
}

} // verus!
