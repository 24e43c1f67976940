//! Emission of complex types: structs, their fields and attributes, and the
//! enums of their choices.
use vstd::prelude::*;

use super::emit::{decimal_string, derive_all_text, opt_doc_text, push_derive_all};
use super::util::{sanitize_type_name, sanitized};
use super::{element_field_type, resolved_field_type, CodeGenerator, GenCtx};
use crate::naming::{snake_case, to_snake_case, to_upper_camel_case, upper_camel_case};
use crate::text::{decimal, push_str, str_eq};
use crate::types::{
    attr_view, attrs_view, complex_view, copy_attrs, copy_element, copy_elements, copy_member,
    element_view, elements_view, lemma_elements_view_len, lemma_members_view_append,
    lemma_members_view_len, lemma_members_view_push, member_view, members_view, AttributeDef,
    AttributeModel, ChoiceGroup, ChoiceModel, ComplexTypeDef, ComplexTypeModel, ElementDef,
    ElementModel, MemberModel, SequenceMember, Text, texts, choice_view, MaxOccurs,
};

verus! {

// ---------------------------------------------------------------------------
// Model-group expansion
// ---------------------------------------------------------------------------

/// The member made optional (its group reference had `minOccurs="0"`).
pub open spec fn optional_member(m: MemberModel) -> MemberModel {
    match m {
        MemberModel::Element(e) => MemberModel::Element(ElementModel { min_occurs: 0, ..e }),
        MemberModel::Choice(c) => MemberModel::Choice(ChoiceModel { min_occurs: 0, ..c }),
        MemberModel::GroupRef { name, min_occurs } => MemberModel::GroupRef {
            name,
            min_occurs: 0,
        },
    }
}

pub open spec fn all_optional(ms: Seq<MemberModel>) -> Seq<MemberModel> {
    ms.map_values(|m: MemberModel| optional_member(m))
}

/// `ms` with every `<xsd:group ref>` replaced by the (recursively expanded)
/// members of the group it names. A reference to an unknown group, or to a
/// group already being expanded (a cycle), contributes nothing. `fuel`
/// bounds the nesting depth; starting at the number of groups, it never
/// runs out before every group on the path has been used.
pub open spec fn expand(ctx: GenCtx, ms: Seq<MemberModel>, stack: Seq<Text>, fuel: nat) -> Seq<
    MemberModel,
>
    decreases fuel, ms.len(),
{
    if ms.len() == 0 {
        Seq::empty()
    } else {
        let prev = expand(ctx, ms.drop_last(), stack, fuel);
        match ms.last() {
            MemberModel::GroupRef { name, min_occurs } => {
                if stack.contains(name) || !ctx.model_groups.contains_key(name) || fuel == 0 {
                    prev
                } else {
                    let e = expand(
                        ctx,
                        ctx.model_groups[name],
                        stack.push(name),
                        (fuel - 1) as nat,
                    );
                    prev + if min_occurs == 0 {
                        all_optional(e)
                    } else {
                        e
                    }
                }
            },
            other => prev.push(other),
        }
    }
}

/// The members of a complex type after group expansion.
pub open spec fn expanded_members(ctx: GenCtx, ms: Seq<MemberModel>) -> Seq<MemberModel> {
    expand(ctx, ms, Seq::empty(), ctx.model_groups.dom().len())
}

pub open spec fn is_group_ref(m: MemberModel) -> bool {
    m is GroupRef
}

/// Expansion leaves no group reference behind.
pub proof fn lemma_expand_no_group_refs(ctx: GenCtx, ms: Seq<MemberModel>, stack: Seq<Text>, fuel: nat)
    ensures
        forall|i: int|
            0 <= i < expand(ctx, ms, stack, fuel).len() ==> !is_group_ref(
                #[trigger] expand(ctx, ms, stack, fuel)[i],
            ),
    decreases fuel, ms.len(),
{
    if ms.len() > 0 {
        let prev = expand(ctx, ms.drop_last(), stack, fuel);
        lemma_expand_no_group_refs(ctx, ms.drop_last(), stack, fuel);
        match ms.last() {
            MemberModel::GroupRef { name, min_occurs } => {
                if !(stack.contains(name) || !ctx.model_groups.contains_key(name) || fuel == 0) {
                    let inner = ctx.model_groups[name];
                    lemma_expand_no_group_refs(ctx, inner, stack.push(name), (fuel - 1) as nat);
                    let e = expand(ctx, inner, stack.push(name), (fuel - 1) as nat);
                    let whole = expand(ctx, ms, stack, fuel);
                    assert forall|i: int| 0 <= i < whole.len() implies !is_group_ref(
                        #[trigger] whole[i],
                    ) by {
                        if i >= prev.len() {
                            if min_occurs == 0 {
                                assert(whole[i] == optional_member(e[i - prev.len()]));
                            } else {
                                assert(whole[i] == e[i - prev.len()]);
                            }
                        } else {
                            assert(whole[i] == prev[i]);
                        }
                    }
                }
            },
            _ => {
                let whole = expand(ctx, ms, stack, fuel);
                assert forall|i: int| 0 <= i < whole.len() implies !is_group_ref(
                    #[trigger] whole[i],
                ) by {
                    if i < prev.len() {
                        assert(whole[i] == prev[i]);
                    }
                }
            },
        }
    }
}

/// Force a member to be optional (used when an enclosing group ref has
/// `minOccurs="0"`): the group may be absent, so each expanded field is too.
pub fn make_member_optional(member: &mut SequenceMember)
    ensures
        member_view(*final(member)) == optional_member(member_view(*old(member))),
{
    match member {
        SequenceMember::Element(elem) => {
            elem.min_occurs = 0;
        },
        SequenceMember::Choice(choice) => {
            choice.min_occurs = 0;
        },
        SequenceMember::GroupRef { min_occurs, .. } => {
            *min_occurs = 0;
        },
    }
    proof {
        match *old(member) {
            SequenceMember::Choice(c) => {
                assert(member_view(*final(member)) =~= optional_member(member_view(*old(member))));
            },
            _ => {},
        }
    }
}

fn stack_contains(stack: &Vec<String>, name: &str) -> (r: bool)
    ensures
        r == texts(stack@).contains(name@),
{
    let mut i: usize = 0;
    while i < stack.len()
        invariant
            i <= stack.len(),
            forall|j: int| 0 <= j < i ==> stack@[j]@ != name@,
        decreases stack.len() - i,
    {
        if str_eq(stack[i].as_str(), name) {
            assert(texts(stack@)[i as int] == name@);
            return true;
        }
        i = i + 1;
    }
    proof {
        if texts(stack@).contains(name@) {
            let j = choose|j: int| 0 <= j < texts(stack@).len() && texts(stack@)[j] == name@;
            assert(stack@[j]@ == name@);
        }
    }
    false
}

impl CodeGenerator {
    /// Recursively expand `<xsd:group ref>` members from the model-group
    /// registry, yielding a flat member list of only elements and choices. A
    /// ref with `minOccurs="0"` makes its expanded members optional. Cyclic
    /// refs (which valid XSD never has) are skipped.
    pub fn resolve_group_refs(&self, members: &Vec<SequenceMember>) -> (r: Vec<SequenceMember>)
        requires
            self.wf(),
        ensures
            members_view(r@) == expanded_members(self.ctx(), members_view(members@)),
    {
        let mut out: Vec<SequenceMember> = Vec::new();
        let mut stack: Vec<String> = Vec::new();
        let fuel = self.model_groups.len();
        assert(self.ctx().model_groups.dom() =~= self.model_groups.view().dom());
        self.expand_members(members, &mut out, &mut stack, fuel);
        assert(texts(stack@) =~= Seq::<Text>::empty());
        assert(members_view(Seq::<SequenceMember>::empty()) + expanded_members(
            self.ctx(),
            members_view(members@),
        ) =~= expanded_members(self.ctx(), members_view(members@)));
        out
    }

    fn expand_members(
        &self,
        members: &Vec<SequenceMember>,
        out: &mut Vec<SequenceMember>,
        stack: &mut Vec<String>,
        fuel: usize,
    )
        requires
            self.wf(),
        ensures
            members_view(final(out)@) == members_view(old(out)@) + expand(
                self.ctx(),
                members_view(members@),
                texts(old(stack)@),
                fuel as nat,
            ),
            texts(final(stack)@) == texts(old(stack)@),
        decreases fuel, 0int,
    {
        let ghost ctx = self.ctx();
        let ghost mv = members_view(members@);
        let ghost st = texts(stack@);
        let ghost out0 = members_view(out@);
        proof {
            lemma_members_view_len(members@);
        }
        let mut i: usize = 0;
        while i < members.len()
            invariant
                self.wf(),
                ctx == self.ctx(),
                mv == members_view(members@),
                mv.len() == members@.len(),
                forall|j: int| 0 <= j < members@.len() ==> #[trigger] mv[j] == member_view(members@[j]),
                i <= members@.len(),
                texts(stack@) == st,
                members_view(out@) == out0 + expand(ctx, mv.subrange(0, i as int), st, fuel as nat),
            decreases members.len() - i,
        {
            assert(mv.subrange(0, i + 1).drop_last() =~= mv.subrange(0, i as int));
            assert(mv.subrange(0, i + 1).last() == member_view(members@[i as int]));
            let ghost prev_out = out@;
            match &members[i] {
                SequenceMember::GroupRef { name, min_occurs } => {
                    let skip = stack_contains(stack, name.as_str()) || fuel == 0;
                    if !skip {
                        match self.model_groups.get(name.as_str()) {
                            Some(group_members) => {
                                let ghost before_push = stack@;
                                stack.push(name.clone());
                                assert(texts(stack@) =~= st.push(name@));
                                let mut expanded: Vec<SequenceMember> = Vec::new();
                                self.expand_members(group_members, &mut expanded, stack, fuel - 1);
                                let ghost e = expand(
                                    ctx,
                                    members_view(group_members@),
                                    st.push(name@),
                                    (fuel - 1) as nat,
                                );
                                assert(members_view(expanded@) =~= members_view(
                                    Seq::<SequenceMember>::empty(),
                                ) + e);
                                let ghost after_call = stack@;
                                assert(texts(after_call).len() == st.len() + 1);
                                stack.pop();
                                assert(stack@ =~= after_call.drop_last());
                                assert forall|j: int| 0 <= j < st.len() implies texts(stack@)[j]
                                    == st[j] by {
                                    assert(texts(stack@)[j] == stack@[j]@);
                                    assert(stack@[j] == after_call[j]);
                                    assert(texts(after_call)[j] == st.push(name@)[j]);
                                }
                                assert(texts(stack@) =~= st);
                                if *min_occurs == 0 {
                                    self.push_all_optional(&expanded, out);
                                    assert(members_view(out@) =~= members_view(prev_out)
                                        + all_optional(e));
                                } else {
                                    let ghost out_before = out@;
                                    let ghost ex = expanded@;
                                    let mut moved = expanded;
                                    out.append(&mut moved);
                                    proof {
                                        lemma_members_view_append(out_before, ex);
                                    }
                                    assert(members_view(out@) =~= members_view(prev_out) + e);
                                }
                            },
                            None => {},
                        }
                    }
                },
                other => {
                    let c = copy_member(other);
                    out.push(c);
                    proof {
                        lemma_members_view_push(prev_out, c);
                    }
                },
            }
            i = i + 1;
        }
        assert(mv.subrange(0, i as int) =~= mv);
    }

    fn push_all_optional(&self, src: &Vec<SequenceMember>, out: &mut Vec<SequenceMember>)
        ensures
            members_view(final(out)@) == members_view(old(out)@) + all_optional(
                members_view(src@),
            ),
    {
        let ghost sv = members_view(src@);
        proof {
            lemma_members_view_len(src@);
        }
        let mut i: usize = 0;
        while i < src.len()
            invariant
                i <= src@.len(),
                sv == members_view(src@),
                sv.len() == src@.len(),
                forall|j: int| 0 <= j < src@.len() ==> #[trigger] sv[j] == member_view(src@[j]),
                members_view(out@) == members_view(old(out)@) + all_optional(
                    sv.subrange(0, i as int),
                ),
            decreases src.len() - i,
        {
            let ghost before = out@;
            let mut c = copy_member(&src[i]);
            make_member_optional(&mut c);
            out.push(c);
            proof {
                lemma_members_view_push(before, c);
                assert(all_optional(sv.subrange(0, i + 1)) =~= all_optional(
                    sv.subrange(0, i as int),
                ).push(optional_member(sv[i as int])));
            }
            i = i + 1;
        }
        assert(sv.subrange(0, i as int) =~= sv);
    }
}

// ---------------------------------------------------------------------------
// Fields, attributes, choices
// ---------------------------------------------------------------------------

/// A repeated element: `maxOccurs` unbounded or above one.
pub open spec fn is_repeated(e: ElementModel) -> bool {
    match e.max_occurs {
        crate::types::MaxOccurs::Unbounded => true,
        crate::types::MaxOccurs::Bounded(n) => n > 1,
    }
}

/// Repeated elements become `Vec` (defaulted, skipped when empty); optional
/// ones `Option` (skipped when `None`); others a plain required field.
pub open spec fn field_text(ctx: GenCtx, e: ElementModel) -> Text {
    if e.name.len() == 0 {
        Seq::empty()
    } else {
        let rt = element_field_type(ctx, e);
        let rep = is_repeated(e);
        let opt = !rep && e.min_occurs == 0;
        let ty = if rep {
            "Vec<"@ + rt + ">"@
        } else if opt {
            "Option<"@ + rt + ">"@
        } else {
            rt
        };
        let serde = "    #[serde(rename = \""@ + e.name + "\""@ + (if rep {
            ", default, skip_serializing_if = \"Vec::is_empty\""@
        } else if opt {
            ", skip_serializing_if = \"Option::is_none\""@
        } else {
            Seq::empty()
        }) + ")]"@;
        opt_doc_text(e.doc, "    "@) + serde + "\n    pub "@ + snake_case(e.name) + ": "@ + ty
            + ",\n"@
    }
}

pub open spec fn attribute_text(ctx: GenCtx, a: AttributeModel) -> Text {
    if a.name.len() == 0 {
        Seq::empty()
    } else {
        let rt = resolved_field_type(ctx, a.type_ref);
        let serde = if a.required {
            "    #[serde(rename = \"@"@ + a.name + "\")]"@
        } else {
            "    #[serde(rename = \"@"@ + a.name
                + "\", skip_serializing_if = \"Option::is_none\")]"@
        };
        let ty = if a.required {
            rt
        } else {
            "Option<"@ + rt + ">"@
        };
        serde + "\n    pub "@ + snake_case(a.name) + ": "@ + ty + ",\n"@
    }
}

pub open spec fn attributes_text(ctx: GenCtx, attrs: Seq<AttributeModel>) -> Text
    decreases attrs.len(),
{
    if attrs.len() == 0 {
        Seq::empty()
    } else {
        attributes_text(ctx, attrs.drop_last()) + attribute_text(ctx, attrs.last())
    }
}

/// The variants of a choice enum and the variant names used so far; an
/// element whose variant name was already used is left out.
pub open spec fn choice_variants(ctx: GenCtx, es: Seq<ElementModel>) -> (Text, Seq<Text>)
    decreases es.len(),
{
    if es.len() == 0 {
        (Seq::empty(), Seq::empty())
    } else {
        let (t, seen) = choice_variants(ctx, es.drop_last());
        let e = es.last();
        let v = upper_camel_case(e.name);
        if seen.contains(v) {
            (t, seen)
        } else {
            (
                t + "    #[serde(rename = \""@ + e.name + "\")]\n    "@ + v + "("@
                    + element_field_type(ctx, e) + "),\n"@,
                seen.push(v),
            )
        }
    }
}

pub open spec fn choice_enum_text(ctx: GenCtx, name: Text, c: ChoiceModel) -> Text {
    derive_all_text() + "pub enum "@ + name + " {\n"@ + choice_variants(ctx, c.elements).0
        + "}\n\n"@
}

impl CodeGenerator {
    pub fn emit_field(&mut self, elem: &ElementDef)
        requires
            old(self).wf(),
        ensures
            final(self).output@ == old(self).output@ + field_text(
                old(self).ctx(),
                element_view(*elem),
            ),
            final(self).same_tables(old(self)),
            final(self).wf(),
    {
        let ghost ev = element_view(*elem);
        if elem.name.as_str().is_empty() {
            assert(self.output@ =~= old(self).output@ + field_text(self.ctx(), ev));
            return;
        }
        let field_name = to_snake_case(elem.name.as_str());
        let rust_ty = self.field_type_for_element(elem);
        let rep = match elem.max_occurs {
            crate::types::MaxOccurs::Unbounded => true,
            crate::types::MaxOccurs::Bounded(n) => n > 1,
        };
        let opt = !rep && elem.min_occurs == 0;
        let mut ty = String::new();
        if rep {
            push_str(&mut ty, "Vec<");
            push_str(&mut ty, rust_ty.as_str());
            push_str(&mut ty, ">");
        } else if opt {
            push_str(&mut ty, "Option<");
            push_str(&mut ty, rust_ty.as_str());
            push_str(&mut ty, ">");
        } else {
            push_str(&mut ty, rust_ty.as_str());
        }
        let mut serde = String::new();
        push_str(&mut serde, "    #[serde(rename = \"");
        push_str(&mut serde, elem.name.as_str());
        push_str(&mut serde, "\"");
        let ghost s1 = serde@;
        if rep {
            push_str(&mut serde, ", default, skip_serializing_if = \"Vec::is_empty\"");
        } else if opt {
            push_str(&mut serde, ", skip_serializing_if = \"Option::is_none\"");
        } else {
            assert(serde@ =~= s1 + Seq::<char>::empty());
        }
        push_str(&mut serde, ")]");
        let mut t = String::new();
        crate::codegen::emit::emit_opt_doc(&mut t, &elem.doc, "    ");
        push_str(&mut t, serde.as_str());
        push_str(&mut t, "\n    pub ");
        push_str(&mut t, field_name.as_str());
        push_str(&mut t, ": ");
        push_str(&mut t, ty.as_str());
        push_str(&mut t, ",\n");
        assert(t@ =~= field_text(self.ctx(), ev));
        push_str(&mut self.output, t.as_str());
    }

    fn emit_attribute(&mut self, attr: &AttributeDef)
        requires
            old(self).wf(),
        ensures
            final(self).output@ == old(self).output@ + attribute_text(
                old(self).ctx(),
                attr_view(*attr),
            ),
            final(self).same_tables(old(self)),
            final(self).wf(),
    {
        if attr.name.as_str().is_empty() {
            assert(self.output@ =~= old(self).output@ + attribute_text(self.ctx(), attr_view(*attr)));
            return;
        }
        let rust_ty = self.resolve_field_type(attr.type_ref.as_str());
        let field_name = to_snake_case(attr.name.as_str());
        let mut t = String::new();
        push_str(&mut t, "    #[serde(rename = \"@");
        push_str(&mut t, attr.name.as_str());
        if attr.required {
            push_str(&mut t, "\")]");
        } else {
            push_str(&mut t, "\", skip_serializing_if = \"Option::is_none\")]");
        }
        push_str(&mut t, "\n    pub ");
        push_str(&mut t, field_name.as_str());
        push_str(&mut t, ": ");
        if attr.required {
            push_str(&mut t, rust_ty.as_str());
        } else {
            push_str(&mut t, "Option<");
            push_str(&mut t, rust_ty.as_str());
            push_str(&mut t, ">");
        }
        push_str(&mut t, ",\n");
        assert(t@ =~= attribute_text(self.ctx(), attr_view(*attr)));
        push_str(&mut self.output, t.as_str());
    }

    pub fn emit_attributes(&mut self, attrs: &Vec<AttributeDef>)
        requires
            old(self).wf(),
        ensures
            final(self).output@ == old(self).output@ + attributes_text(
                old(self).ctx(),
                attrs_view(attrs@),
            ),
            final(self).same_tables(old(self)),
            final(self).wf(),
    {
        let ghost av = attrs_view(attrs@);
        let ghost ctx = self.ctx();
        let mut i: usize = 0;
        while i < attrs.len()
            invariant
                i <= attrs@.len(),
                self.wf(),
                self.same_tables(old(self)),
                ctx == self.ctx(),
                av == attrs_view(attrs@),
                self.output@ == old(self).output@ + attributes_text(ctx, av.subrange(0, i as int)),
            decreases attrs.len() - i,
        {
            assert(av.subrange(0, i + 1).drop_last() =~= av.subrange(0, i as int));
            assert(av[i as int] == attr_view(attrs@[i as int]));
            self.emit_attribute(&attrs[i]);
            i = i + 1;
        }
        assert(av.subrange(0, i as int) =~= av);
    }

    pub fn emit_choice_enum(&mut self, name: &str, choice: &ChoiceGroup)
        requires
            old(self).wf(),
        ensures
            final(self).output@ == old(self).output@ + choice_enum_text(
                old(self).ctx(),
                name@,
                choice_view(*choice),
            ),
            final(self).same_tables(old(self)),
            final(self).wf(),
    {
        let ghost ctx = self.ctx();
        let ghost ev = elements_view(choice.elements@);
        proof {
            lemma_elements_view_len(choice.elements@);
        }
        let mut t = String::new();
        push_derive_all(&mut t);
        push_str(&mut t, "pub enum ");
        push_str(&mut t, name);
        push_str(&mut t, " {\n");
        let ghost head = t@;
        // A choice may list the same element name more than once; each maps
        // to the same variant, so emit each only once.
        let mut seen: Vec<String> = Vec::new();
        let mut i: usize = 0;
        while i < choice.elements.len()
            invariant
                self.wf(),
                ctx == self.ctx(),
                i <= choice.elements@.len(),
                ev == elements_view(choice.elements@),
                ev.len() == choice.elements@.len(),
                forall|j: int|
                    0 <= j < choice.elements@.len() ==> #[trigger] ev[j] == element_view(
                        choice.elements@[j],
                    ),
                t@ == head + choice_variants(ctx, ev.subrange(0, i as int)).0,
                texts(seen@) == choice_variants(ctx, ev.subrange(0, i as int)).1,
            decreases choice.elements.len() - i,
        {
            let elem = &choice.elements[i];
            assert(ev.subrange(0, i + 1).drop_last() =~= ev.subrange(0, i as int));
            assert(ev.subrange(0, i + 1).last() == element_view(*elem));
            let variant = to_upper_camel_case(elem.name.as_str());
            if !stack_contains(&seen, variant.as_str()) {
                let rust_ty = self.field_type_for_element(elem);
                let ghost before = t@;
                push_str(&mut t, "    #[serde(rename = \"");
                push_str(&mut t, elem.name.as_str());
                push_str(&mut t, "\")]\n    ");
                push_str(&mut t, variant.as_str());
                push_str(&mut t, "(");
                push_str(&mut t, rust_ty.as_str());
                push_str(&mut t, "),\n");
                let ghost seen_before = seen@;
                seen.push(variant);
                assert(texts(seen@) =~= texts(seen_before).push(upper_camel_case(elem.name@)));
                assert(t@ =~= before + ("    #[serde(rename = \""@ + elem.name@
                    + "\")]\n    "@ + upper_camel_case(elem.name@) + "("@ + element_field_type(
                    ctx,
                    element_view(*elem),
                ) + "),\n"@));
            }
            i = i + 1;
        }
        assert(ev.subrange(0, i as int) =~= ev);
        push_str(&mut t, "}\n\n");
        assert(t@ =~= choice_enum_text(ctx, name@, choice_view(*choice)));
        push_str(&mut self.output, t.as_str());
    }
}

// ---------------------------------------------------------------------------
// Complex types
// ---------------------------------------------------------------------------

pub open spec fn count_choices(ms: Seq<MemberModel>) -> nat
    decreases ms.len(),
{
    if ms.len() == 0 {
        0
    } else {
        count_choices(ms.drop_last()) + if ms.last() is Choice {
            1nat
        } else {
            0nat
        }
    }
}

/// A choice field is optional when the choice is `minOccurs="0"` or every
/// branch element is optional, so that selecting none is valid.
pub open spec fn choice_optional(c: ChoiceModel) -> bool {
    c.min_occurs == 0 || forall|j: int| 0 <= j < c.elements.len() ==> #[trigger] c.elements[j].min_occurs == 0
}

/// Name of the enum for the `k`-th choice of the type named `ct_name`.
pub open spec fn choice_enum_name(ct_name: Text, k: nat) -> Text {
    ct_name + "Choice"@ + decimal(k)
}

/// A choice that may occur more than once.
pub open spec fn choice_repeats(c: ChoiceModel) -> bool {
    match c.max_occurs {
        MaxOccurs::Unbounded => true,
        MaxOccurs::Bounded(n) => n > 1,
    }
}

/// Whether a choice becomes plain fields rather than an enum field: a
/// composite choice always (an enum variant cannot hold a branch that is a
/// sequence); a repeating choice when it is not the struct's only choice,
/// since only that one takes the element content (`$value`) and serde
/// cannot flatten a sequence.
pub open spec fn choice_flattened(c: ChoiceModel, single: bool) -> bool {
    c.composite || (choice_repeats(c) && !single)
}

/// An element of a flattened choice as a field: repeated when the choice
/// repeats, otherwise optional, since another branch may have been chosen.
pub open spec fn flat_element(e: ElementModel, repeats: bool) -> ElementModel {
    if repeats {
        ElementModel { max_occurs: MaxOccurs::Unbounded, ..e }
    } else {
        ElementModel { min_occurs: 0, ..e }
    }
}

/// The fields of a flattened choice and the element names emitted so far;
/// an element whose name was already emitted (it appears in several
/// branches) is declared once.
pub open spec fn flat_fields(ctx: GenCtx, es: Seq<ElementModel>, repeats: bool) -> (Text, Seq<Text>)
    decreases es.len(),
{
    if es.len() == 0 {
        (Seq::empty(), Seq::empty())
    } else {
        let (t, seen) = flat_fields(ctx, es.drop_last(), repeats);
        let e = es.last();
        if seen.contains(e.name) {
            (t, seen)
        } else {
            (t + field_text(ctx, flat_element(e, repeats)), seen.push(e.name))
        }
    }
}

/// The struct field(s) for one (expanded) member; `k` is the number of
/// choices before it, `single` whether the struct has exactly one choice
/// (which is then serialized through `$value`).
pub open spec fn member_field_text(
    ctx: GenCtx,
    ct_name: Text,
    m: MemberModel,
    k: nat,
    single: bool,
) -> Text {
    match m {
        MemberModel::Element(e) => field_text(ctx, e),
        MemberModel::Choice(c) => if choice_flattened(c, single) {
            flat_fields(ctx, c.elements, choice_repeats(c)).0
        } else if choice_repeats(c) {
            "    #[serde(rename = \"$value\", default, skip_serializing_if = \"Vec::is_empty\")]\n    pub choice_"@
                + decimal(k) + ": Vec<"@ + choice_enum_name(ct_name, k) + ">,\n"@
        } else {
            let en = choice_enum_name(ct_name, k);
            let opt = choice_optional(c);
            let ty = if opt {
                "Option<"@ + en + ">"@
            } else {
                en
            };
            (if single {
                "    #[serde(rename = \"$value\""@ + (if opt {
                    ", skip_serializing_if = \"Option::is_none\""@
                } else {
                    Seq::empty()
                }) + ")]\n"@
            } else {
                Seq::empty()
            }) + "    pub choice_"@ + decimal(k) + ": "@ + ty + ",\n"@
        },
        MemberModel::GroupRef { .. } => Seq::empty(),
    }
}

/// A choice that is neither composite nor repeating becomes one field
/// `choice_k`: it carries the `$value` rename exactly when it is the
/// struct's only choice, and its type is `Option<..>` of the choice enum
/// exactly when the choice may select nothing.
pub proof fn lemma_plain_choice_field(ctx: GenCtx, ct_name: Text, c: ChoiceModel, k: nat, single: bool)
    requires
        !c.composite,
        !choice_repeats(c),
    ensures
        ({
            let en = choice_enum_name(ct_name, k);
            let ty = if choice_optional(c) {
                "Option<"@ + en + ">"@
            } else {
                en
            };
            let field = "    pub choice_"@ + decimal(k) + ": "@ + ty + ",\n"@;
            let text = member_field_text(ctx, ct_name, MemberModel::Choice(c), k, single);
            &&& !single ==> text == field
            &&& single && choice_optional(c) ==> text
                == "    #[serde(rename = \"$value\", skip_serializing_if = \"Option::is_none\")]\n"@ + field
            &&& single && !choice_optional(c) ==> text == "    #[serde(rename = \"$value\")]\n"@ + field
        }),
{
    reveal_strlit("    #[serde(rename = \"$value\"");
    reveal_strlit(", skip_serializing_if = \"Option::is_none\"");
    reveal_strlit(")]\n");
    reveal_strlit("    #[serde(rename = \"$value\", skip_serializing_if = \"Option::is_none\")]\n");
    reveal_strlit("    #[serde(rename = \"$value\")]\n");
    let a = "    #[serde(rename = \"$value\""@;
    let b = ", skip_serializing_if = \"Option::is_none\""@;
    let e = ")]\n"@;
    assert(a + b + e =~= "    #[serde(rename = \"$value\", skip_serializing_if = \"Option::is_none\")]\n"@);
    assert(a + Seq::<char>::empty() + e =~= "    #[serde(rename = \"$value\")]\n"@);
}

pub open spec fn member_fields_text(ctx: GenCtx, ct_name: Text, ms: Seq<MemberModel>, single: bool) -> Text
    decreases ms.len(),
{
    if ms.len() == 0 {
        Seq::empty()
    } else {
        member_fields_text(ctx, ct_name, ms.drop_last(), single) + member_field_text(
            ctx,
            ct_name,
            ms.last(),
            count_choices(ms.drop_last()),
            single,
        )
    }
}

/// One enum for each choice that is not flattened.
pub open spec fn choice_enums_text(ctx: GenCtx, ct_name: Text, ms: Seq<MemberModel>, single: bool) -> Text
    decreases ms.len(),
{
    if ms.len() == 0 {
        Seq::empty()
    } else {
        choice_enums_text(ctx, ct_name, ms.drop_last(), single) + match ms.last() {
            MemberModel::Choice(c) => if choice_flattened(c, single) {
                Seq::empty()
            } else {
                choice_enum_text(
                    ctx,
                    choice_enum_name(ct_name, count_choices(ms.drop_last())),
                    c,
                )
            },
            _ => Seq::empty(),
        }
    }
}

/// The attributes pulled in by `attributeGroup` references; an unknown group
/// contributes none.
pub open spec fn group_attrs(ctx: GenCtx, refs: Seq<Text>) -> Seq<AttributeModel>
    decreases refs.len(),
{
    if refs.len() == 0 {
        Seq::empty()
    } else {
        group_attrs(ctx, refs.drop_last()) + if ctx.attr_groups.contains_key(refs.last()) {
            ctx.attr_groups[refs.last()]
        } else {
            Seq::empty()
        }
    }
}

pub open spec fn base_field_text(ctx: GenCtx, ct: ComplexTypeModel) -> Text {
    match ct.base_type {
        Some(b) => {
            let rb = resolved_field_type(ctx, b);
            if ct.simple_content {
                "    #[serde(rename = \"$value\")]\n    pub value: "@ + rb + ",\n"@
            } else {
                "    #[serde(flatten)]\n    pub base: "@ + rb + ",\n"@
            }
        },
        None => Seq::empty(),
    }
}

/// The text emitted for a complex type: its struct (base, expanded members,
/// direct and group attributes), then one enum per choice.
pub open spec fn complex_head_text(ctx: GenCtx, ct: ComplexTypeModel) -> Text {
    (match ct.doc {
        Some(d) => "/// "@ + d + "\n"@,
        None => Seq::empty(),
    }) + derive_all_text() + "pub struct "@ + sanitized(ct.name) + " {\n"@ + base_field_text(ctx, ct)
}

pub open spec fn complex_text(ctx: GenCtx, ct: ComplexTypeModel) -> Text {
    let ms = expanded_members(ctx, ct.members);
    complex_head_text(ctx, ct) + member_fields_text(ctx, ct.name, ms, count_choices(ms) == 1) + attributes_text(
        ctx,
        ct.attributes + group_attrs(ctx, ct.attribute_group_refs),
    ) + "}\n\n"@ + choice_enums_text(ctx, ct.name, ms, count_choices(ms) == 1)
}

fn choice_is_optional(c: &ChoiceGroup) -> (r: bool)
    ensures
        r == choice_optional(choice_view(*c)),
{
    let ghost ev = elements_view(c.elements@);
    proof {
        lemma_elements_view_len(c.elements@);
    }
    if c.min_occurs == 0 {
        return true;
    }
    let mut i: usize = 0;
    while i < c.elements.len()
        invariant
            i <= c.elements@.len(),
            ev == elements_view(c.elements@),
            ev.len() == c.elements@.len(),
            forall|j: int| 0 <= j < c.elements@.len() ==> #[trigger] ev[j] == element_view(c.elements@[j]),
            forall|j: int| 0 <= j < i ==> #[trigger] ev[j].min_occurs == 0,
            c.min_occurs != 0,
        decreases c.elements.len() - i,
    {
        assert(ev[i as int].min_occurs == c.elements@[i as int].min_occurs);
        if c.elements[i].min_occurs != 0 {
            assert(ev[i as int].min_occurs != 0);
            let ghost cm = choice_view(*c);
            assert(cm.elements[i as int].min_occurs != 0);
            assert(!choice_optional(cm));
            return false;
        }
        i = i + 1;
    }
    true
}

fn count_choice_members(ms: &Vec<SequenceMember>) -> (n: usize)
    ensures
        n == count_choices(members_view(ms@)),
{
    let ghost mv = members_view(ms@);
    proof {
        lemma_members_view_len(ms@);
    }
    let mut n: usize = 0;
    let mut i: usize = 0;
    while i < ms.len()
        invariant
            i <= ms@.len(),
            mv == members_view(ms@),
            mv.len() == ms@.len(),
            forall|j: int| 0 <= j < ms@.len() ==> #[trigger] mv[j] == member_view(ms@[j]),
            n == count_choices(mv.subrange(0, i as int)),
            n <= i,
        decreases ms.len() - i,
    {
        assert(mv.subrange(0, i + 1).drop_last() =~= mv.subrange(0, i as int));
        assert(mv[i as int] == member_view(ms@[i as int]));
        if let SequenceMember::Choice(_) = &ms[i] {
            n = n + 1;
        }
        i = i + 1;
    }
    assert(mv.subrange(0, i as int) =~= mv);
    n
}

impl CodeGenerator {
    fn choice_enum_name_exec(ct_name: &str, k: usize) -> (r: String)
        ensures
            r@ == choice_enum_name(ct_name@, k as nat),
    {
        let mut r = String::new();
        push_str(&mut r, ct_name);
        push_str(&mut r, "Choice");
        let d = decimal_string(k as u128);
        push_str(&mut r, d.as_str());
        r
    }

    /// The fields of a flattened choice: each element once, repeated when
    /// the choice repeats and optional otherwise.
    fn emit_flat_fields(&mut self, choice: &ChoiceGroup, repeats: bool)
        requires
            old(self).wf(),
        ensures
            final(self).output@ == old(self).output@ + flat_fields(
                old(self).ctx(),
                elements_view(choice.elements@),
                repeats,
            ).0,
            final(self).same_tables(old(self)),
            final(self).wf(),
    {
        let ghost ctx = self.ctx();
        let ghost ev = elements_view(choice.elements@);
        proof {
            lemma_elements_view_len(choice.elements@);
        }
        let mut seen: Vec<String> = Vec::new();
        let mut i: usize = 0;
        while i < choice.elements.len()
            invariant
                self.wf(),
                self.same_tables(old(self)),
                ctx == self.ctx(),
                i <= choice.elements@.len(),
                ev == elements_view(choice.elements@),
                ev.len() == choice.elements@.len(),
                forall|j: int|
                    0 <= j < choice.elements@.len() ==> #[trigger] ev[j] == element_view(
                        choice.elements@[j],
                    ),
                self.output@ == old(self).output@ + flat_fields(ctx, ev.subrange(0, i as int), repeats).0,
                texts(seen@) == flat_fields(ctx, ev.subrange(0, i as int), repeats).1,
            decreases choice.elements.len() - i,
        {
            let elem = &choice.elements[i];
            assert(ev.subrange(0, i + 1).drop_last() =~= ev.subrange(0, i as int));
            assert(ev.subrange(0, i + 1).last() == element_view(*elem));
            if !stack_contains(&seen, elem.name.as_str()) {
                let mut e2 = copy_element(elem);
                if repeats {
                    e2.max_occurs = MaxOccurs::Unbounded;
                } else {
                    e2.min_occurs = 0;
                }
                assert(element_view(e2) == flat_element(element_view(*elem), repeats));
                self.emit_field(&e2);
                let ghost seen_before = seen@;
                seen.push(crate::text::owned(elem.name.as_str()));
                assert(texts(seen@) =~= texts(seen_before).push(elem.name@));
            }
            i = i + 1;
        }
        assert(ev.subrange(0, i as int) =~= ev);
    }

    fn emit_choice_field(&mut self, ct_name: &str, choice: &ChoiceGroup, k: usize, single: bool)
        requires
            old(self).wf(),
        ensures
            final(self).output@ == old(self).output@ + member_field_text(
                old(self).ctx(),
                ct_name@,
                MemberModel::Choice(choice_view(*choice)),
                k as nat,
                single,
            ),
            final(self).same_tables(old(self)),
            final(self).wf(),
    {
        let repeats = match choice.max_occurs {
            MaxOccurs::Unbounded => true,
            MaxOccurs::Bounded(n) => n > 1,
        };
        if choice.composite || (repeats && !single) {
            self.emit_flat_fields(choice, repeats);
            return;
        }
        let enum_name = Self::choice_enum_name_exec(ct_name, k);
        let d = decimal_string(k as u128);
        let mut t = String::new();
        if repeats {
            push_str(
                &mut t,
                "    #[serde(rename = \"$value\", default, skip_serializing_if = \"Vec::is_empty\")]\n    pub choice_",
            );
            push_str(&mut t, d.as_str());
            push_str(&mut t, ": Vec<");
            push_str(&mut t, enum_name.as_str());
            push_str(&mut t, ">,\n");
            assert(t@ =~= member_field_text(
                self.ctx(),
                ct_name@,
                MemberModel::Choice(choice_view(*choice)),
                k as nat,
                single,
            ));
            push_str(&mut self.output, t.as_str());
            return;
        }
        let optional = choice_is_optional(choice);
        if single {
            push_str(&mut t, "    #[serde(rename = \"$value\"");
            if optional {
                push_str(&mut t, ", skip_serializing_if = \"Option::is_none\"");
            }
            push_str(&mut t, ")]\n");
        }
        push_str(&mut t, "    pub choice_");
        push_str(&mut t, d.as_str());
        push_str(&mut t, ": ");
        if optional {
            push_str(&mut t, "Option<");
            push_str(&mut t, enum_name.as_str());
            push_str(&mut t, ">");
        } else {
            push_str(&mut t, enum_name.as_str());
        }
        push_str(&mut t, ",\n");
        assert(t@ =~= member_field_text(
            self.ctx(),
            ct_name@,
            MemberModel::Choice(choice_view(*choice)),
            k as nat,
            single,
        ));
        push_str(&mut self.output, t.as_str());
    }

    fn emit_member_fields(&mut self, ct_name: &str, ms: &Vec<SequenceMember>, single: bool)
        requires
            old(self).wf(),
        ensures
            final(self).output@ == old(self).output@ + member_fields_text(
                old(self).ctx(),
                ct_name@,
                members_view(ms@),
                single,
            ),
            final(self).same_tables(old(self)),
            final(self).wf(),
    {
        let ghost ctx = self.ctx();
        let ghost mv = members_view(ms@);
        proof {
            lemma_members_view_len(ms@);
        }
        let mut choice_idx: usize = 0;
        let mut i: usize = 0;
        while i < ms.len()
            invariant
                self.wf(),
                self.same_tables(old(self)),
                ctx == self.ctx(),
                i <= ms@.len(),
                mv == members_view(ms@),
                mv.len() == ms@.len(),
                forall|j: int| 0 <= j < ms@.len() ==> #[trigger] mv[j] == member_view(ms@[j]),
                choice_idx == count_choices(mv.subrange(0, i as int)),
                choice_idx <= i,
                self.output@ == old(self).output@ + member_fields_text(
                    ctx,
                    ct_name@,
                    mv.subrange(0, i as int),
                    single,
                ),
            decreases ms.len() - i,
        {
            assert(mv.subrange(0, i + 1).drop_last() =~= mv.subrange(0, i as int));
            assert(mv.subrange(0, i + 1).last() == member_view(ms@[i as int]));
            match &ms[i] {
                SequenceMember::Element(elem) => {
                    self.emit_field(&**elem);
                },
                SequenceMember::Choice(choice) => {
                    self.emit_choice_field(ct_name, choice, choice_idx, single);
                    choice_idx = choice_idx + 1;
                },
                SequenceMember::GroupRef { .. } => {
                    assert(self.output@ =~= old(self).output@ + member_fields_text(
                        ctx,
                        ct_name@,
                        mv.subrange(0, i + 1),
                        single,
                    ));
                },
            }
            i = i + 1;
        }
        assert(mv.subrange(0, i as int) =~= mv);
    }

    fn emit_choice_enums(&mut self, ct_name: &str, ms: &Vec<SequenceMember>, single: bool)
        requires
            old(self).wf(),
        ensures
            final(self).output@ == old(self).output@ + choice_enums_text(
                old(self).ctx(),
                ct_name@,
                members_view(ms@),
                single,
            ),
            final(self).same_tables(old(self)),
            final(self).wf(),
    {
        let ghost ctx = self.ctx();
        let ghost mv = members_view(ms@);
        proof {
            lemma_members_view_len(ms@);
        }
        let mut choice_idx: usize = 0;
        let mut i: usize = 0;
        while i < ms.len()
            invariant
                self.wf(),
                self.same_tables(old(self)),
                ctx == self.ctx(),
                i <= ms@.len(),
                mv == members_view(ms@),
                mv.len() == ms@.len(),
                forall|j: int| 0 <= j < ms@.len() ==> #[trigger] mv[j] == member_view(ms@[j]),
                choice_idx == count_choices(mv.subrange(0, i as int)),
                choice_idx <= i,
                self.output@ == old(self).output@ + choice_enums_text(
                    ctx,
                    ct_name@,
                    mv.subrange(0, i as int),
                    single,
                ),
            decreases ms.len() - i,
        {
            assert(mv.subrange(0, i + 1).drop_last() =~= mv.subrange(0, i as int));
            assert(mv.subrange(0, i + 1).last() == member_view(ms@[i as int]));
            if let SequenceMember::Choice(choice) = &ms[i] {
                let repeats = match choice.max_occurs {
                    MaxOccurs::Unbounded => true,
                    MaxOccurs::Bounded(n) => n > 1,
                };
                if choice.composite || (repeats && !single) {
                    assert(self.output@ =~= old(self).output@ + choice_enums_text(
                        ctx,
                        ct_name@,
                        mv.subrange(0, i + 1),
                        single,
                    ));
                } else {
                    let enum_name = Self::choice_enum_name_exec(ct_name, choice_idx);
                    self.emit_choice_enum(enum_name.as_str(), choice);
                }
                choice_idx = choice_idx + 1;
            } else {
                assert(self.output@ =~= old(self).output@ + choice_enums_text(
                    ctx,
                    ct_name@,
                    mv.subrange(0, i + 1),
                    single,
                ));
            }
            i = i + 1;
        }
        assert(mv.subrange(0, i as int) =~= mv);
    }

    /// Direct attributes plus those pulled in via attributeGroup refs.
    fn collect_attributes(&self, ct: &ComplexTypeDef) -> (r: Vec<AttributeDef>)
        requires
            self.wf(),
        ensures
            attrs_view(r@) == attrs_view(ct.attributes@) + group_attrs(
                self.ctx(),
                texts(ct.attribute_group_refs@),
            ),
    {
        let ghost ctx = self.ctx();
        let ghost refs = texts(ct.attribute_group_refs@);
        let mut attrs = copy_attrs(&ct.attributes);
        let mut i: usize = 0;
        while i < ct.attribute_group_refs.len()
            invariant
                self.wf(),
                ctx == self.ctx(),
                refs == texts(ct.attribute_group_refs@),
                i <= ct.attribute_group_refs@.len(),
                attrs_view(attrs@) == attrs_view(ct.attributes@) + group_attrs(
                    ctx,
                    refs.subrange(0, i as int),
                ),
            decreases ct.attribute_group_refs.len() - i,
        {
            assert(refs.subrange(0, i + 1).drop_last() =~= refs.subrange(0, i as int));
            assert(refs.subrange(0, i + 1).last() == ct.attribute_group_refs@[i as int]@);
            let ghost before = attrs@;
            match self.attribute_groups.get(ct.attribute_group_refs[i].as_str()) {
                Some(group) => {
                    let mut extra = copy_attrs(group);
                    let ghost ex = extra@;
                    attrs.append(&mut extra);
                    assert(attrs_view(attrs@) =~= attrs_view(before) + attrs_view(ex));
                },
                None => {
                    assert(attrs_view(attrs@) =~= attrs_view(before) + Seq::<AttributeModel>::empty());
                },
            }
            i = i + 1;
        }
        assert(refs.subrange(0, i as int) =~= refs);
        attrs
    }

    fn emit_struct_head(&mut self, ct: &ComplexTypeDef)
        requires
            old(self).wf(),
        ensures
            final(self).output@ == old(self).output@ + complex_head_text(
                old(self).ctx(),
                complex_view(*ct),
            ),
            final(self).same_tables(old(self)),
            final(self).wf(),
    {
        let mut t = String::new();
        if let Some(doc) = &ct.doc {
            push_str(&mut t, "/// ");
            push_str(&mut t, doc.as_str());
            push_str(&mut t, "\n");
        }
        push_derive_all(&mut t);
        let tname = sanitize_type_name(ct.name.as_str());
        push_str(&mut t, "pub struct ");
        push_str(&mut t, tname.as_str());
        push_str(&mut t, " {\n");
        if let Some(base) = &ct.base_type {
            let rust_base = self.resolve_field_type(base.as_str());
            if ct.simple_content {
                push_str(&mut t, "    #[serde(rename = \"$value\")]\n    pub value: ");
            } else {
                push_str(&mut t, "    #[serde(flatten)]\n    pub base: ");
            }
            push_str(&mut t, rust_base.as_str());
            push_str(&mut t, ",\n");
        }
        assert(t@ =~= complex_head_text(self.ctx(), complex_view(*ct)));
        push_str(&mut self.output, t.as_str());
    }

    /// Emits a complex type's struct and the enums of its choices.
    pub fn emit_complex_type(&mut self, ct: &ComplexTypeDef)
        requires
            old(self).wf(),
        ensures
            final(self).output@ == old(self).output@ + complex_text(old(self).ctx(), complex_view(*ct)),
            final(self).same_tables(old(self)),
            final(self).wf(),
    {
        let ghost ctx = self.ctx();
        let ghost cv = complex_view(*ct);
        let ghost start = self.output@;
        self.emit_struct_head(ct);
        let ghost p1 = self.output@;
        let members = self.resolve_group_refs(&ct.members);
        let single = count_choice_members(&members) == 1;
        self.emit_member_fields(ct.name.as_str(), &members, single);
        let ghost p2 = self.output@;
        let attrs = self.collect_attributes(ct);
        self.emit_attributes(&attrs);
        let ghost p3 = self.output@;
        push_str(&mut self.output, "}\n\n");
        let ghost p4 = self.output@;
        self.emit_choice_enums(ct.name.as_str(), &members, single);
        let ghost ms = expanded_members(ctx, cv.members);
        assert(p2 == p1 + member_fields_text(ctx, cv.name, ms, count_choices(ms) == 1));
        assert(p3 == p2 + attributes_text(ctx, cv.attributes + group_attrs(ctx, cv.attribute_group_refs)));
        assert(self.output@ == p4 + choice_enums_text(ctx, cv.name, ms, count_choices(ms) == 1));
        assert(self.output@ =~= start + complex_text(ctx, cv));
    }
}

} // verus!
