//! Rust source generation from a parsed schema.
pub mod complex;
pub mod emit;
pub mod emitted;
pub mod round_trip;
pub mod util;

use vstd::prelude::*;

use crate::name_map::NameMap;
use crate::text::{local_part, owned, push_str};
use crate::types::{
    AttributeGroupModel, ComplexTypeModel, ModelGroupModel, SimpleTypeModel, TopLevelModel,
    XsdModel, TopLevelElement, complex_view, top_level_view, attr_group_view, attrs_view, copy_attrs, copy_members, model_group_view, simple_view,
    xsd_view, XsdFile, element_view, members_view, texts, AttributeDef, AttributeModel, ElementDef,
    ElementModel, MemberModel, SequenceMember, Text,
};
use util::{base_to_rust, resolve_type, sanitize_type_name, sanitized, xsd_base_to_rust};

verus! {

/// Generates Rust source for XSD files into `output`.
pub struct CodeGenerator {
    /// Simple type name -> the Rust type name emitted for it.
    pub simple_type_map: NameMap<String>,
    /// Enumeration simple type name -> its values, for union value sets.
    pub simple_type_enums: NameMap<Vec<String>>,
    /// Attribute groups available for `<xsd:attributeGroup ref>` expansion.
    /// Pre-populated with the cross-file registry by the directory converter;
    /// [`CodeGenerator::generate`] merges in the current file's own groups.
    pub attribute_groups: NameMap<Vec<AttributeDef>>,
    /// Model groups available for `<xsd:group ref>` expansion, populated the
    /// same way as `attribute_groups`.
    pub model_groups: NameMap<Vec<SequenceMember>>,
    pub output: String,
}

/// What the emitters read besides the schema item itself.
pub struct GenCtx {
    pub types: Map<Text, Text>,
    pub enums: Map<Text, Seq<Text>>,
    pub attr_groups: Map<Text, Seq<AttributeModel>>,
    pub model_groups: Map<Text, Seq<MemberModel>>,
}

impl CodeGenerator {
    pub open spec fn wf(&self) -> bool {
        &&& self.simple_type_map.wf()
        &&& self.simple_type_enums.wf()
        &&& self.attribute_groups.wf()
        &&& self.model_groups.wf()
    }

    pub open spec fn ctx(&self) -> GenCtx {
        GenCtx {
            types: self.simple_type_map.view().map_values(|s: String| s@),
            enums: self.simple_type_enums.view().map_values(|v: Vec<String>| texts(v@)),
            attr_groups: self.attribute_groups.view().map_values(
                |v: Vec<AttributeDef>| attrs_view(v@),
            ),
            model_groups: self.model_groups.view().map_values(
                |v: Vec<SequenceMember>| members_view(v@),
            ),
        }
    }

    /// Everything but `output` is the same in `self` and `other`.
    pub open spec fn same_tables(&self, other: &CodeGenerator) -> bool {
        &&& self.simple_type_map == other.simple_type_map
        &&& self.simple_type_enums == other.simple_type_enums
        &&& self.attribute_groups == other.attribute_groups
        &&& self.model_groups == other.model_groups
    }

    pub fn new() -> (g: Self)
        ensures
            g.wf(),
            g.output@ == Seq::<char>::empty(),
            g.ctx().types == Map::<Text, Text>::empty(),
            g.ctx().enums == Map::<Text, Seq<Text>>::empty(),
            g.ctx().attr_groups == Map::<Text, Seq<AttributeModel>>::empty(),
            g.ctx().model_groups == Map::<Text, Seq<MemberModel>>::empty(),
    {
        let g = CodeGenerator {
            simple_type_map: NameMap::new(),
            simple_type_enums: NameMap::new(),
            attribute_groups: NameMap::new(),
            model_groups: NameMap::new(),
            output: String::new(),
        };
        assert(g.ctx().types =~= Map::<Text, Text>::empty());
        assert(g.ctx().enums =~= Map::<Text, Seq<Text>>::empty());
        assert(g.ctx().attr_groups =~= Map::<Text, Seq<AttributeModel>>::empty());
        assert(g.ctx().model_groups =~= Map::<Text, Seq<MemberModel>>::empty());
        g
    }
}

/// The Rust type a field of XSD type `t` gets: a known simple type maps to
/// its emitted name, a built-in to its Rust type, anything else to its own
/// (sanitized) name.
pub open spec fn resolved_field_type(ctx: GenCtx, t: Text) -> Text {
    let ty = local_part(t);
    if ctx.types.contains_key(ty) {
        sanitized(ctx.types[ty])
    } else if base_to_rust(ty) != ty {
        base_to_rust(ty)
    } else {
        sanitized(ty)
    }
}

/// The Rust type of the field (or variant payload) for an element.
pub open spec fn element_field_type(ctx: GenCtx, e: ElementModel) -> Text {
    match e.inline_simple_type {
        Some(ist) => if ist.enumerations.len() > 0 {
            "String /* inline enum */"@
        } else {
            base_to_rust(ist.base)
        },
        None => match e.type_ref {
            Some(tn) => resolved_field_type(ctx, tn),
            None => "String"@,
        },
    }
}

// ---------------------------------------------------------------------------
// Whole files
// ---------------------------------------------------------------------------

pub open spec fn imports_text(imps: Seq<Text>) -> Text
    decreases imps.len(),
{
    if imps.len() == 0 {
        Seq::empty()
    } else {
        imports_text(imps.drop_last()) + "#[allow(unused_imports)]\n"@ + imps.last() + "\n"@
    }
}

/// The file header: provenance comment, serde/decimal imports, then the
/// caller's cross-file imports and a blank line.
pub open spec fn header_text(path: Text, imps: Seq<Text>) -> Text {
    "// Auto-generated from XSD schema: "@ + path
        + "\n// Do not edit manually.\n\n#[allow(unused_imports)]\nuse serde::{Deserialize, Serialize};\n#[allow(unused_imports)]\nuse rust_decimal::Decimal;\n#[allow(unused_imports)]\nuse std::str::FromStr;\n"@
        + imports_text(imps) + "\n"@
}

/// The attribute-group table after adding a file's groups; a name already
/// present keeps its attributes.
pub open spec fn register_attr_groups(
    m: Map<Text, Seq<AttributeModel>>,
    gs: Seq<AttributeGroupModel>,
) -> Map<Text, Seq<AttributeModel>>
    decreases gs.len(),
{
    if gs.len() == 0 {
        m
    } else {
        let m1 = register_attr_groups(m, gs.drop_last());
        if m1.contains_key(gs.last().name) {
            m1
        } else {
            m1.insert(gs.last().name, gs.last().attributes)
        }
    }
}

/// The model-group table after adding a file's groups; a name already
/// present keeps its members.
pub open spec fn register_model_groups(
    m: Map<Text, Seq<MemberModel>>,
    gs: Seq<ModelGroupModel>,
) -> Map<Text, Seq<MemberModel>>
    decreases gs.len(),
{
    if gs.len() == 0 {
        m
    } else {
        let m1 = register_model_groups(m, gs.drop_last());
        if m1.contains_key(gs.last().name) {
            m1
        } else {
            m1.insert(gs.last().name, gs.last().members)
        }
    }
}

/// The attributes of the first group in `gs` named `k`, if any.
pub open spec fn first_attr_group(gs: Seq<AttributeGroupModel>, k: Text) -> Option<Seq<AttributeModel>>
    decreases gs.len(),
{
    if gs.len() == 0 {
        None
    } else {
        match first_attr_group(gs.drop_last(), k) {
            Some(a) => Some(a),
            None => if gs.last().name == k {
                Some(gs.last().attributes)
            } else {
                None
            },
        }
    }
}

/// The members of the first group in `gs` named `k`, if any.
pub open spec fn first_model_group(gs: Seq<ModelGroupModel>, k: Text) -> Option<Seq<MemberModel>>
    decreases gs.len(),
{
    if gs.len() == 0 {
        None
    } else {
        match first_model_group(gs.drop_last(), k) {
            Some(a) => Some(a),
            None => if gs.last().name == k {
                Some(gs.last().members)
            } else {
                None
            },
        }
    }
}

/// Registering a file's attribute groups (as `generate` does) keeps every
/// group already known, and adds each new name with the attributes of the
/// file's first group of that name.
pub proof fn lemma_register_attr_groups(m: Map<Text, Seq<AttributeModel>>, gs: Seq<AttributeGroupModel>)
    ensures
        forall|k: Text| #[trigger] m.contains_key(k) ==> register_attr_groups(m, gs).contains_key(k)
            && register_attr_groups(m, gs)[k] == m[k],
        forall|k: Text|
            #[trigger] register_attr_groups(m, gs).contains_key(k) <==> (m.contains_key(k)
                || first_attr_group(gs, k) is Some),
        forall|k: Text|
            !m.contains_key(k) && #[trigger] first_attr_group(gs, k) is Some ==> register_attr_groups(
                m,
                gs,
            )[k] == first_attr_group(gs, k)->0,
    decreases gs.len(),
{
    if gs.len() > 0 {
        let p = gs.drop_last();
        let g = gs.last();
        lemma_register_attr_groups(m, p);
        let m1 = register_attr_groups(m, p);
        let r = register_attr_groups(m, gs);
        assert forall|k: Text| #[trigger] m.contains_key(k) implies r.contains_key(k) && r[k] == m[k] by {
            assert(m1.contains_key(k) && m1[k] == m[k]);
        }
        assert forall|k: Text| #[trigger] r.contains_key(k) <==> (m.contains_key(k) || first_attr_group(gs, k) is Some) by {
            assert(m1.contains_key(k) <==> (m.contains_key(k) || first_attr_group(p, k) is Some));
        }
        assert forall|k: Text|
            !m.contains_key(k) && #[trigger] first_attr_group(gs, k) is Some implies r[k] == first_attr_group(gs, k)->0 by {
            assert(m1.contains_key(k) <==> (m.contains_key(k) || first_attr_group(p, k) is Some));
            if first_attr_group(p, k) is Some {
                assert(m1[k] == first_attr_group(p, k)->0);
            }
        }
    }
}

/// Registering a file's model groups keeps every group already known, and
/// adds each new name with the members of the file's first group of that
/// name.
pub proof fn lemma_register_model_groups(m: Map<Text, Seq<MemberModel>>, gs: Seq<ModelGroupModel>)
    ensures
        forall|k: Text| #[trigger] m.contains_key(k) ==> register_model_groups(m, gs).contains_key(k)
            && register_model_groups(m, gs)[k] == m[k],
        forall|k: Text|
            #[trigger] register_model_groups(m, gs).contains_key(k) <==> (m.contains_key(k)
                || first_model_group(gs, k) is Some),
        forall|k: Text|
            !m.contains_key(k) && #[trigger] first_model_group(gs, k) is Some ==> register_model_groups(
                m,
                gs,
            )[k] == first_model_group(gs, k)->0,
    decreases gs.len(),
{
    if gs.len() > 0 {
        let p = gs.drop_last();
        let g = gs.last();
        lemma_register_model_groups(m, p);
        let m1 = register_model_groups(m, p);
        let r = register_model_groups(m, gs);
        assert forall|k: Text| #[trigger] m.contains_key(k) implies r.contains_key(k) && r[k] == m[k] by {
            assert(m1.contains_key(k) && m1[k] == m[k]);
        }
        assert forall|k: Text| #[trigger] r.contains_key(k) <==> (m.contains_key(k) || first_model_group(gs, k) is Some) by {
            assert(m1.contains_key(k) <==> (m.contains_key(k) || first_model_group(p, k) is Some));
        }
        assert forall|k: Text|
            !m.contains_key(k) && #[trigger] first_model_group(gs, k) is Some implies r[k] == first_model_group(gs, k)->0 by {
            assert(m1.contains_key(k) <==> (m.contains_key(k) || first_model_group(p, k) is Some));
            if first_model_group(p, k) is Some {
                assert(m1[k] == first_model_group(p, k)->0);
            }
        }
    }
}

/// Every simple type is known by its sanitized name.
pub open spec fn register_types(m: Map<Text, Text>, sts: Seq<SimpleTypeModel>) -> Map<Text, Text>
    decreases sts.len(),
{
    if sts.len() == 0 {
        m
    } else {
        register_types(m, sts.drop_last()).insert(sts.last().name, sanitized(sts.last().name))
    }
}

/// Enumeration (non-union) simple types are known with their values.
pub open spec fn register_enums(m: Map<Text, Seq<Text>>, sts: Seq<SimpleTypeModel>) -> Map<
    Text,
    Seq<Text>,
>
    decreases sts.len(),
{
    if sts.len() == 0 {
        m
    } else {
        let m1 = register_enums(m, sts.drop_last());
        let st = sts.last();
        if !st.is_union && st.enumerations.len() > 0 {
            m1.insert(st.name, st.enumerations.map_values(|e: (Text, Option<Text>)| e.0))
        } else {
            m1
        }
    }
}

pub open spec fn registered(ctx: GenCtx, f: XsdModel) -> GenCtx {
    GenCtx {
        types: register_types(ctx.types, f.simple_types),
        enums: register_enums(ctx.enums, f.simple_types),
        attr_groups: register_attr_groups(ctx.attr_groups, f.attribute_groups),
        model_groups: register_model_groups(ctx.model_groups, f.model_groups),
    }
}

pub open spec fn simple_types_text(ctx: GenCtx, sts: Seq<SimpleTypeModel>) -> Text
    decreases sts.len(),
{
    if sts.len() == 0 {
        Seq::empty()
    } else {
        simple_types_text(ctx, sts.drop_last()) + emit::simple_type_text(ctx, sts.last())
    }
}

/// The complex types' text and the names emitted; a type whose name was
/// already emitted is skipped.
pub open spec fn complex_types_text(ctx: GenCtx, cts: Seq<ComplexTypeModel>) -> (Text, Seq<Text>)
    decreases cts.len(),
{
    if cts.len() == 0 {
        (Seq::empty(), Seq::empty())
    } else {
        let (t, em) = complex_types_text(ctx, cts.drop_last());
        let ct = cts.last();
        if em.contains(ct.name) {
            (t, em)
        } else {
            (t + complex::complex_text(ctx, ct), em.push(ct.name))
        }
    }
}

/// For a top-level element: its inline complex type (unless a complex type
/// of that name was emitted), then a type alias when the element's name
/// differs from the type it refers to.
pub open spec fn element_text(ctx: GenCtx, e: TopLevelModel, emitted: Seq<Text>) -> Text {
    (match e.complex_type {
        Some(ct) => if emitted.contains(ct.name) {
            Seq::empty()
        } else {
            complex::complex_text(ctx, ct)
        },
        None => Seq::empty(),
    }) + match e.type_ref {
        Some(tn) => {
            let resolved = resolved_field_type(ctx, tn);
            let en = sanitized(e.name);
            if en != resolved {
                "pub type "@ + en + " = "@ + resolved + ";\n\n"@
            } else {
                Seq::empty()
            }
        },
        None => Seq::empty(),
    }
}

pub open spec fn elements_text(ctx: GenCtx, es: Seq<TopLevelModel>, emitted: Seq<Text>) -> Text
    decreases es.len(),
{
    if es.len() == 0 {
        Seq::empty()
    } else {
        elements_text(ctx, es.drop_last(), emitted) + element_text(ctx, es.last(), emitted)
    }
}

/// Everything `generate` appends for file `f`, given the tables `ctx` after
/// the file's own types and groups were registered.
pub open spec fn body_text(ctx: GenCtx, f: XsdModel) -> Text {
    let (ct_text, emitted) = complex_types_text(ctx, f.complex_types);
    simple_types_text(ctx, f.simple_types) + ct_text + elements_text(ctx, f.elements, emitted)
}

pub open spec fn generated_text(ctx: GenCtx, f: XsdModel, imps: Seq<Text>) -> Text {
    header_text(f.path, imps) + body_text(registered(ctx, f), f)
}

/// The generated text starts with the provenance header naming the schema's
/// path.
pub proof fn lemma_generated_header(ctx: GenCtx, f: XsdModel, imps: Seq<Text>)
    ensures
        ({
            let h = "// Auto-generated from XSD schema: "@ + f.path + "\n// Do not edit manually.\n"@;
            &&& h.len() <= generated_text(ctx, f, imps).len()
            &&& generated_text(ctx, f, imps).subrange(0, h.len() as int) == h
        }),
{
    let a = "// Auto-generated from XSD schema: "@;
    let c = "\n// Do not edit manually.\n"@;
    let b = "\n// Do not edit manually.\n\n#[allow(unused_imports)]\nuse serde::{Deserialize, Serialize};\n#[allow(unused_imports)]\nuse rust_decimal::Decimal;\n#[allow(unused_imports)]\nuse std::str::FromStr;\n"@;
    reveal_strlit("\n// Do not edit manually.\n");
    reveal_strlit("\n// Do not edit manually.\n\n#[allow(unused_imports)]\nuse serde::{Deserialize, Serialize};\n#[allow(unused_imports)]\nuse rust_decimal::Decimal;\n#[allow(unused_imports)]\nuse std::str::FromStr;\n");
    assert(b.subrange(0, c.len() as int) =~= c);
    let g = generated_text(ctx, f, imps);
    let h = a + f.path + c;
    assert(g =~= a + f.path + b + (imports_text(imps) + "\n"@ + body_text(registered(ctx, f), f)));
    assert(g.subrange(0, h.len() as int) =~= h);
}

/// Of complex types sharing a name only the first is emitted: the names
/// recorded as emitted are pairwise distinct, every type's name is among
/// them, and each of them is the name of one of the types.
pub proof fn lemma_complex_types_once(ctx: GenCtx, cts: Seq<ComplexTypeModel>)
    ensures
        forall|i: int, j: int|
            0 <= i < j < complex_types_text(ctx, cts).1.len() ==> complex_types_text(ctx, cts).1[i]
                != complex_types_text(ctx, cts).1[j],
        forall|k: int| 0 <= k < cts.len() ==> complex_types_text(ctx, cts).1.contains(#[trigger] cts[k].name),
        forall|j: int|
            #![trigger complex_types_text(ctx, cts).1[j]]
            0 <= j < complex_types_text(ctx, cts).1.len() ==> exists|k: int|
                0 <= k < cts.len() && #[trigger] cts[k].name == complex_types_text(ctx, cts).1[j],
    decreases cts.len(),
{
    if cts.len() > 0 {
        let init = cts.drop_last();
        lemma_complex_types_once(ctx, init);
        let (t, em) = complex_types_text(ctx, init);
        let em2 = complex_types_text(ctx, cts).1;
        let ct = cts.last();
        assert forall|k: int| 0 <= k < init.len() implies #[trigger] init[k] == cts[k] by {}
        if !em.contains(ct.name) {
            assert(em2 == em.push(ct.name));
            assert forall|i: int, j: int| 0 <= i < j < em2.len() implies em2[i] != em2[j] by {
                if j == em.len() {
                    assert(em2[i] == em[i]);
                } else {
                    assert(em2[i] == em[i] && em2[j] == em[j]);
                }
            }
            assert forall|k: int| 0 <= k < cts.len() implies em2.contains(#[trigger] cts[k].name) by {
                if k < init.len() {
                    assert(init[k].name == cts[k].name);
                    let p = choose|p: int| 0 <= p < em.len() && em[p] == init[k].name;
                    assert(em2[p] == em[p]);
                } else {
                    assert(em2[em.len() as int] == ct.name);
                }
            }
            assert forall|j: int| #![trigger em2[j]] 0 <= j < em2.len() implies exists|k: int|
                0 <= k < cts.len() && #[trigger] cts[k].name == em2[j] by {
                if j < em.len() {
                    assert(em2[j] == em[j]);
                    let k = choose|k: int| 0 <= k < init.len() && #[trigger] init[k].name == em[j];
                    assert(cts[k].name == em2[j]);
                } else {
                    assert(cts[cts.len() - 1].name == em2[j]);
                }
            }
        } else {
            assert forall|k: int| 0 <= k < cts.len() implies em2.contains(#[trigger] cts[k].name) by {
                if k < init.len() {
                    assert(init[k].name == cts[k].name);
                }
            }
            assert forall|j: int| #![trigger em2[j]] 0 <= j < em2.len() implies exists|k: int|
                0 <= k < cts.len() && #[trigger] cts[k].name == em2[j] by {
                let k = choose|k: int| 0 <= k < init.len() && #[trigger] init[k].name == em[j];
                assert(cts[k].name == em2[j]);
            }
        }
    }
}

/// A top-level element that refers to a type gets an alias exactly when its
/// own (sanitized) name differs from the Rust type its reference resolves
/// to.
pub proof fn lemma_element_alias(ctx: GenCtx, e: TopLevelModel, emitted: Seq<Text>, t: Text)
    requires
        e.complex_type is None,
        e.type_ref == Some(t),
    ensures
        sanitized(e.name) != resolved_field_type(ctx, t) ==> element_text(ctx, e, emitted) == "pub type "@
            + sanitized(e.name) + " = "@ + resolved_field_type(ctx, t) + ";\n\n"@,
        sanitized(e.name) == resolved_field_type(ctx, t) ==> element_text(ctx, e, emitted) == Seq::<
            char,
        >::empty(),
{
    assert(Seq::<char>::empty() + ("pub type "@ + sanitized(e.name) + " = "@ + resolved_field_type(ctx, t)
        + ";\n\n"@) =~= "pub type "@ + sanitized(e.name) + " = "@ + resolved_field_type(ctx, t) + ";\n\n"@);
    assert(Seq::<char>::empty() + Seq::<char>::empty() =~= Seq::<char>::empty());
}

impl CodeGenerator {
    pub fn resolve_field_type(&self, xsd_type: &str) -> (r: String)
        requires
            self.wf(),
        ensures
            r@ == resolved_field_type(self.ctx(), xsd_type@),
    {
        let ty = resolve_type(xsd_type);
        if let Some(rust_ty) = self.simple_type_map.get(ty.as_str()) {
            return sanitize_type_name(rust_ty.as_str());
        }
        let builtin = xsd_base_to_rust(ty.as_str());
        if !crate::text::str_eq(builtin.as_str(), ty.as_str()) {
            return builtin;
        }
        sanitize_type_name(ty.as_str())
    }

    pub fn field_type_for_element(&self, elem: &ElementDef) -> (r: String)
        requires
            self.wf(),
        ensures
            r@ == element_field_type(self.ctx(), element_view(*elem)),
    {
        if let Some(ist) = &elem.inline_simple_type {
            if ist.enumerations.len() > 0 {
                return owned("String /* inline enum */");
            }
            return xsd_base_to_rust(ist.base.as_str());
        }
        if let Some(tn) = &elem.type_ref {
            self.resolve_field_type(tn.as_str())
        } else {
            owned("String")
        }
    }
}

impl CodeGenerator {
    fn emit_header(&mut self, path: &str, use_imports: &[String])
        requires
            old(self).wf(),
        ensures
            final(self).output@ == old(self).output@ + header_text(path@, texts(use_imports@)),
            final(self).same_tables(old(self)),
            final(self).wf(),
    {
        let mut t = String::new();
        push_str(&mut t, "// Auto-generated from XSD schema: ");
        push_str(&mut t, path);
        push_str(
            &mut t,
            "\n// Do not edit manually.\n\n#[allow(unused_imports)]\nuse serde::{Deserialize, Serialize};\n#[allow(unused_imports)]\nuse rust_decimal::Decimal;\n#[allow(unused_imports)]\nuse std::str::FromStr;\n",
        );
        let ghost head = t@;
        let ghost imps = texts(use_imports@);
        let mut i: usize = 0;
        while i < use_imports.len()
            invariant
                i <= use_imports@.len(),
                imps == texts(use_imports@),
                t@ == head + imports_text(imps.subrange(0, i as int)),
            decreases use_imports.len() - i,
        {
            assert(imps.subrange(0, i + 1).drop_last() =~= imps.subrange(0, i as int));
            assert(imps[i as int] == use_imports@[i as int]@);
            push_str(&mut t, "#[allow(unused_imports)]\n");
            push_str(&mut t, use_imports[i].as_str());
            push_str(&mut t, "\n");
            i = i + 1;
        }
        assert(imps.subrange(0, i as int) =~= imps);
        push_str(&mut t, "\n");
        assert(t@ =~= header_text(path@, imps));
        push_str(&mut self.output, t.as_str());
    }

    /// Makes the file's own attribute and model groups available for `ref`
    /// expansion, without replacing entries already registered.
    pub(crate) fn register_groups(&mut self, file: &XsdFile)
        requires
            old(self).wf(),
        ensures
            final(self).wf(),
            final(self).output == old(self).output,
            final(self).simple_type_map == old(self).simple_type_map,
            final(self).simple_type_enums == old(self).simple_type_enums,
            final(self).ctx().attr_groups == register_attr_groups(
                old(self).ctx().attr_groups,
                xsd_view(*file).attribute_groups,
            ),
            final(self).ctx().model_groups == register_model_groups(
                old(self).ctx().model_groups,
                xsd_view(*file).model_groups,
            ),
    {
        let ghost ags = xsd_view(*file).attribute_groups;
        let ghost mgs = xsd_view(*file).model_groups;
        let ghost a0 = self.ctx().attr_groups;
        let ghost m0 = self.ctx().model_groups;
        let mut i: usize = 0;
        while i < file.attribute_groups.len()
            invariant
                self.wf(),
                self.output == old(self).output,
                self.simple_type_map == old(self).simple_type_map,
                self.simple_type_enums == old(self).simple_type_enums,
                self.model_groups == old(self).model_groups,
                i <= file.attribute_groups@.len(),
                ags == xsd_view(*file).attribute_groups,
                self.ctx().attr_groups == register_attr_groups(a0, ags.subrange(0, i as int)),
            decreases file.attribute_groups.len() - i,
        {
            assert(ags.subrange(0, i + 1).drop_last() =~= ags.subrange(0, i as int));
            let g = &file.attribute_groups[i];
            assert(ags.subrange(0, i + 1).last() == attr_group_view(*g));
            let ghost before = self.ctx().attr_groups;
            let ghost bv = self.attribute_groups.view();
            let attrs = copy_attrs(&g.attributes);
            self.attribute_groups.insert_if_absent(g.name.clone(), attrs);
            assert(self.ctx().attr_groups =~= (if before.contains_key(g.name@) {
                before
            } else {
                before.insert(g.name@, attrs_view(g.attributes@))
            }));
            i = i + 1;
        }
        assert(ags.subrange(0, i as int) =~= ags);
        let mut k: usize = 0;
        while k < file.model_groups.len()
            invariant
                self.wf(),
                self.output == old(self).output,
                self.simple_type_map == old(self).simple_type_map,
                self.simple_type_enums == old(self).simple_type_enums,
                k <= file.model_groups@.len(),
                mgs == xsd_view(*file).model_groups,
                self.ctx().attr_groups == register_attr_groups(a0, ags),
                self.ctx().model_groups == register_model_groups(m0, mgs.subrange(0, k as int)),
            decreases file.model_groups.len() - k,
        {
            assert(mgs.subrange(0, k + 1).drop_last() =~= mgs.subrange(0, k as int));
            let g = &file.model_groups[k];
            assert(mgs.subrange(0, k + 1).last() == model_group_view(*g));
            let ghost before = self.ctx().model_groups;
            let members = copy_members(&g.members);
            self.model_groups.insert_if_absent(g.name.clone(), members);
            assert(self.ctx().model_groups =~= (if before.contains_key(g.name@) {
                before
            } else {
                before.insert(g.name@, members_view(g.members@))
            }));
            k = k + 1;
        }
        assert(mgs.subrange(0, k as int) =~= mgs);
    }

    /// Every simple type is known by its emitted name; enumerations also with
    /// their values (for union value sets).
    fn register_simple_types(&mut self, file: &XsdFile)
        requires
            old(self).wf(),
        ensures
            final(self).wf(),
            final(self).output == old(self).output,
            final(self).attribute_groups == old(self).attribute_groups,
            final(self).model_groups == old(self).model_groups,
            final(self).ctx().types == register_types(
                old(self).ctx().types,
                xsd_view(*file).simple_types,
            ),
            final(self).ctx().enums == register_enums(
                old(self).ctx().enums,
                xsd_view(*file).simple_types,
            ),
    {
        let ghost sts = xsd_view(*file).simple_types;
        let ghost t0 = self.ctx().types;
        let ghost e0 = self.ctx().enums;
        let mut i: usize = 0;
        while i < file.simple_types.len()
            invariant
                self.wf(),
                self.output == old(self).output,
                self.attribute_groups == old(self).attribute_groups,
                self.model_groups == old(self).model_groups,
                i <= file.simple_types@.len(),
                sts == xsd_view(*file).simple_types,
                self.ctx().types == register_types(t0, sts.subrange(0, i as int)),
                self.ctx().enums == register_enums(e0, sts.subrange(0, i as int)),
            decreases file.simple_types.len() - i,
        {
            assert(sts.subrange(0, i + 1).drop_last() =~= sts.subrange(0, i as int));
            let st = &file.simple_types[i];
            let ghost sv = simple_view(*st);
            assert(sts.subrange(0, i + 1).last() == sv);
            let ghost tb = self.ctx().types;
            let ghost eb = self.ctx().enums;
            let rust_ty = sanitize_type_name(st.name.as_str());
            self.simple_type_map.insert(st.name.clone(), rust_ty);
            assert(self.ctx().types =~= tb.insert(sv.name, sanitized(sv.name)));
            if !st.is_union && st.enumerations.len() > 0 {
                let mut values: Vec<String> = Vec::new();
                let mut j: usize = 0;
                while j < st.enumerations.len()
                    invariant
                        j <= st.enumerations@.len(),
                        sv == simple_view(*st),
                        texts(values@) == sv.enumerations.map_values(
                            |e: (Text, Option<Text>)| e.0,
                        ).subrange(0, j as int),
                    decreases st.enumerations.len() - j,
                {
                    let ghost vb = values@;
                    values.push(st.enumerations[j].0.clone());
                    assert(texts(values@) =~= texts(vb).push(st.enumerations@[j as int].0@));
                    j = j + 1;
                }
                assert(sv.enumerations.map_values(|e: (Text, Option<Text>)| e.0).subrange(
                    0,
                    j as int,
                ) =~= sv.enumerations.map_values(|e: (Text, Option<Text>)| e.0));
                self.simple_type_enums.insert(st.name.clone(), values);
                assert(self.ctx().enums =~= eb.insert(
                    sv.name,
                    sv.enumerations.map_values(|e: (Text, Option<Text>)| e.0),
                ));
            }
            i = i + 1;
        }
        assert(sts.subrange(0, i as int) =~= sts);
    }
}

fn names_contain(names: &Vec<String>, name: &str) -> (r: bool)
    ensures
        r == texts(names@).contains(name@),
{
    let mut i: usize = 0;
    while i < names.len()
        invariant
            i <= names.len(),
            forall|j: int| 0 <= j < i ==> names@[j]@ != name@,
        decreases names.len() - i,
    {
        if crate::text::str_eq(names[i].as_str(), name) {
            assert(texts(names@)[i as int] == name@);
            return true;
        }
        i = i + 1;
    }
    proof {
        if texts(names@).contains(name@) {
            let j = choose|j: int| 0 <= j < texts(names@).len() && texts(names@)[j] == name@;
            assert(names@[j]@ == name@);
        }
    }
    false
}

impl CodeGenerator {
    fn emit_simple_types(&mut self, file: &XsdFile)
        requires
            old(self).wf(),
        ensures
            final(self).output@ == old(self).output@ + simple_types_text(
                old(self).ctx(),
                xsd_view(*file).simple_types,
            ),
            final(self).same_tables(old(self)),
            final(self).wf(),
    {
        let ghost ctx = self.ctx();
        let ghost sts = xsd_view(*file).simple_types;
        let mut i: usize = 0;
        while i < file.simple_types.len()
            invariant
                self.wf(),
                self.same_tables(old(self)),
                ctx == self.ctx(),
                i <= file.simple_types@.len(),
                sts == xsd_view(*file).simple_types,
                self.output@ == old(self).output@ + simple_types_text(ctx, sts.subrange(0, i as int)),
            decreases file.simple_types.len() - i,
        {
            assert(sts.subrange(0, i + 1).drop_last() =~= sts.subrange(0, i as int));
            assert(sts.subrange(0, i + 1).last() == simple_view(file.simple_types@[i as int]));
            self.emit_simple_type(&file.simple_types[i]);
            i = i + 1;
        }
        assert(sts.subrange(0, i as int) =~= sts);
    }

    fn emit_complex_types(&mut self, file: &XsdFile) -> (emitted: Vec<String>)
        requires
            old(self).wf(),
        ensures
            final(self).output@ == old(self).output@ + complex_types_text(
                old(self).ctx(),
                xsd_view(*file).complex_types,
            ).0,
            texts(emitted@) == complex_types_text(old(self).ctx(), xsd_view(*file).complex_types).1,
            final(self).same_tables(old(self)),
            final(self).wf(),
    {
        let ghost ctx = self.ctx();
        let ghost cts = xsd_view(*file).complex_types;
        let mut emitted: Vec<String> = Vec::new();
        let mut i: usize = 0;
        while i < file.complex_types.len()
            invariant
                self.wf(),
                self.same_tables(old(self)),
                ctx == self.ctx(),
                i <= file.complex_types@.len(),
                cts == xsd_view(*file).complex_types,
                self.output@ == old(self).output@ + complex_types_text(
                    ctx,
                    cts.subrange(0, i as int),
                ).0,
                texts(emitted@) == complex_types_text(ctx, cts.subrange(0, i as int)).1,
            decreases file.complex_types.len() - i,
        {
            assert(cts.subrange(0, i + 1).drop_last() =~= cts.subrange(0, i as int));
            let ct = &file.complex_types[i];
            assert(cts.subrange(0, i + 1).last() == complex_view(*ct));
            if !names_contain(&emitted, ct.name.as_str()) {
                let ghost eb = emitted@;
                emitted.push(ct.name.clone());
                assert(texts(emitted@) =~= texts(eb).push(ct.name@));
                self.emit_complex_type(ct);
            }
            i = i + 1;
        }
        assert(cts.subrange(0, i as int) =~= cts);
        emitted
    }

    fn emit_element(&mut self, elem: &TopLevelElement, emitted: &Vec<String>)
        requires
            old(self).wf(),
        ensures
            final(self).output@ == old(self).output@ + element_text(
                old(self).ctx(),
                top_level_view(*elem),
                texts(emitted@),
            ),
            final(self).same_tables(old(self)),
            final(self).wf(),
    {
        let ghost start = self.output@;
        let ghost ctx = self.ctx();
        if let Some(ct) = &elem.complex_type {
            if !names_contain(emitted, ct.name.as_str()) {
                self.emit_complex_type(ct);
            }
        }
        let ghost mid = self.output@;
        // A type alias when the element name differs from its referenced type.
        if let Some(tn) = &elem.type_ref {
            let resolved = self.resolve_field_type(tn.as_str());
            let elem_name = sanitize_type_name(elem.name.as_str());
            if !crate::text::str_eq(elem_name.as_str(), resolved.as_str()) {
                push_str(&mut self.output, "pub type ");
                push_str(&mut self.output, elem_name.as_str());
                push_str(&mut self.output, " = ");
                push_str(&mut self.output, resolved.as_str());
                push_str(&mut self.output, ";\n\n");
            }
        }
        assert(self.output@ =~= start + element_text(ctx, top_level_view(*elem), texts(emitted@)));
    }

    fn emit_elements(&mut self, file: &XsdFile, emitted: &Vec<String>)
        requires
            old(self).wf(),
        ensures
            final(self).output@ == old(self).output@ + elements_text(
                old(self).ctx(),
                xsd_view(*file).elements,
                texts(emitted@),
            ),
            final(self).same_tables(old(self)),
            final(self).wf(),
    {
        let ghost ctx = self.ctx();
        let ghost es = xsd_view(*file).elements;
        let mut i: usize = 0;
        while i < file.elements.len()
            invariant
                self.wf(),
                self.same_tables(old(self)),
                ctx == self.ctx(),
                i <= file.elements@.len(),
                es == xsd_view(*file).elements,
                self.output@ == old(self).output@ + elements_text(
                    ctx,
                    es.subrange(0, i as int),
                    texts(emitted@),
                ),
            decreases file.elements.len() - i,
        {
            assert(es.subrange(0, i + 1).drop_last() =~= es.subrange(0, i as int));
            assert(es.subrange(0, i + 1).last() == top_level_view(file.elements@[i as int]));
            self.emit_element(&file.elements[i], emitted);
            i = i + 1;
        }
        assert(es.subrange(0, i as int) =~= es);
    }

    /// Appends the Rust module for `file` to `output`, with `use_imports`
    /// (one `use` line each) after the standard imports.
    pub fn generate(&mut self, file: &XsdFile, use_imports: &[String])
        requires
            old(self).wf(),
        ensures
            final(self).wf(),
            final(self).output@ == old(self).output@ + generated_text(
                old(self).ctx(),
                xsd_view(*file),
                texts(use_imports@),
            ),
            final(self).ctx() == registered(old(self).ctx(), xsd_view(*file)),
    {
        let ghost start = self.output@;
        let ghost ctx0 = self.ctx();
        self.emit_header(file.path.as_str(), use_imports);
        let ghost h = self.output@;
        self.register_groups(file);
        self.register_simple_types(file);
        assert(self.ctx() =~= registered(ctx0, xsd_view(*file)));
        self.emit_simple_types(file);
        let ghost p1 = self.output@;
        let emitted = self.emit_complex_types(file);
        let ghost p2 = self.output@;
        self.emit_elements(file, &emitted);
        assert(self.output@ =~= start + generated_text(ctx0, xsd_view(*file), texts(use_imports@)));
    }
}

} // verus!
