//! The schema model that the parser builds and the code generator reads, and
//! its mathematical view (strings as `Seq<char>`, vectors as `Seq`).
use vstd::prelude::*;

verus! {

broadcast use vstd::std_specs::vec::group_vec_axioms;

/// Represents an XSD simple type (restriction-, list- or union-based).
#[derive(Debug, Clone)]
pub struct SimpleTypeDef {
    pub name: String,
    pub base: String,
    pub enumerations: Vec<(String, Option<String>)>,
    pub pattern: Option<String>,
    pub min_length: Option<u64>,
    pub max_length: Option<u64>,
    pub total_digits: Option<u64>,
    pub fraction_digits: Option<u64>,
    pub min_inclusive: Option<String>,
    pub max_inclusive: Option<String>,
    pub doc: Option<String>,
    /// True when the type is an `<xsd:union>`.
    pub is_union: bool,
    /// The union's `memberTypes`, without namespace prefixes.
    pub member_types: Vec<String>,
}

/// Represents an element inside a complexType sequence.
#[derive(Debug)]
pub struct ElementDef {
    pub name: String,
    pub type_ref: Option<String>,
    pub min_occurs: u64,
    pub max_occurs: MaxOccurs,
    pub doc: Option<String>,
    pub inline_simple_type: Option<SimpleTypeDef>,
    /// An anonymous `<xsd:complexType>` declared directly inside this element.
    /// Hoisted into a named [`ComplexTypeDef`] before code generation, with
    /// `type_ref` rewritten to point at it.
    pub inline_complex_type: Option<Box<ComplexTypeDef>>,
}

#[derive(Debug, Clone, Copy, PartialEq, Eq, Structural)]
pub enum MaxOccurs {
    Bounded(u64),
    Unbounded,
}

/// Represents a choice group (maps to a Rust enum, or to plain fields when
/// its branches are sequences or it repeats without being the struct's only
/// choice).
#[derive(Debug)]
pub struct ChoiceGroup {
    pub min_occurs: u64,
    /// The choice's `maxOccurs`; a choice that may occur more than once
    /// repeats its branches.
    pub max_occurs: MaxOccurs,
    /// True when a branch of the choice is an `<xsd:sequence>` (a composite
    /// choice, whose branches' elements are gathered into `elements`).
    pub composite: bool,
    pub elements: Vec<ElementDef>,
}

/// A member of a complex type's body: a plain element, a choice, or a
/// reference to a named model group (`<xsd:group ref="...">`). Group refs are
/// expanded inline at code generation, so none reaches the emitted output.
#[derive(Debug)]
pub enum SequenceMember {
    Element(Box<ElementDef>),
    Choice(ChoiceGroup),
    GroupRef { name: String, min_occurs: u64 },
}

/// Represents an XSD complex type.
#[derive(Debug)]
pub struct ComplexTypeDef {
    pub name: String,
    pub members: Vec<SequenceMember>,
    pub attributes: Vec<AttributeDef>,
    /// Names of `<xsd:attributeGroup ref="...">` referenced by this type,
    /// expanded inline at code generation.
    pub attribute_group_refs: Vec<String>,
    pub base_type: Option<String>,
    /// True when `base_type` came from `<xsd:simpleContent>` (the base is the
    /// element's text value) rather than `<xsd:complexContent>` (the base is
    /// flattened in).
    pub simple_content: bool,
    pub doc: Option<String>,
}

/// A reusable bundle of attributes (`<xsd:attributeGroup name="...">`).
#[derive(Debug, Clone)]
pub struct AttributeGroupDef {
    pub name: String,
    pub attributes: Vec<AttributeDef>,
}

/// A reusable model group (`<xsd:group name="...">`): an ordered run of
/// elements/choices expanded inline wherever it is referenced.
#[derive(Debug)]
pub struct ModelGroupDef {
    pub name: String,
    pub members: Vec<SequenceMember>,
}

/// Represents an attribute on a complex type.
#[derive(Debug, Clone)]
pub struct AttributeDef {
    pub name: String,
    pub type_ref: String,
    pub required: bool,
    pub fixed: Option<String>,
}

/// Top-level element declaration.
#[derive(Debug)]
pub struct TopLevelElement {
    pub name: String,
    pub type_ref: Option<String>,
    pub complex_type: Option<ComplexTypeDef>,
}

/// Parsed contents of a single XSD file.
#[derive(Debug)]
pub struct XsdFile {
    pub path: String,
    pub simple_types: Vec<SimpleTypeDef>,
    pub complex_types: Vec<ComplexTypeDef>,
    pub elements: Vec<TopLevelElement>,
    pub attribute_groups: Vec<AttributeGroupDef>,
    pub model_groups: Vec<ModelGroupDef>,
    pub includes: Vec<String>,
}

// ---------------------------------------------------------------------------
// Mathematical view
// ---------------------------------------------------------------------------

pub type Text = Seq<char>;

pub struct SimpleTypeModel {
    pub name: Text,
    pub base: Text,
    pub enumerations: Seq<(Text, Option<Text>)>,
    pub pattern: Option<Text>,
    pub min_length: Option<u64>,
    pub max_length: Option<u64>,
    pub total_digits: Option<u64>,
    pub fraction_digits: Option<u64>,
    pub min_inclusive: Option<Text>,
    pub max_inclusive: Option<Text>,
    pub doc: Option<Text>,
    pub is_union: bool,
    pub member_types: Seq<Text>,
}

pub struct ElementModel {
    pub name: Text,
    pub type_ref: Option<Text>,
    pub min_occurs: u64,
    pub max_occurs: MaxOccurs,
    pub doc: Option<Text>,
    pub inline_simple_type: Option<SimpleTypeModel>,
    pub inline_complex_type: Option<Box<ComplexTypeModel>>,
}

pub struct ChoiceModel {
    pub min_occurs: u64,
    pub max_occurs: MaxOccurs,
    pub composite: bool,
    pub elements: Seq<ElementModel>,
}

pub enum MemberModel {
    Element(ElementModel),
    Choice(ChoiceModel),
    GroupRef { name: Text, min_occurs: u64 },
}

pub struct ComplexTypeModel {
    pub name: Text,
    pub members: Seq<MemberModel>,
    pub attributes: Seq<AttributeModel>,
    pub attribute_group_refs: Seq<Text>,
    pub base_type: Option<Text>,
    pub simple_content: bool,
    pub doc: Option<Text>,
}

pub struct AttributeModel {
    pub name: Text,
    pub type_ref: Text,
    pub required: bool,
    pub fixed: Option<Text>,
}

pub struct AttributeGroupModel {
    pub name: Text,
    pub attributes: Seq<AttributeModel>,
}

pub struct ModelGroupModel {
    pub name: Text,
    pub members: Seq<MemberModel>,
}

pub struct TopLevelModel {
    pub name: Text,
    pub type_ref: Option<Text>,
    pub complex_type: Option<ComplexTypeModel>,
}

pub struct XsdModel {
    pub path: Text,
    pub simple_types: Seq<SimpleTypeModel>,
    pub complex_types: Seq<ComplexTypeModel>,
    pub elements: Seq<TopLevelModel>,
    pub attribute_groups: Seq<AttributeGroupModel>,
    pub model_groups: Seq<ModelGroupModel>,
    pub includes: Seq<Text>,
}

pub open spec fn opt_text(o: Option<String>) -> Option<Text> {
    match o {
        Some(s) => Some(s@),
        None => None,
    }
}

pub open spec fn texts(v: Seq<String>) -> Seq<Text> {
    v.map_values(|s: String| s@)
}

pub open spec fn enum_view(e: (String, Option<String>)) -> (Text, Option<Text>) {
    (e.0@, opt_text(e.1))
}

pub open spec fn simple_view(st: SimpleTypeDef) -> SimpleTypeModel {
    SimpleTypeModel {
        name: st.name@,
        base: st.base@,
        enumerations: st.enumerations@.map_values(|e: (String, Option<String>)| enum_view(e)),
        pattern: opt_text(st.pattern),
        min_length: st.min_length,
        max_length: st.max_length,
        total_digits: st.total_digits,
        fraction_digits: st.fraction_digits,
        min_inclusive: opt_text(st.min_inclusive),
        max_inclusive: opt_text(st.max_inclusive),
        doc: opt_text(st.doc),
        is_union: st.is_union,
        member_types: texts(st.member_types@),
    }
}

pub open spec fn attr_view(a: AttributeDef) -> AttributeModel {
    AttributeModel {
        name: a.name@,
        type_ref: a.type_ref@,
        required: a.required,
        fixed: opt_text(a.fixed),
    }
}

pub open spec fn attrs_view(v: Seq<AttributeDef>) -> Seq<AttributeModel> {
    v.map_values(|a: AttributeDef| attr_view(a))
}

pub open spec fn element_view(e: ElementDef) -> ElementModel
    decreases e, 2int,
{
    ElementModel {
        name: e.name@,
        type_ref: opt_text(e.type_ref),
        min_occurs: e.min_occurs,
        max_occurs: e.max_occurs,
        doc: opt_text(e.doc),
        inline_simple_type: match e.inline_simple_type {
            Some(st) => Some(simple_view(st)),
            None => None,
        },
        inline_complex_type: match e.inline_complex_type {
            Some(b) => Some(Box::new(complex_view(*b))),
            None => None,
        },
    }
}

pub open spec fn elements_view(v: Seq<ElementDef>) -> Seq<ElementModel>
    decreases v, 3int,
{
    if v.len() == 0 {
        Seq::empty()
    } else {
        elements_view(v.drop_last()).push(element_view(v.last()))
    }
}

pub open spec fn member_view(m: SequenceMember) -> MemberModel
    decreases m, 1int,
{
    match m {
        SequenceMember::Element(e) => MemberModel::Element(element_view(*e)),
        SequenceMember::Choice(c) => MemberModel::Choice(
            ChoiceModel {
                min_occurs: c.min_occurs,
                max_occurs: c.max_occurs,
                composite: c.composite,
                elements: elements_view(c.elements@),
            },
        ),
        SequenceMember::GroupRef { name, min_occurs } => MemberModel::GroupRef {
            name: name@,
            min_occurs,
        },
    }
}

pub open spec fn choice_view(c: ChoiceGroup) -> ChoiceModel {
    ChoiceModel {
        min_occurs: c.min_occurs,
        max_occurs: c.max_occurs,
        composite: c.composite,
        elements: elements_view(c.elements@),
    }
}

pub open spec fn members_view(v: Seq<SequenceMember>) -> Seq<MemberModel>
    decreases v, 3int,
{
    if v.len() == 0 {
        Seq::empty()
    } else {
        members_view(v.drop_last()).push(member_view(v.last()))
    }
}

pub open spec fn complex_view(c: ComplexTypeDef) -> ComplexTypeModel
    decreases c, 4int,
{
    ComplexTypeModel {
        name: c.name@,
        members: members_view(c.members@),
        attributes: attrs_view(c.attributes@),
        attribute_group_refs: texts(c.attribute_group_refs@),
        base_type: opt_text(c.base_type),
        simple_content: c.simple_content,
        doc: opt_text(c.doc),
    }
}

pub open spec fn top_level_view(e: TopLevelElement) -> TopLevelModel {
    TopLevelModel {
        name: e.name@,
        type_ref: opt_text(e.type_ref),
        complex_type: match e.complex_type {
            Some(c) => Some(complex_view(c)),
            None => None,
        },
    }
}

pub open spec fn attr_group_view(g: AttributeGroupDef) -> AttributeGroupModel {
    AttributeGroupModel { name: g.name@, attributes: attrs_view(g.attributes@) }
}

pub open spec fn model_group_view(g: ModelGroupDef) -> ModelGroupModel {
    ModelGroupModel { name: g.name@, members: members_view(g.members@) }
}

pub open spec fn xsd_view(f: XsdFile) -> XsdModel {
    XsdModel {
        path: f.path@,
        simple_types: f.simple_types@.map_values(|st: SimpleTypeDef| simple_view(st)),
        complex_types: f.complex_types@.map_values(|c: ComplexTypeDef| complex_view(c)),
        elements: f.elements@.map_values(|e: TopLevelElement| top_level_view(e)),
        attribute_groups: f.attribute_groups@.map_values(|g: AttributeGroupDef| attr_group_view(g)),
        model_groups: f.model_groups@.map_values(|g: ModelGroupDef| model_group_view(g)),
        includes: texts(f.includes@),
    }
}

// ---------------------------------------------------------------------------
// Copies that keep the view
// ---------------------------------------------------------------------------

pub proof fn lemma_members_view_push(v: Seq<SequenceMember>, m: SequenceMember)
    ensures
        members_view(v.push(m)) == members_view(v).push(member_view(m)),
{
    assert(v.push(m).drop_last() =~= v);
}

pub proof fn lemma_members_view_append(a: Seq<SequenceMember>, b: Seq<SequenceMember>)
    ensures
        members_view(a + b) == members_view(a) + members_view(b),
    decreases b.len(),
{
    if b.len() == 0 {
        assert(a + b =~= a);
        assert(members_view(a) + members_view(b) =~= members_view(a));
    } else {
        lemma_members_view_append(a, b.drop_last());
        assert((a + b).drop_last() =~= a + b.drop_last());
        assert(members_view(a) + members_view(b) =~= (members_view(a) + members_view(
            b.drop_last(),
        )).push(member_view(b.last())));
    }
}

pub proof fn lemma_members_view_len(v: Seq<SequenceMember>)
    ensures
        members_view(v).len() == v.len(),
        forall|i: int| 0 <= i < v.len() ==> #[trigger] members_view(v)[i] == member_view(v[i]),
    decreases v.len(),
{
    if v.len() > 0 {
        lemma_members_view_len(v.drop_last());
        assert forall|i: int| 0 <= i < v.len() implies #[trigger] members_view(v)[i]
            == member_view(v[i]) by {
            if i < v.len() - 1 {
                assert(v.drop_last()[i] == v[i]);
            }
        }
    }
}

pub proof fn lemma_elements_view_push(v: Seq<ElementDef>, e: ElementDef)
    ensures
        elements_view(v.push(e)) == elements_view(v).push(element_view(e)),
{
    assert(v.push(e).drop_last() =~= v);
}

pub proof fn lemma_elements_view_len(v: Seq<ElementDef>)
    ensures
        elements_view(v).len() == v.len(),
        forall|i: int| 0 <= i < v.len() ==> #[trigger] elements_view(v)[i] == element_view(v[i]),
    decreases v.len(),
{
    if v.len() > 0 {
        lemma_elements_view_len(v.drop_last());
        assert forall|i: int| 0 <= i < v.len() implies #[trigger] elements_view(v)[i]
            == element_view(v[i]) by {
            if i < v.len() - 1 {
                assert(v.drop_last()[i] == v[i]);
            }
        }
    }
}

/// A copy of `s`.
pub fn copy_text(s: &String) -> (r: String)
    ensures
        r@ == s@,
{
    crate::text::owned(s.as_str())
}

pub fn copy_opt_string(o: &Option<String>) -> (r: Option<String>)
    ensures
        opt_text(r) == opt_text(*o),
{
    match o {
        Some(s) => Some(s.clone()),
        None => None,
    }
}

pub fn copy_strings(v: &Vec<String>) -> (r: Vec<String>)
    ensures
        texts(r@) == texts(v@),
{
    let mut r: Vec<String> = Vec::new();
    let mut i: usize = 0;
    while i < v.len()
        invariant
            i <= v.len(),
            texts(r@) == texts(v@.subrange(0, i as int)),
        decreases v.len() - i,
    {
        let ghost before = r@;
        r.push(v[i].clone());
        assert(texts(r@) =~= texts(before).push(v@[i as int]@));
        assert(texts(v@.subrange(0, i + 1)) =~= texts(v@.subrange(0, i as int)).push(v@[i as int]@));
        i = i + 1;
    }
    assert(v@.subrange(0, i as int) =~= v@);
    r
}

impl SimpleTypeDef {
    pub fn duplicate(&self) -> (r: Self)
        ensures
            simple_view(r) == simple_view(*self),
    {
        let mut enumerations: Vec<(String, Option<String>)> = Vec::new();
        let mut i: usize = 0;
        while i < self.enumerations.len()
            invariant
                i <= self.enumerations@.len(),
                enumerations@.map_values(|e: (String, Option<String>)| enum_view(e))
                    == self.enumerations@.subrange(0, i as int).map_values(
                    |e: (String, Option<String>)| enum_view(e),
                ),
            decreases self.enumerations.len() - i,
        {
            let ghost before = enumerations@;
            let (v, d) = &self.enumerations[i];
            enumerations.push((v.clone(), copy_opt_string(d)));
            assert(enumerations@.map_values(|e: (String, Option<String>)| enum_view(e))
                =~= before.map_values(|e: (String, Option<String>)| enum_view(e)).push(
                enum_view(self.enumerations@[i as int]),
            ));
            assert(self.enumerations@.subrange(0, i + 1).map_values(
                |e: (String, Option<String>)| enum_view(e),
            ) =~= self.enumerations@.subrange(0, i as int).map_values(
                |e: (String, Option<String>)| enum_view(e),
            ).push(enum_view(self.enumerations@[i as int])));
            i = i + 1;
        }
        assert(self.enumerations@.subrange(0, i as int) =~= self.enumerations@);
        let r = SimpleTypeDef {
            name: self.name.clone(),
            base: self.base.clone(),
            enumerations,
            pattern: copy_opt_string(&self.pattern),
            min_length: self.min_length,
            max_length: self.max_length,
            total_digits: self.total_digits,
            fraction_digits: self.fraction_digits,
            min_inclusive: copy_opt_string(&self.min_inclusive),
            max_inclusive: copy_opt_string(&self.max_inclusive),
            doc: copy_opt_string(&self.doc),
            is_union: self.is_union,
            member_types: copy_strings(&self.member_types),
        };
        assert(simple_view(r) =~= simple_view(*self));
        r
    }
}

impl AttributeDef {
    pub fn duplicate(&self) -> (r: Self)
        ensures
            attr_view(r) == attr_view(*self),
    {
        AttributeDef {
            name: self.name.clone(),
            type_ref: self.type_ref.clone(),
            required: self.required,
            fixed: copy_opt_string(&self.fixed),
        }
    }
}

pub fn copy_attrs(v: &Vec<AttributeDef>) -> (r: Vec<AttributeDef>)
    ensures
        attrs_view(r@) == attrs_view(v@),
{
    let mut r: Vec<AttributeDef> = Vec::new();
    let mut i: usize = 0;
    while i < v.len()
        invariant
            i <= v.len(),
            attrs_view(r@) == attrs_view(v@.subrange(0, i as int)),
        decreases v.len() - i,
    {
        let ghost before = r@;
        r.push(v[i].duplicate());
        assert(attrs_view(r@) =~= attrs_view(before).push(attr_view(v@[i as int])));
        assert(attrs_view(v@.subrange(0, i + 1)) =~= attrs_view(v@.subrange(0, i as int)).push(
            attr_view(v@[i as int]),
        ));
        i = i + 1;
    }
    assert(v@.subrange(0, i as int) =~= v@);
    r
}

pub fn copy_element(e: &ElementDef) -> (r: ElementDef)
    ensures
        element_view(r) == element_view(*e),
    decreases *e, 2int,
{
    let inline_simple_type = match &e.inline_simple_type {
        Some(st) => Some(st.duplicate()),
        None => None,
    };
    let inline_complex_type = match &e.inline_complex_type {
        Some(b) => Some(Box::new(copy_complex(&**b))),
        None => None,
    };
    let r = ElementDef {
        name: e.name.clone(),
        type_ref: copy_opt_string(&e.type_ref),
        min_occurs: e.min_occurs,
        max_occurs: e.max_occurs,
        doc: copy_opt_string(&e.doc),
        inline_simple_type,
        inline_complex_type,
    };
    assert(element_view(r) =~= element_view(*e));
    r
}

pub fn copy_elements(v: &Vec<ElementDef>) -> (r: Vec<ElementDef>)
    ensures
        elements_view(r@) == elements_view(v@),
    decreases *v, 3int,
{
    let mut r: Vec<ElementDef> = Vec::new();
    let mut i: usize = 0;
    while i < v.len()
        invariant
            i <= v.len(),
            elements_view(r@) == elements_view(v@.subrange(0, i as int)),
        decreases v.len() - i,
    {
        let ghost before = r@;
        let c = copy_element(&v[i]);
        r.push(c);
        proof {
            lemma_elements_view_push(before, c);
            lemma_elements_view_push(v@.subrange(0, i as int), v@[i as int]);
            assert(v@.subrange(0, i + 1) =~= v@.subrange(0, i as int).push(v@[i as int]));
        }
        i = i + 1;
    }
    assert(v@.subrange(0, i as int) =~= v@);
    r
}

pub fn copy_member(m: &SequenceMember) -> (r: SequenceMember)
    ensures
        member_view(r) == member_view(*m),
    decreases *m, 1int,
{
    match m {
        SequenceMember::Element(e) => SequenceMember::Element(Box::new(copy_element(&**e))),
        SequenceMember::Choice(c) => SequenceMember::Choice(
            ChoiceGroup {
                min_occurs: c.min_occurs,
                max_occurs: c.max_occurs,
                composite: c.composite,
                elements: copy_elements(&c.elements),
            },
        ),
        SequenceMember::GroupRef { name, min_occurs } => SequenceMember::GroupRef {
            name: name.clone(),
            min_occurs: *min_occurs,
        },
    }
}

pub fn copy_members(v: &Vec<SequenceMember>) -> (r: Vec<SequenceMember>)
    ensures
        members_view(r@) == members_view(v@),
    decreases *v, 3int,
{
    let mut r: Vec<SequenceMember> = Vec::new();
    let mut i: usize = 0;
    while i < v.len()
        invariant
            i <= v.len(),
            members_view(r@) == members_view(v@.subrange(0, i as int)),
        decreases v.len() - i,
    {
        let ghost before = r@;
        let c = copy_member(&v[i]);
        r.push(c);
        proof {
            lemma_members_view_push(before, c);
            lemma_members_view_push(v@.subrange(0, i as int), v@[i as int]);
            assert(v@.subrange(0, i + 1) =~= v@.subrange(0, i as int).push(v@[i as int]));
        }
        i = i + 1;
    }
    assert(v@.subrange(0, i as int) =~= v@);
    r
}

pub fn copy_complex(c: &ComplexTypeDef) -> (r: ComplexTypeDef)
    ensures
        complex_view(r) == complex_view(*c),
    decreases *c, 4int,
{
    let r = ComplexTypeDef {
        name: c.name.clone(),
        members: copy_members(&c.members),
        attributes: copy_attrs(&c.attributes),
        attribute_group_refs: copy_strings(&c.attribute_group_refs),
        base_type: copy_opt_string(&c.base_type),
        simple_content: c.simple_content,
        doc: copy_opt_string(&c.doc),
    };
    assert(complex_view(r) =~= complex_view(*c));
    r
}


impl Clone for ElementDef {
    fn clone(&self) -> (r: Self)
        ensures
            element_view(r) == element_view(*self),
    {
        copy_element(self)
    }
}

impl Clone for ChoiceGroup {
    fn clone(&self) -> (r: Self)
        ensures
            choice_view(r) == choice_view(*self),
    {
        ChoiceGroup {
            min_occurs: self.min_occurs,
            max_occurs: self.max_occurs,
            composite: self.composite,
            elements: copy_elements(&self.elements),
        }
    }
}

impl Clone for SequenceMember {
    fn clone(&self) -> (r: Self)
        ensures
            member_view(r) == member_view(*self),
    {
        copy_member(self)
    }
}

impl Clone for ComplexTypeDef {
    fn clone(&self) -> (r: Self)
        ensures
            complex_view(r) == complex_view(*self),
    {
        copy_complex(self)
    }
}

impl Clone for ModelGroupDef {
    fn clone(&self) -> (r: Self)
        ensures
            model_group_view(r) == model_group_view(*self),
    {
        ModelGroupDef { name: copy_text(&self.name), members: copy_members(&self.members) }
    }
}

impl Clone for TopLevelElement {
    fn clone(&self) -> (r: Self)
        ensures
            top_level_view(r) == top_level_view(*self),
    {
        let complex_type = match &self.complex_type {
            Some(c) => Some(copy_complex(c)),
            None => None,
        };
        let r = TopLevelElement {
            name: copy_text(&self.name),
            type_ref: copy_opt_string(&self.type_ref),
            complex_type,
        };
        assert(top_level_view(r) =~= top_level_view(*self));
        r
    }
}

impl Clone for XsdFile {
    fn clone(&self) -> (r: Self)
        ensures
            xsd_view(r) == xsd_view(*self),
    {
        let mut simple_types: Vec<SimpleTypeDef> = Vec::new();
        let mut i: usize = 0;
        while i < self.simple_types.len()
            invariant
                i <= self.simple_types.len(),
                simple_types.len() == i,
                forall|j: int| 0 <= j < i ==> simple_view(#[trigger] simple_types@[j]) == simple_view(self.simple_types@[j]),
            decreases self.simple_types.len() - i,
        {
            simple_types.push(self.simple_types[i].duplicate());
            i = i + 1;
        }
        let mut complex_types: Vec<ComplexTypeDef> = Vec::new();
        let mut i: usize = 0;
        while i < self.complex_types.len()
            invariant
                i <= self.complex_types.len(),
                complex_types.len() == i,
                forall|j: int| 0 <= j < i ==> complex_view(#[trigger] complex_types@[j]) == complex_view(self.complex_types@[j]),
            decreases self.complex_types.len() - i,
        {
            complex_types.push(copy_complex(&self.complex_types[i]));
            i = i + 1;
        }
        let mut elements: Vec<TopLevelElement> = Vec::new();
        let mut i: usize = 0;
        while i < self.elements.len()
            invariant
                i <= self.elements.len(),
                elements.len() == i,
                forall|j: int| 0 <= j < i ==> top_level_view(#[trigger] elements@[j]) == top_level_view(self.elements@[j]),
            decreases self.elements.len() - i,
        {
            elements.push(self.elements[i].clone());
            i = i + 1;
        }
        let mut attribute_groups: Vec<AttributeGroupDef> = Vec::new();
        let mut i: usize = 0;
        while i < self.attribute_groups.len()
            invariant
                i <= self.attribute_groups.len(),
                attribute_groups.len() == i,
                forall|j: int| 0 <= j < i ==> attr_group_view(#[trigger] attribute_groups@[j]) == attr_group_view(self.attribute_groups@[j]),
            decreases self.attribute_groups.len() - i,
        {
            let g = &self.attribute_groups[i];
            attribute_groups.push(AttributeGroupDef { name: copy_text(&g.name), attributes: copy_attrs(&g.attributes) });
            i = i + 1;
        }
        let mut model_groups: Vec<ModelGroupDef> = Vec::new();
        let mut i: usize = 0;
        while i < self.model_groups.len()
            invariant
                i <= self.model_groups.len(),
                model_groups.len() == i,
                forall|j: int| 0 <= j < i ==> model_group_view(#[trigger] model_groups@[j]) == model_group_view(self.model_groups@[j]),
            decreases self.model_groups.len() - i,
        {
            model_groups.push(self.model_groups[i].clone());
            i = i + 1;
        }
        let r = XsdFile {
            path: copy_text(&self.path),
            simple_types,
            complex_types,
            elements,
            attribute_groups,
            model_groups,
            includes: copy_strings(&self.includes),
        };
        let ghost (a, b) = (xsd_view(r), xsd_view(*self));
        assert(a.simple_types =~= b.simple_types);
        assert(a.complex_types =~= b.complex_types);
        assert(a.elements =~= b.elements);
        assert(a.attribute_groups =~= b.attribute_groups);
        assert(a.model_groups =~= b.model_groups);
        assert(a.includes =~= b.includes);
        assert(a == b);
        r
    }
}

} // verus!
