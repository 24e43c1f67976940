use xsd_to_rs::codegen::CodeGenerator;
use xsd_to_rs::parser::parse_xsd;

const SIMPLE_XSD: &str = r#"<?xml version="1.0" encoding="UTF-8"?>
<xsd:schema xmlns:xsd="http://www.w3.org/2001/XMLSchema">
  <xsd:simpleType name="FilingStatusType">
    <xsd:annotation>
      <xsd:documentation>The filing status for a tax return.</xsd:documentation>
    </xsd:annotation>
    <xsd:restriction base="xsd:string">
      <xsd:enumeration value="Single">
        <xsd:annotation>
          <xsd:documentation>Unmarried individual</xsd:documentation>
        </xsd:annotation>
      </xsd:enumeration>
      <xsd:enumeration value="MarriedFilingJointly"/>
      <xsd:enumeration value="HeadOfHousehold"/>
    </xsd:restriction>
  </xsd:simpleType>
  <xsd:simpleType name="SSNType">
    <xsd:annotation>
      <xsd:documentation>Social Security Number (9 digits).</xsd:documentation>
    </xsd:annotation>
    <xsd:restriction base="xsd:string">
      <xsd:pattern value="[0-9]{9}"/>
    </xsd:restriction>
  </xsd:simpleType>
  <xsd:simpleType name="AmountType">
    <xsd:restriction base="xsd:decimal">
      <xsd:totalDigits value="12"/>
      <xsd:fractionDigits value="2"/>
    </xsd:restriction>
  </xsd:simpleType>
  <xsd:complexType name="PersonType">
    <xsd:annotation>
      <xsd:documentation>Represents a person (filer or dependent).</xsd:documentation>
    </xsd:annotation>
    <xsd:sequence>
      <xsd:element name="FirstName" type="xsd:string">
        <xsd:annotation>
          <xsd:documentation>The person's first name.</xsd:documentation>
        </xsd:annotation>
      </xsd:element>
      <xsd:element name="LastName" type="xsd:string"/>
      <xsd:element name="SSN" type="SSNType"/>
      <xsd:element name="MiddleInitial" type="xsd:string" minOccurs="0"/>
    </xsd:sequence>
  </xsd:complexType>
  <xsd:complexType name="FormType">
    <xsd:sequence>
      <xsd:element name="Filer" type="PersonType"/>
      <xsd:element name="Dependents" type="PersonType" minOccurs="0" maxOccurs="unbounded"/>
      <xsd:element name="Amount" type="AmountType" minOccurs="0"/>
      <xsd:choice>
        <xsd:element name="DirectDeposit" type="xsd:string"/>
        <xsd:element name="MailCheck" type="xsd:string"/>
      </xsd:choice>
    </xsd:sequence>
    <xsd:attribute name="version" type="xsd:string" use="required"/>
  </xsd:complexType>
</xsd:schema>
"#;

const REFS_XSD: &str = r#"<?xml version="1.0" encoding="UTF-8"?>
<xsd:schema xmlns:xsd="http://www.w3.org/2001/XMLSchema">
  <xsd:simpleType name="ListType">
    <xsd:list itemType="xsd:string"/>
  </xsd:simpleType>
  <xsd:complexType name="Envelope">
    <xsd:sequence>
      <xsd:element ref="Header" minOccurs="0"/>
      <xsd:element ref="Body"/>
    </xsd:sequence>
  </xsd:complexType>
  <xsd:element name="Header" type="xsd:string"/>
  <xsd:element name="Body" type="xsd:string"/>
</xsd:schema>
"#;

const UNION_XSD: &str = r#"<?xml version="1.0" encoding="UTF-8"?>
<xsd:schema xmlns:xsd="http://www.w3.org/2001/XMLSchema">
  <xsd:simpleType name="USCountryCodeType">
    <xsd:restriction base="xsd:string">
      <xsd:enumeration value="US"/>
    </xsd:restriction>
  </xsd:simpleType>
  <xsd:simpleType name="CountryCodeType">
    <xsd:restriction base="xsd:string">
      <xsd:enumeration value="CA"/>
      <xsd:enumeration value="MX"/>
    </xsd:restriction>
  </xsd:simpleType>
  <xsd:simpleType name="AllCountryCodeType">
    <xsd:union memberTypes="USCountryCodeType CountryCodeType"/>
  </xsd:simpleType>
  <xsd:simpleType name="YearType">
    <xsd:restriction base="xsd:string">
      <xsd:pattern value="[0-9]{4}"/>
    </xsd:restriction>
  </xsd:simpleType>
  <xsd:simpleType name="YearOrVariousType">
    <xsd:union memberTypes="YearType">
      <xsd:simpleType>
        <xsd:restriction base="xsd:string">
          <xsd:enumeration value="VARIOUS"/>
        </xsd:restriction>
      </xsd:simpleType>
    </xsd:union>
  </xsd:simpleType>
  <xsd:complexType name="PayeeType">
    <xsd:sequence>
      <xsd:choice maxOccurs="unbounded">
        <xsd:element name="SSN" type="xsd:string"/>
        <xsd:element name="EIN" type="xsd:string"/>
      </xsd:choice>
      <xsd:choice>
        <xsd:element name="BusinessName" type="xsd:string"/>
        <xsd:element name="PersonName" type="xsd:string"/>
      </xsd:choice>
    </xsd:sequence>
  </xsd:complexType>
  <xsd:complexType name="IdListType">
    <xsd:sequence>
      <xsd:choice maxOccurs="2">
        <xsd:element name="SSN" type="xsd:string"/>
        <xsd:element name="EIN" type="xsd:string"/>
      </xsd:choice>
    </xsd:sequence>
  </xsd:complexType>
</xsd:schema>
"#;

const COMPOSITE_CHOICE_XSD: &str = r#"<?xml version="1.0" encoding="UTF-8"?>
<xsd:schema xmlns:xsd="http://www.w3.org/2001/XMLSchema">
  <xsd:complexType name="AmountGrpType">
    <xsd:sequence>
      <xsd:element name="Amt" type="xsd:decimal"/>
    </xsd:sequence>
  </xsd:complexType>
  <xsd:complexType name="ScheduleMType">
    <xsd:sequence>
      <xsd:element name="PartnerName" type="xsd:string"/>
      <xsd:choice>
        <xsd:sequence>
          <xsd:element name="CategoryOneInd" type="xsd:string"/>
          <xsd:element name="USFilerGrp" type="AmountGrpType"/>
          <xsd:element name="ForeignCorpGrp" type="AmountGrpType" minOccurs="0"/>
        </xsd:sequence>
        <xsd:sequence>
          <xsd:element name="CategoryTwoInd" type="xsd:string"/>
          <xsd:element name="USFilerGrp" type="AmountGrpType"/>
          <xsd:element name="ForeignCorpGrp" type="AmountGrpType" minOccurs="0"/>
        </xsd:sequence>
      </xsd:choice>
    </xsd:sequence>
  </xsd:complexType>
</xsd:schema>
"#;

fn generate_from(path: &str, content: &str) -> String {
    let xsd = parse_xsd(path, content).unwrap();
    let mut gen = CodeGenerator::new();
    gen.generate(&xsd, &[]);
    gen.output
}

fn generate(fixture: &str) -> String {
    match fixture {
        "tests/fixtures/simple.xsd" => generate_from(fixture, SIMPLE_XSD),
        "tests/fixtures/refs.xsd" => generate_from(fixture, REFS_XSD),
        "tests/fixtures/union_and_repeating_choice.xsd" => generate_from(fixture, UNION_XSD),
        "tests/fixtures/composite_choice.xsd" => generate_from(fixture, COMPOSITE_CHOICE_XSD),
        _ => panic!("no fixture {fixture}"),
    }
}

#[test]
fn generates_enum_for_enumeration() {
    let output = generate("tests/fixtures/simple.xsd");
    assert!(output.contains("pub enum FilingStatusType {"));
    assert!(output.contains("Single,"));
    assert!(output.contains("MarriedFilingJointly,"));
    assert!(output.contains("HeadOfHousehold,"));
    assert!(output.contains("impl Serialize for FilingStatusType {"));
    assert!(output.contains("FilingStatusType::Single => \"Single\","));
    assert!(output.contains("impl<'de> Deserialize<'de> for FilingStatusType {"));
    assert!(output.contains("\"Single\" => Ok(FilingStatusType::Single),"));
}

#[test]
fn generates_newtype_for_restricted_simple_type() {
    let output = generate("tests/fixtures/simple.xsd");
    assert!(output.contains("pub struct SSNType(pub String);"));
    assert!(output.contains("pub struct AmountType(pub Decimal);"));
}

#[test]
fn generates_doc_comments_for_types() {
    let output = generate("tests/fixtures/simple.xsd");
    assert!(output.contains("/// The filing status for a tax return."));
    assert!(output.contains("/// Social Security Number (9 digits)."));
    assert!(output.contains("/// Represents a person (filer or dependent)."));
}

#[test]
fn generates_doc_comments_for_enum_variants() {
    let output = generate("tests/fixtures/simple.xsd");
    assert!(output.contains("    /// Unmarried individual\n    Single,"));
}

#[test]
fn generates_doc_comments_for_fields() {
    let output = generate("tests/fixtures/simple.xsd");
    assert!(
        output.contains("    /// The person's first name.\n    #[serde(rename = \"FirstName\")]")
    );
}

#[test]
fn generates_struct_for_complex_type() {
    let output = generate("tests/fixtures/simple.xsd");
    assert!(output.contains("pub struct PersonType {"));
    assert!(output.contains("pub first_name: String,"));
    assert!(output.contains("pub last_name: String,"));
    assert!(output.contains("pub ssn: SSNType,"));
    assert!(output.contains("pub middle_initial: Option<String>,"));
}

#[test]
fn generates_optional_and_vec_fields() {
    let output = generate("tests/fixtures/simple.xsd");
    assert!(output.contains("pub dependents: Vec<PersonType>,"));
}

#[test]
fn generates_choice_enum() {
    let output = generate("tests/fixtures/simple.xsd");
    assert!(output.contains("pub enum FormTypeChoice0 {"));
    assert!(output.contains("DirectDeposit(String),"));
    assert!(output.contains("MailCheck(String),"));
}

#[test]
fn generates_attribute_field() {
    let output = generate("tests/fixtures/simple.xsd");
    assert!(output.contains("#[serde(rename = \"@version\")]"));
    assert!(output.contains("pub version: String,"));
}

#[test]
fn generates_ref_elements() {
    let output = generate("tests/fixtures/refs.xsd");
    assert!(output.contains("pub struct Envelope {"));
    assert!(output.contains("pub header: Option<Header>,"));
    assert!(output.contains("pub body: Body,"));
}

#[test]
fn generates_serde_derive() {
    let output = generate("tests/fixtures/simple.xsd");
    assert!(output.contains("use serde::{Deserialize, Serialize};"));
    assert!(output.contains("#[derive(Debug, Clone, PartialEq, Serialize, Deserialize)]"));
}

#[test]
fn generates_use_imports_when_provided() {
    let xsd = parse_xsd("tests/fixtures/simple.xsd", SIMPLE_XSD).unwrap();
    let mut gen = CodeGenerator::new();
    gen.generate(&xsd, &["use crate::common::efiletypes::*;".into()]);
    assert!(gen.output.contains("use crate::common::efiletypes::*;"));
}

#[test]
fn union_over_enumerations_validates_its_value_set() {
    let output = generate("tests/fixtures/union_and_repeating_choice.xsd");
    assert!(
        output.contains("pub struct AllCountryCodeType(pub String);"),
        "{output}"
    );
    assert!(
        output.contains("pub const ALLOWED: &'static [&'static str] = &["),
        "{output}"
    );
    assert!(output.contains("\"US\","), "{output}");
    assert!(
        output.contains("\"CA\","),
        "missing member-type values\n{output}"
    );
    assert!(
        output.contains("impl<'de> Deserialize<'de> for AllCountryCodeType"),
        "{output}"
    );

    assert!(
        output.contains("pub struct YearOrVariousType(pub String);"),
        "{output}"
    );
    let open = output
        .split("pub struct YearOrVariousType")
        .nth(1)
        .unwrap_or_default();
    assert!(
        !open.starts_with("(pub String);\n\nimpl YearOrVariousType"),
        "open union must not gain an ALLOWED set\n{output}"
    );
}

#[test]
fn header_names_the_schema_and_lists_imports_in_order() {
    let xsd = parse_xsd("in/a.xsd", "<xsd:schema xmlns:xsd=\"x\"></xsd:schema>").unwrap();
    let mut gen = CodeGenerator::new();
    gen.generate(&xsd, &["use crate::a::*;".to_string(), "use crate::b::*;".to_string()]);
    assert_eq!(
        gen.output,
        "// Auto-generated from XSD schema: in/a.xsd\n// Do not edit manually.\n\n\
         #[allow(unused_imports)]\nuse serde::{Deserialize, Serialize};\n\
         #[allow(unused_imports)]\nuse rust_decimal::Decimal;\n\
         #[allow(unused_imports)]\nuse std::str::FromStr;\n\
         #[allow(unused_imports)]\nuse crate::a::*;\n\
         #[allow(unused_imports)]\nuse crate::b::*;\n\n"
    );
}

const GROUPS_XSD: &str = r#"<xsd:schema xmlns:xsd="http://www.w3.org/2001/XMLSchema">
  <xsd:attributeGroup name="CommonAttrs">
    <xsd:attribute name="id" type="xsd:string" use="required"/>
    <xsd:attribute name="lang" type="xsd:string"/>
  </xsd:attributeGroup>
  <xsd:group name="NameGroup">
    <xsd:sequence>
      <xsd:element name="First" type="xsd:string"/>
      <xsd:element name="Count" type="xsd:int" maxOccurs="3"/>
    </xsd:sequence>
  </xsd:group>
  <xsd:complexType name="HolderType">
    <xsd:sequence>
      <xsd:group ref="NameGroup" minOccurs="0"/>
      <xsd:group ref="MissingGroup"/>
    </xsd:sequence>
    <xsd:attributeGroup ref="CommonAttrs"/>
  </xsd:complexType>
  <xsd:complexType name="DerivedType">
    <xsd:complexContent>
      <xsd:extension base="HolderType">
        <xsd:sequence>
          <xsd:element name="Extra" type="xsd:boolean"/>
        </xsd:sequence>
      </xsd:extension>
    </xsd:complexContent>
  </xsd:complexType>
  <xsd:complexType name="MeasureType">
    <xsd:simpleContent>
      <xsd:extension base="xsd:decimal">
        <xsd:attribute name="unit" type="xsd:string" use="required"/>
      </xsd:extension>
    </xsd:simpleContent>
  </xsd:complexType>
  <xsd:element name="Holder" type="HolderType"/>
  <xsd:element name="HolderType" type="HolderType"/>
</xsd:schema>"#;

#[test]
fn expands_group_refs_and_attribute_groups() {
    let output = generate_from("groups.xsd", GROUPS_XSD);
    // A group ref with minOccurs="0" makes every expanded field optional; a
    // repeated element stays a Vec.
    assert!(output.contains(
        "    #[serde(rename = \"First\", skip_serializing_if = \"Option::is_none\")]\n    pub first: Option<String>,"
    ), "{output}");
    assert!(output.contains(
        "    #[serde(rename = \"Count\", default, skip_serializing_if = \"Vec::is_empty\")]\n    pub count: Vec<i64>,"
    ), "{output}");
    assert!(output.contains("    #[serde(rename = \"@id\")]\n    pub id: String,"), "{output}");
    assert!(output.contains(
        "    #[serde(rename = \"@lang\", skip_serializing_if = \"Option::is_none\")]\n    pub lang: Option<String>,"
    ), "{output}");
    assert!(!output.contains("MissingGroup"), "{output}");
}

#[test]
fn emits_extension_bases_and_element_aliases() {
    let output = generate_from("groups.xsd", GROUPS_XSD);
    assert!(output.contains("pub struct DerivedType {\n    #[serde(flatten)]\n    pub base: HolderType,"), "{output}");
    assert!(output.contains("    pub extra: bool,"), "{output}");
    assert!(output.contains("pub struct MeasureType {\n    #[serde(rename = \"$value\")]\n    pub value: Decimal,"), "{output}");
    assert!(output.contains("pub type Holder = HolderType;\n\n"), "{output}");
    assert!(!output.contains("pub type HolderType ="), "{output}");
}

#[test]
fn optional_choice_gets_option_and_value_rename() {
    let content = r#"<xsd:schema xmlns:xsd="http://www.w3.org/2001/XMLSchema">
  <xsd:complexType name="PayType">
    <xsd:sequence>
      <xsd:choice minOccurs="0">
        <xsd:element name="Check" type="xsd:string"/>
        <xsd:element name="Wire" type="xsd:string"/>
        <xsd:element name="Check" type="xsd:string"/>
      </xsd:choice>
    </xsd:sequence>
  </xsd:complexType>
</xsd:schema>"#;
    let output = generate_from("pay.xsd", content);
    assert!(output.contains(
        "    #[serde(rename = \"$value\", skip_serializing_if = \"Option::is_none\")]\n    pub choice_0: Option<PayTypeChoice0>,"
    ), "{output}");
    assert_eq!(output.matches("    Check(String),").count(), 1, "{output}");
    assert!(output.contains("    #[serde(rename = \"Wire\")]\n    Wire(String),"), "{output}");
}

#[test]
fn composite_choice_branches_sharing_an_element_declare_it_once() {
    // Branches of a composite choice are mutually exclusive, so the same
    // element may appear in several of them. Flattening must collapse them:
    // declaring the field per branch is a duplicate-field compile error.
    let output = generate("tests/fixtures/composite_choice.xsd");
    assert_eq!(
        output.matches("pub us_filer_grp:").count(),
        1,
        "shared branch element declared more than once\n{output}"
    );
    assert_eq!(
        output.matches("pub foreign_corp_grp:").count(),
        1,
        "shared branch element declared more than once\n{output}"
    );
    // The branch-discriminating elements are still each emitted, and every
    // flattened field is optional because another branch may have been chosen.
    assert!(output.contains("pub category_one_ind: Option<"), "{output}");
    assert!(output.contains("pub category_two_ind: Option<"), "{output}");
    assert!(output.contains("pub us_filer_grp: Option<"), "{output}");
}

#[test]
fn repeating_choice_is_never_flattened_as_a_sequence() {
    // serde cannot flatten a sequence. A repeating choice that cannot claim
    // `$value` must flatten its branches into plain Vec fields instead.
    let output = generate("tests/fixtures/union_and_repeating_choice.xsd");
    // No field may be both flattened and a Vec.
    let mut prev = "";
    for line in output.lines() {
        if prev.contains("serde(flatten") {
            assert!(
                !line.contains("Vec<"),
                "flatten on a sequence: {prev} / {line}\n{output}"
            );
        }
        prev = line;
    }
    // The repeating branches became their own Vec fields.
    assert!(output.contains("pub ssn: Vec<String>"), "{output}");
    assert!(output.contains("pub ein: Vec<String>"), "{output}");
}

#[test]
fn flattened_choices_shape_fields_and_enums() {
    let output = generate("tests/fixtures/composite_choice.xsd");
    // A composite choice gets no enum and no choice field.
    assert!(!output.contains("ScheduleMTypeChoice0"), "{output}");
    assert!(output.contains(
        "    #[serde(rename = \"USFilerGrp\", skip_serializing_if = \"Option::is_none\")]\n    pub us_filer_grp: Option<AmountGrpType>,"
    ), "{output}");
    assert!(output.contains("    pub partner_name: String,"), "{output}");

    let output = generate("tests/fixtures/union_and_repeating_choice.xsd");
    // The repeating choice of PayeeType is flattened; its other choice keeps
    // its enum under the choice's index.
    assert!(output.contains(
        "    #[serde(rename = \"SSN\", default, skip_serializing_if = \"Vec::is_empty\")]\n    pub ssn: Vec<String>,"
    ), "{output}");
    assert!(output.contains("    pub choice_1: PayeeTypeChoice1,"), "{output}");
    assert!(output.contains("pub enum PayeeTypeChoice1 {"), "{output}");
    assert!(!output.contains("PayeeTypeChoice0"), "{output}");
    // A repeating choice that is the struct's only choice takes the element
    // content as a list of its enum.
    assert!(output.contains(
        "    #[serde(rename = \"$value\", default, skip_serializing_if = \"Vec::is_empty\")]\n    pub choice_0: Vec<IdListTypeChoice0>,"
    ), "{output}");
    assert!(output.contains("pub enum IdListTypeChoice0 {"), "{output}");
}

#[test]
fn same_named_complex_types_are_emitted_once() {
    let content = r#"<xsd:schema xmlns:xsd="http://www.w3.org/2001/XMLSchema">
  <xsd:complexType name="DupType">
    <xsd:sequence>
      <xsd:element name="First" type="xsd:string"/>
    </xsd:sequence>
  </xsd:complexType>
  <xsd:complexType name="DupType">
    <xsd:sequence>
      <xsd:element name="Second" type="xsd:string"/>
    </xsd:sequence>
  </xsd:complexType>
</xsd:schema>"#;
    let output = generate_from("dup.xsd", content);
    assert_eq!(output.matches("pub struct DupType {").count(), 1);
    assert!(output.contains("pub first: String,"), "{output}");
    assert!(!output.contains("pub second"), "{output}");
}
