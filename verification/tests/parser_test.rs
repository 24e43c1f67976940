use xsd_to_rs::parser::parse_xsd;
use xsd_to_rs::types::{MaxOccurs, SequenceMember, XsdFile};

const SIMPLE_XSD: &str = r#"<?xml version="1.0" encoding="UTF-8"?>
<xsd:schema xmlns:xsd="http://www.w3.org/2001/XMLSchema">
  <xsd:simpleType name="FilingStatusType">
    <xsd:annotation>
      <xsd:documentation>The filing status for a tax return.</xsd:documentation>
    </xsd:annotation>
    <xsd:restriction base="xsd:string">
      <xsd:enumeration value="Single">
        <xsd:annotation>
          <xsd:documentation>Unmarried individual</xsd:documentation>
        </xsd:annotation>
      </xsd:enumeration>
      <xsd:enumeration value="MarriedFilingJointly"/>
      <xsd:enumeration value="HeadOfHousehold"/>
    </xsd:restriction>
  </xsd:simpleType>
  <xsd:simpleType name="SSNType">
    <xsd:annotation>
      <xsd:documentation>Social Security Number (9 digits).</xsd:documentation>
    </xsd:annotation>
    <xsd:restriction base="xsd:string">
      <xsd:pattern value="[0-9]{9}"/>
    </xsd:restriction>
  </xsd:simpleType>
  <xsd:simpleType name="AmountType">
    <xsd:restriction base="xsd:decimal">
      <xsd:totalDigits value="12"/>
      <xsd:fractionDigits value="2"/>
    </xsd:restriction>
  </xsd:simpleType>
  <xsd:complexType name="PersonType">
    <xsd:annotation>
      <xsd:documentation>Represents a person (filer or dependent).</xsd:documentation>
    </xsd:annotation>
    <xsd:sequence>
      <xsd:element name="FirstName" type="xsd:string">
        <xsd:annotation>
          <xsd:documentation>The person's first name.</xsd:documentation>
        </xsd:annotation>
      </xsd:element>
      <xsd:element name="LastName" type="xsd:string"/>
      <xsd:element name="SSN" type="SSNType"/>
      <xsd:element name="MiddleInitial" type="xsd:string" minOccurs="0"/>
    </xsd:sequence>
  </xsd:complexType>
  <xsd:complexType name="FormType">
    <xsd:sequence>
      <xsd:element name="Filer" type="PersonType"/>
      <xsd:element name="Dependents" type="PersonType" minOccurs="0" maxOccurs="unbounded"/>
      <xsd:element name="Amount" type="AmountType" minOccurs="0"/>
      <xsd:choice>
        <xsd:element name="DirectDeposit" type="xsd:string"/>
        <xsd:element name="MailCheck" type="xsd:string"/>
      </xsd:choice>
    </xsd:sequence>
    <xsd:attribute name="version" type="xsd:string" use="required"/>
  </xsd:complexType>
</xsd:schema>
"#;

const REFS_XSD: &str = r#"<?xml version="1.0" encoding="UTF-8"?>
<xsd:schema xmlns:xsd="http://www.w3.org/2001/XMLSchema">
  <xsd:simpleType name="ListType">
    <xsd:list itemType="xsd:string"/>
  </xsd:simpleType>
  <xsd:complexType name="Envelope">
    <xsd:sequence>
      <xsd:element ref="Header" minOccurs="0"/>
      <xsd:element ref="Body"/>
    </xsd:sequence>
  </xsd:complexType>
  <xsd:element name="Header" type="xsd:string"/>
  <xsd:element name="Body" type="xsd:string"/>
</xsd:schema>
"#;

fn parse(path: &str, content: &str) -> XsdFile {
    parse_xsd(path, content).unwrap()
}

#[test]
fn parse_simple_types() {
    let xsd = parse("tests/fixtures/simple.xsd", SIMPLE_XSD);
    assert_eq!(xsd.simple_types.len(), 3);

    let filing = &xsd.simple_types[0];
    assert_eq!(filing.name, "FilingStatusType");
    assert_eq!(filing.enumerations.len(), 3);
    assert_eq!(filing.enumerations[0].0, "Single");

    let ssn = &xsd.simple_types[1];
    assert_eq!(ssn.name, "SSNType");
    assert_eq!(ssn.pattern, Some("[0-9]{9}".to_string()));

    let amount = &xsd.simple_types[2];
    assert_eq!(amount.name, "AmountType");
    assert_eq!(amount.total_digits, Some(12));
    assert_eq!(amount.fraction_digits, Some(2));
}

#[test]
fn parse_complex_types() {
    let xsd = parse("tests/fixtures/simple.xsd", SIMPLE_XSD);
    assert_eq!(xsd.complex_types.len(), 2);

    let person = &xsd.complex_types[0];
    assert_eq!(person.name, "PersonType");
    assert_eq!(person.members.len(), 4);

    let form = &xsd.complex_types[1];
    assert_eq!(form.name, "FormType");
    assert_eq!(form.attributes.len(), 1);
    assert_eq!(form.attributes[0].name, "version");
    assert!(form.attributes[0].required);
}

#[test]
fn parse_ref_elements() {
    let xsd = parse("tests/fixtures/refs.xsd", REFS_XSD);

    let envelope = &xsd.complex_types[0];
    assert_eq!(envelope.name, "Envelope");
    assert_eq!(envelope.members.len(), 2);
}

#[test]
fn parse_list_type() {
    let xsd = parse("tests/fixtures/refs.xsd", REFS_XSD);
    let list_type = &xsd.simple_types[0];
    assert_eq!(list_type.name, "ListType");
    assert_eq!(list_type.base, "string");
}

#[test]
fn parse_includes() {
    let xsd = parse("tests/fixtures/simple.xsd", SIMPLE_XSD);
    assert_eq!(xsd.includes.len(), 0);
}

#[test]
fn parse_records_path_docs_and_occurs() {
    let xsd = parse("dir/simple.xsd", SIMPLE_XSD);
    assert_eq!(xsd.path, "dir/simple.xsd");
    assert_eq!(
        xsd.simple_types[0].doc.as_deref(),
        Some("The filing status for a tax return.")
    );
    assert_eq!(
        xsd.simple_types[0].enumerations[0].1.as_deref(),
        Some("Unmarried individual")
    );
    assert_eq!(xsd.simple_types[0].enumerations[1].1, None);
    assert_eq!(xsd.simple_types[2].base, "xsd:decimal");
    match &xsd.complex_types[0].members[0] {
        SequenceMember::Element(e) => {
            assert_eq!(e.name, "FirstName");
            assert_eq!(e.doc.as_deref(), Some("The person's first name."));
            assert_eq!(e.min_occurs, 1);
            assert_eq!(e.max_occurs, MaxOccurs::Bounded(1));
        }
        _ => panic!("expected an element"),
    }
    match &xsd.complex_types[1].members[1] {
        SequenceMember::Element(e) => {
            assert_eq!(e.name, "Dependents");
            assert_eq!(e.type_ref.as_deref(), Some("PersonType"));
            assert_eq!(e.min_occurs, 0);
            assert_eq!(e.max_occurs, MaxOccurs::Unbounded);
        }
        _ => panic!("expected an element"),
    }
    match &xsd.complex_types[1].members[3] {
        SequenceMember::Choice(c) => {
            assert_eq!(c.min_occurs, 1);
            assert_eq!(c.elements.len(), 2);
            assert_eq!(c.elements[1].name, "MailCheck");
        }
        _ => panic!("expected a choice"),
    }
}

#[test]
fn parse_ref_element_takes_local_name_as_name_and_type() {
    let xsd = parse("refs.xsd", REFS_XSD);
    match &xsd.complex_types[0].members[0] {
        SequenceMember::Element(e) => {
            assert_eq!(e.name, "Header");
            assert_eq!(e.type_ref.as_deref(), Some("Header"));
            assert_eq!(e.min_occurs, 0);
        }
        _ => panic!("expected an element"),
    }
    assert_eq!(xsd.elements.len(), 2);
    assert_eq!(xsd.elements[0].name, "Header");
    assert_eq!(xsd.elements[0].type_ref.as_deref(), Some("xsd:string"));
}

#[test]
fn parse_includes_groups_and_unions() {
    let content = r#"<xsd:schema xmlns:xsd="http://www.w3.org/2001/XMLSchema">
  <xsd:include schemaLocation="../common/base.xsd"/>
  <xsd:include schemaLocation="other.xsd"/>
  <xsd:attributeGroup name="CommonAttrs">
    <xsd:attribute name="id" type="xsd:string" use="required"/>
    <xsd:attribute name="lang" type="xsd:string" fixed="en"/>
  </xsd:attributeGroup>
  <xsd:group name="NameGroup">
    <xsd:sequence>
      <xsd:element name="First" type="xsd:string"/>
      <xsd:element name="Last" type="xsd:string"/>
    </xsd:sequence>
  </xsd:group>
  <xsd:simpleType name="CodeType">
    <xsd:union memberTypes="xsd:string ns:OtherType"/>
  </xsd:simpleType>
</xsd:schema>"#;
    let xsd = parse("groups.xsd", content);
    assert_eq!(xsd.includes, vec!["../common/base.xsd".to_string(), "other.xsd".to_string()]);
    assert_eq!(xsd.attribute_groups.len(), 1);
    assert_eq!(xsd.attribute_groups[0].name, "CommonAttrs");
    assert_eq!(xsd.attribute_groups[0].attributes.len(), 2);
    assert!(xsd.attribute_groups[0].attributes[0].required);
    assert_eq!(xsd.attribute_groups[0].attributes[1].fixed.as_deref(), Some("en"));
    assert_eq!(xsd.model_groups.len(), 1);
    assert_eq!(xsd.model_groups[0].name, "NameGroup");
    assert_eq!(xsd.model_groups[0].members.len(), 2);
    assert!(xsd.simple_types[0].is_union);
    assert_eq!(
        xsd.simple_types[0].member_types,
        vec!["string".to_string(), "OtherType".to_string()]
    );
}

#[test]
fn parse_hoists_inline_complex_types() {
    let content = r#"<xsd:schema xmlns:xsd="http://www.w3.org/2001/XMLSchema">
  <xsd:complexType name="OuterType">
    <xsd:sequence>
      <xsd:element name="Inner">
        <xsd:complexType>
          <xsd:sequence>
            <xsd:element name="Value" type="xsd:string"/>
          </xsd:sequence>
        </xsd:complexType>
      </xsd:element>
    </xsd:sequence>
  </xsd:complexType>
  <xsd:complexType name="InnerType">
    <xsd:sequence>
      <xsd:element name="Other" type="xsd:string"/>
    </xsd:sequence>
  </xsd:complexType>
</xsd:schema>"#;
    let xsd = parse("hoist.xsd", content);
    // The lifted type is named after its element; `InnerType` is taken, so
    // the name gets a numeric suffix.
    assert_eq!(xsd.complex_types.len(), 3);
    assert_eq!(xsd.complex_types[2].name, "InnerType2");
    match &xsd.complex_types[0].members[0] {
        SequenceMember::Element(e) => {
            assert_eq!(e.type_ref.as_deref(), Some("InnerType2"));
            assert!(e.inline_complex_type.is_none());
        }
        _ => panic!("expected an element"),
    }
    assert_eq!(xsd.complex_types[2].members.len(), 1);
}

#[test]
fn parse_reports_malformed_xml() {
    let r = parse_xsd("bad.xsd", "<xsd:schema><xsd:include schemaLocation=\"a.xsd\"/></xsd:other>");
    let msg = r.unwrap_err();
    assert!(msg.starts_with("XML parse error in bad.xsd: "), "{msg}");
}

#[test]
fn parse_choice_occurs_and_sequence_branches() {
    let content = r#"<xsd:schema xmlns:xsd="http://www.w3.org/2001/XMLSchema">
  <xsd:complexType name="T">
    <xsd:sequence>
      <xsd:choice maxOccurs="unbounded" minOccurs="0">
        <xsd:element name="A" type="xsd:string"/>
        <xsd:element name="B" type="xsd:string"/>
      </xsd:choice>
      <xsd:choice>
        <xsd:sequence>
          <xsd:element name="C" type="xsd:string"/>
          <xsd:element name="D" type="xsd:string"/>
        </xsd:sequence>
        <xsd:element name="E" type="xsd:string"/>
      </xsd:choice>
    </xsd:sequence>
  </xsd:complexType>
</xsd:schema>"#;
    let xsd = parse("choices.xsd", content);
    match &xsd.complex_types[0].members[0] {
        SequenceMember::Choice(c) => {
            assert_eq!(c.min_occurs, 0);
            assert_eq!(c.max_occurs, MaxOccurs::Unbounded);
            assert!(!c.composite);
            assert_eq!(c.elements.len(), 2);
        }
        _ => panic!("expected a choice"),
    }
    match &xsd.complex_types[0].members[1] {
        SequenceMember::Choice(c) => {
            assert_eq!(c.max_occurs, MaxOccurs::Bounded(1));
            assert!(c.composite);
            let names: Vec<&str> = c.elements.iter().map(|e| e.name.as_str()).collect();
            assert_eq!(names, vec!["C", "D", "E"]);
        }
        _ => panic!("expected a choice"),
    }
}
