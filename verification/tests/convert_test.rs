use xsd_to_rs::name_map::NameMap;
use xsd_to_rs::types::{AttributeDef, ElementDef, MaxOccurs, SequenceMember};
use xsd_to_rs::directory::graph::Node;
use xsd_to_rs::directory::{
    convert_directory, convert_directory_layered, convert_directory_pruned,
    convert_directory_with_prefix, scan_package, ConversionPlan, Entry, IncludeGraph, Layer,
    OutputFile, SourceFile,
};

fn comps(p: &str) -> Vec<String> {
    p.split('/').map(|s| s.to_string()).collect()
}

/// `inc` resolved against directory `dir`, as a path relative to the root.
fn resolve(dir: &[String], inc: &str) -> Vec<String> {
    let mut v = dir.to_vec();
    for part in inc.split('/') {
        match part {
            ".." => {
                v.pop();
            }
            "." | "" => {}
            p => v.push(p.to_string()),
        }
    }
    v
}

/// Scans in-memory schema files and builds their include graph, every file
/// being its own node.
fn package(files: &[(&str, &str)]) -> (Vec<Entry>, IncludeGraph) {
    let sources: Vec<SourceFile> = files
        .iter()
        .map(|(rel, text)| SourceFile {
            rel: comps(rel),
            path: format!("pkg/{rel}"),
            content: Ok(text.to_string()),
        })
        .collect();
    let entries = match scan_package(&sources) {
        Ok(es) => es,
        Err(m) => panic!("scan failed: {m}"),
    };
    let mut node_paths: Vec<Vec<String>> = entries.iter().map(|e| e.rel.clone()).collect();
    let mut includes: Vec<Vec<usize>> = Vec::new();
    for e in &entries {
        let dir = &e.rel[..e.rel.len() - 1];
        let mut incs = Vec::new();
        for inc in &e.xsd.includes {
            let target = resolve(dir, inc);
            let id = match node_paths.iter().position(|p| *p == target) {
                Some(i) => i,
                None => {
                    node_paths.push(target);
                    node_paths.len() - 1
                }
            };
            incs.push(id);
        }
        includes.push(incs);
    }
    let nodes: Vec<Node> = node_paths
        .iter()
        .enumerate()
        .map(|(i, p)| Node {
            rel: Some(p.clone()),
            includes: includes.get(i).cloned().unwrap_or_default(),
        })
        .collect();
    let graph = IncludeGraph {
        entry_nodes: (0..entries.len()).map(Some).collect(),
        nodes,
    };
    assert!(graph.check(entries.len()));
    (entries, graph)
}

fn node_of(graph: &IncludeGraph, path: &str) -> usize {
    let target = comps(path);
    graph
        .nodes
        .iter()
        .position(|n| n.rel.as_ref() == Some(&target))
        .unwrap()
}

fn find<'a>(files: &'a [OutputFile], target: usize, path: &str) -> Option<&'a OutputFile> {
    files
        .iter()
        .find(|f| f.target == target && f.rel.join("/") == path)
}

fn all_files(plan: &ConversionPlan) -> Vec<&OutputFile> {
    let mut v: Vec<&OutputFile> = plan.files.iter().collect();
    for tree in &plan.mod_trees {
        v.extend(tree.iter());
    }
    v
}

fn has_file(plan: &ConversionPlan, target: usize, path: &str) -> bool {
    all_files(plan)
        .iter()
        .any(|f| f.target == target && f.rel.join("/") == path)
}

fn content(plan: &ConversionPlan, target: usize, path: &str) -> String {
    all_files(plan)
        .into_iter()
        .find(|f| f.target == target && f.rel.join("/") == path)
        .map(|f| f.content.clone())
        .unwrap_or_else(|| panic!("no file {path} in output {target}"))
}

const SIMPLE_XSD: &str = r#"<?xml version="1.0" encoding="UTF-8"?>
<xsd:schema xmlns:xsd="http://www.w3.org/2001/XMLSchema">
  <xsd:simpleType name="FilingStatusType">
    <xsd:annotation>
      <xsd:documentation>The filing status for a tax return.</xsd:documentation>
    </xsd:annotation>
    <xsd:restriction base="xsd:string">
      <xsd:enumeration value="Single">
        <xsd:annotation>
          <xsd:documentation>Unmarried individual</xsd:documentation>
        </xsd:annotation>
      </xsd:enumeration>
      <xsd:enumeration value="MarriedFilingJointly"/>
      <xsd:enumeration value="HeadOfHousehold"/>
    </xsd:restriction>
  </xsd:simpleType>
  <xsd:simpleType name="SSNType">
    <xsd:annotation>
      <xsd:documentation>Social Security Number (9 digits).</xsd:documentation>
    </xsd:annotation>
    <xsd:restriction base="xsd:string">
      <xsd:pattern value="[0-9]{9}"/>
    </xsd:restriction>
  </xsd:simpleType>
  <xsd:simpleType name="AmountType">
    <xsd:restriction base="xsd:decimal">
      <xsd:totalDigits value="12"/>
      <xsd:fractionDigits value="2"/>
    </xsd:restriction>
  </xsd:simpleType>
  <xsd:complexType name="PersonType">
    <xsd:annotation>
      <xsd:documentation>Represents a person (filer or dependent).</xsd:documentation>
    </xsd:annotation>
    <xsd:sequence>
      <xsd:element name="FirstName" type="xsd:string">
        <xsd:annotation>
          <xsd:documentation>The person's first name.</xsd:documentation>
        </xsd:annotation>
      </xsd:element>
      <xsd:element name="LastName" type="xsd:string"/>
      <xsd:element name="SSN" type="SSNType"/>
      <xsd:element name="MiddleInitial" type="xsd:string" minOccurs="0"/>
    </xsd:sequence>
  </xsd:complexType>
  <xsd:complexType name="FormType">
    <xsd:sequence>
      <xsd:element name="Filer" type="PersonType"/>
      <xsd:element name="Dependents" type="PersonType" minOccurs="0" maxOccurs="unbounded"/>
      <xsd:element name="Amount" type="AmountType" minOccurs="0"/>
      <xsd:choice>
        <xsd:element name="DirectDeposit" type="xsd:string"/>
        <xsd:element name="MailCheck" type="xsd:string"/>
      </xsd:choice>
    </xsd:sequence>
    <xsd:attribute name="version" type="xsd:string" use="required"/>
  </xsd:complexType>
</xsd:schema>
"#;

const REFS_XSD: &str = r#"<?xml version="1.0" encoding="UTF-8"?>
<xsd:schema xmlns:xsd="http://www.w3.org/2001/XMLSchema">
  <xsd:simpleType name="ListType">
    <xsd:list itemType="xsd:string"/>
  </xsd:simpleType>
  <xsd:complexType name="Envelope">
    <xsd:sequence>
      <xsd:element ref="Header" minOccurs="0"/>
      <xsd:element ref="Body"/>
    </xsd:sequence>
  </xsd:complexType>
  <xsd:element name="Header" type="xsd:string"/>
  <xsd:element name="Body" type="xsd:string"/>
</xsd:schema>
"#;

const BASE_XSD: &str = r#"<?xml version="1.0" encoding="UTF-8"?>
<xsd:schema xmlns:xsd="http://www.w3.org/2001/XMLSchema">
  <xsd:complexType name="BaseType">
    <xsd:sequence><xsd:element name="Id" type="xsd:string"/></xsd:sequence>
  </xsd:complexType>
</xsd:schema>"#;

const MAIN_XSD: &str = r#"<?xml version="1.0" encoding="UTF-8"?>
<xsd:schema xmlns:xsd="http://www.w3.org/2001/XMLSchema">
  <xsd:include schemaLocation="base.xsd"/>
  <xsd:complexType name="MainType">
    <xsd:sequence><xsd:element name="Base" type="BaseType"/></xsd:sequence>
  </xsd:complexType>
</xsd:schema>"#;

#[test]
fn convert_single_file() {
    let out = xsd_to_rs::convert_file("tests/fixtures/simple.xsd", SIMPLE_XSD, &[]).unwrap();
    assert!(out.contains("pub struct PersonType {"));
    assert!(out.contains("pub enum FilingStatusType {"));
}

#[test]
fn convert_file_reports_parse_errors() {
    let r = xsd_to_rs::convert_file("broken.xsd", "<a></b>", &[]);
    assert!(r.unwrap_err().starts_with("XML parse error in broken.xsd: "));
}

#[test]
fn convert_directory_creates_mod_files() {
    let (entries, graph) = package(&[("simple.xsd", SIMPLE_XSD), ("refs.xsd", REFS_XSD)]);
    let plan = convert_directory(&entries, &graph);
    assert!(plan.error.is_none());
    assert!(has_file(&plan, 0, "lib.rs"), "lib.rs should be generated");
    let lib = content(&plan, 0, "lib.rs");
    assert!(lib.contains("pub mod simple;"));
    assert!(lib.contains("pub mod refs;"));
    assert_eq!(
        lib,
        "// Auto-generated module declarations.\n\npub mod refs;\npub mod simple;\n"
    );
    assert!(content(&plan, 0, "simple.rs").contains("pub struct PersonType {"));
}

#[test]
fn mod_prefix_nests_imports_and_writes_mod_rs() {
    let (entries, graph) = package(&[("base.xsd", BASE_XSD), ("main.xsd", MAIN_XSD)]);
    let plan = convert_directory_with_prefix(&entries, &graph, Some("v2026v1_0"));
    assert!(has_file(&plan, 0, "mod.rs"), "nested root should be mod.rs");
    assert!(!has_file(&plan, 0, "lib.rs"), "nested root should not be lib.rs");
    let main_rs = content(&plan, 0, "main.rs");
    assert!(
        main_rs.contains("use crate::v2026v1_0::base::*;"),
        "import should be prefixed; got:\n{main_rs}"
    );
    // The included file imports nothing.
    assert!(!content(&plan, 0, "base.rs").contains("use crate::v2026v1_0"));
}

#[test]
fn convert_directory_pruned_drops_unreachable_schemas() {
    let return_xsd = r#"<?xml version="1.0" encoding="UTF-8"?>
<xsd:schema xmlns:xsd="http://www.w3.org/2001/XMLSchema">
  <xsd:include schemaLocation="deps/base.xsd"/>
  <xsd:complexType name="ReturnType">
    <xsd:sequence><xsd:element name="Base" type="BaseType"/></xsd:sequence>
  </xsd:complexType>
</xsd:schema>"#;
    let orphan_xsd = r#"<?xml version="1.0" encoding="UTF-8"?>
<xsd:schema xmlns:xsd="http://www.w3.org/2001/XMLSchema">
  <xsd:complexType name="OrphanType">
    <xsd:sequence><xsd:element name="Junk" type="xsd:string"/></xsd:sequence>
  </xsd:complexType>
</xsd:schema>"#;
    let (entries, graph) = package(&[
        ("deps/base.xsd", BASE_XSD),
        ("Return.xsd", return_xsd),
        ("deps/orphan.xsd", orphan_xsd),
    ]);
    let root = node_of(&graph, "Return.xsd");
    let plan = convert_directory_pruned(&entries, &graph, Some("v1"), &[root]);

    assert!(has_file(&plan, 0, "return.rs"));
    assert!(has_file(&plan, 0, "deps/base.rs"));
    assert!(
        !has_file(&plan, 0, "deps/orphan.rs"),
        "orphan.xsd is unreachable from the root and must be pruned"
    );
    let deps_mod = content(&plan, 0, "deps/mod.rs");
    assert!(deps_mod.contains("pub mod base;"));
    assert!(!deps_mod.contains("orphan"));
    assert!(content(&plan, 0, "return.rs").contains("use crate::v1::deps::base::*;"));
    assert_eq!(
        content(&plan, 0, "mod.rs"),
        "// Auto-generated module declarations.\n\npub mod deps;\npub mod return;\n"
    );
}

fn layered_sources() -> Vec<(&'static str, &'static str)> {
    vec![
        (
            "Common/base.xsd",
            r#"<?xml version="1.0" encoding="UTF-8"?>
<xsd:schema xmlns:xsd="http://www.w3.org/2001/XMLSchema">
  <xsd:complexType name="BaseType">
    <xsd:sequence><xsd:element name="Name" type="xsd:string"/></xsd:sequence>
  </xsd:complexType>
</xsd:schema>"#,
        ),
        (
            "Family/helper.xsd",
            r#"<?xml version="1.0" encoding="UTF-8"?>
<xsd:schema xmlns:xsd="http://www.w3.org/2001/XMLSchema">
  <xsd:complexType name="HelperType">
    <xsd:sequence><xsd:element name="Tag" type="xsd:string"/></xsd:sequence>
  </xsd:complexType>
</xsd:schema>"#,
        ),
        (
            "Family/Return.xsd",
            r#"<?xml version="1.0" encoding="UTF-8"?>
<xsd:schema xmlns:xsd="http://www.w3.org/2001/XMLSchema">
  <xsd:include schemaLocation="../Common/base.xsd"/>
  <xsd:include schemaLocation="helper.xsd"/>
  <xsd:complexType name="ReturnType">
    <xsd:sequence>
      <xsd:element name="Base" type="BaseType"/>
      <xsd:element name="Helper" type="HelperType"/>
    </xsd:sequence>
  </xsd:complexType>
</xsd:schema>"#,
        ),
    ]
}

fn demo_layers() -> Vec<Layer> {
    vec![
        Layer {
            crate_ident: "demo_base".to_string(),
            dirs: vec!["common".to_string()],
        },
        Layer {
            crate_ident: "demo_family".to_string(),
            dirs: vec!["family".to_string()],
        },
    ]
}

#[test]
fn convert_directory_layered_stacks_crates() {
    let (entries, graph) = package(&layered_sources());
    let root = node_of(&graph, "Family/Return.xsd");
    let plan = convert_directory_layered(&entries, &graph, &demo_layers(), &[root]);
    assert!(plan.error.is_none(), "{:?}", plan.error);

    // Files landed in their layers, each with its own lib.rs.
    assert!(has_file(&plan, 0, "common/base.rs"));
    assert!(has_file(&plan, 0, "lib.rs"));
    assert!(has_file(&plan, 1, "family/return.rs"));
    assert!(has_file(&plan, 1, "lib.rs"));
    assert!(!all_files(&plan)
        .iter()
        .any(|f| f.target == 1 && f.rel[0] == "common"));

    // Same-layer import stays crate::, lower-layer import goes cross-crate.
    let ret = content(&plan, 1, "family/return.rs");
    assert!(ret.contains("use crate::family::helper::*;"), "{ret}");
    assert!(ret.contains("use demo_base::common::base::*;"), "{ret}");

    // A lower layer including a higher one is a layering violation.
    let mut sources = layered_sources();
    sources.push((
        "Common/bad.xsd",
        r#"<?xml version="1.0" encoding="UTF-8"?>
<xsd:schema xmlns:xsd="http://www.w3.org/2001/XMLSchema">
  <xsd:include schemaLocation="../Family/helper.xsd"/>
  <xsd:complexType name="BadType">
    <xsd:sequence><xsd:element name="Helper" type="HelperType"/></xsd:sequence>
  </xsd:complexType>
</xsd:schema>"#,
    ));
    let (entries, graph) = package(&sources);
    let roots = [node_of(&graph, "Family/Return.xsd"), node_of(&graph, "Common/bad.xsd")];
    let plan = convert_directory_layered(&entries, &graph, &demo_layers(), &roots);
    let msg = plan.error.unwrap();
    assert!(msg.contains("layering violation"), "{msg}");
    assert_eq!(
        msg,
        "layering violation: common/bad.rs (layer demo_base) includes Family/helper.xsd (layer demo_family) \u{2014} a lower layer cannot depend on a higher one"
    );
    assert!(plan.mod_trees.is_empty());
}

#[test]
fn layered_conversion_reports_unowned_and_empty_layers() {
    let (entries, graph) = package(&layered_sources());
    let root = node_of(&graph, "Family/Return.xsd");

    // The family directory belongs to no layer.
    let only_base = vec![Layer {
        crate_ident: "demo_base".to_string(),
        dirs: vec!["common".to_string()],
    }];
    let plan = convert_directory_layered(&entries, &graph, &only_base, &[root]);
    assert_eq!(
        plan.error.as_deref(),
        Some("no layer owns family/helper.rs (top-level directory not assigned)")
    );
    // The file of the owned layer was generated before the error.
    assert_eq!(plan.files.len(), 1);
    assert_eq!(plan.files[0].rel, comps("common/base.rs"));

    // An include outside every layer.
    let a = r#"<xsd:schema xmlns:xsd="http://www.w3.org/2001/XMLSchema">
  <xsd:include schemaLocation="../Other/x.xsd"/>
</xsd:schema>"#;
    let (entries2, graph2) = package(&[("Family/a.xsd", a)]);
    let family_only = vec![Layer {
        crate_ident: "demo_family".to_string(),
        dirs: vec!["family".to_string()],
    }];
    let plan = convert_directory_layered(&entries2, &graph2, &family_only, &[node_of(&graph2, "Family/a.xsd")]);
    assert_eq!(
        plan.error.as_deref(),
        Some("no layer owns include Other/x.xsd (reached from family/a.rs)")
    );

    // A layer that receives no file is an error, after the layers below it
    // got their module trees.
    let mut layers = demo_layers();
    layers.push(Layer {
        crate_ident: "demo_top".to_string(),
        dirs: vec!["top".to_string()],
    });
    let plan = convert_directory_layered(&entries, &graph, &layers, &[root]);
    assert_eq!(
        plan.error.as_deref(),
        Some("layer demo_top matched no schemas \u{2014} check its directory list")
    );
    assert_eq!(plan.mod_trees.len(), 2);
    assert_eq!(plan.files.len(), 3);
}

#[test]
fn scan_stops_at_unreadable_or_malformed_files() {
    let files = vec![
        SourceFile {
            rel: comps("a.xsd"),
            path: "pkg/a.xsd".to_string(),
            content: Ok(BASE_XSD.to_string()),
        },
        SourceFile {
            rel: comps("b.xsd"),
            path: "pkg/b.xsd".to_string(),
            content: Err("Failed to read pkg/b.xsd".to_string()),
        },
        SourceFile {
            rel: comps("c.xsd"),
            path: "pkg/c.xsd".to_string(),
            content: Ok("<a></b>".to_string()),
        },
    ];
    match scan_package(&files) {
        Err(m) => assert_eq!(m, "Failed to read pkg/b.xsd"),
        Ok(_) => panic!("expected an error"),
    }
    let last: Vec<SourceFile> = files.into_iter().skip(2).collect();
    match scan_package(&last) {
        Err(m) => assert!(m.starts_with("XML parse error in pkg/c.xsd: "), "{m}"),
        Ok(_) => panic!("expected an error"),
    }
}

#[test]
fn cross_file_groups_expand_from_the_package_registry() {
    let groups = r#"<xsd:schema xmlns:xsd="http://www.w3.org/2001/XMLSchema">
  <xsd:attributeGroup name="Audit">
    <xsd:attribute name="stamp" type="xsd:string" use="required"/>
  </xsd:attributeGroup>
  <xsd:group name="Names">
    <xsd:sequence><xsd:element name="Given" type="xsd:string"/></xsd:sequence>
  </xsd:group>
</xsd:schema>"#;
    let user = r#"<xsd:schema xmlns:xsd="http://www.w3.org/2001/XMLSchema">
  <xsd:complexType name="UserType">
    <xsd:sequence><xsd:group ref="Names"/></xsd:sequence>
    <xsd:attributeGroup ref="Audit"/>
  </xsd:complexType>
</xsd:schema>"#;
    let (entries, graph) = package(&[("user.xsd", user), ("groups.xsd", groups)]);
    let plan = convert_directory(&entries, &graph);
    let out = content(&plan, 0, "user.rs");
    assert!(out.contains("    pub given: String,"), "{out}");
    assert!(out.contains("    #[serde(rename = \"@stamp\")]\n    pub stamp: String,"), "{out}");
}

#[test]
fn convert_file_with_groups_uses_the_given_registries() {
    let user = r#"<xsd:schema xmlns:xsd="http://www.w3.org/2001/XMLSchema">
  <xsd:complexType name="UserType">
    <xsd:sequence><xsd:group ref="Names" minOccurs="0"/></xsd:sequence>
    <xsd:attributeGroup ref="Audit"/>
  </xsd:complexType>
</xsd:schema>"#;
    let mut attrs: NameMap<Vec<AttributeDef>> = NameMap::new();
    attrs.insert(
        "Audit".to_string(),
        vec![AttributeDef {
            name: "stamp".to_string(),
            type_ref: "xsd:int".to_string(),
            required: false,
            fixed: None,
        }],
    );
    let mut groups: NameMap<Vec<SequenceMember>> = NameMap::new();
    groups.insert(
        "Names".to_string(),
        vec![SequenceMember::Element(Box::new(ElementDef {
            name: "Given".to_string(),
            type_ref: Some("xsd:string".to_string()),
            min_occurs: 1,
            max_occurs: MaxOccurs::Bounded(1),
            doc: None,
            inline_simple_type: None,
            inline_complex_type: None,
        }))],
    );
    let out = xsd_to_rs::convert_file_with_groups("user.xsd", user, &[], &attrs, &groups).unwrap();
    assert!(out.contains("    pub given: Option<String>,"), "{out}");
    assert!(
        out.contains("    #[serde(rename = \"@stamp\", skip_serializing_if = \"Option::is_none\")]\n    pub stamp: Option<i64>,"),
        "{out}"
    );
    // Without the registries the refs expand to nothing.
    let bare = xsd_to_rs::convert_file("user.xsd", user, &[]).unwrap();
    assert!(!bare.contains("given"), "{bare}");
    assert!(!bare.contains("stamp"), "{bare}");
}
