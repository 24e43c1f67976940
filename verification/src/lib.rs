//! Converts XSD schemas into Rust source: a schema document is parsed into
//! a model of its types, and Rust types are generated from that model; a
//! whole package of schemas becomes a module tree.
use vstd::prelude::*;

pub mod codegen;
pub mod directory;
pub mod name_map;
pub mod naming;
pub mod parser;
pub mod text;
pub mod types;

use codegen::{generated_text, CodeGenerator, GenCtx};
use directory::empty_ctx;
use name_map::NameMap;
use parser::{parse_result_view, parse_xsd, spec::Events, xsd_parse_spec};
use parser::xml::xml_events;
use types::{attrs_view, members_view, texts, xsd_view, AttributeDef, SequenceMember, Text};

verus! {

/// The tables a generator starts with when given cross-file group
/// registries.
pub open spec fn groups_ctx(
    attr_groups: NameMap<Vec<AttributeDef>>,
    model_groups: NameMap<Vec<SequenceMember>>,
) -> GenCtx {
    GenCtx {
        types: Map::empty(),
        enums: Map::empty(),
        attr_groups: attr_groups.view().map_values(|v: Vec<AttributeDef>| attrs_view(v@)),
        model_groups: model_groups.view().map_values(|v: Vec<SequenceMember>| members_view(v@)),
    }
}

/// The Rust source for a schema document with events `ev` read from
/// `path`, generated from tables `ctx`, or the parse error.
pub open spec fn convert_with_spec(ev: Events, path: Text, imps: Seq<Text>, ctx: GenCtx) -> Result<Text, Text> {
    match xsd_parse_spec(ev, path) {
        Ok(x) => Ok(generated_text(ctx, x, imps)),
        Err(m) => Err(m),
    }
}

/// Like `convert_file`, with cross-file registries of attribute groups and
/// model groups, so that refs to groups defined in included files expand;
/// the file's own groups are added to them.
pub fn convert_file_with_groups(
    path: &str,
    content: &str,
    use_imports: &[String],
    attr_groups: &NameMap<Vec<AttributeDef>>,
    model_groups: &NameMap<Vec<SequenceMember>>,
) -> (r: Result<String, String>)
    requires
        attr_groups.wf(),
        model_groups.wf(),
    ensures
        convert_with_spec(
            xml_events(content@),
            path@,
            texts(use_imports@),
            groups_ctx(*attr_groups, *model_groups),
        ) == match r {
            Ok(s) => Ok::<Text, Text>(s@),
            Err(m) => Err::<Text, Text>(m@),
        },
{
    let ghost ctx = groups_ctx(*attr_groups, *model_groups);
    let parsed = parse_xsd(path, content);
    let ghost ev = xml_events(content@);
    match parsed {
        Err(m) => {
            assert(convert_with_spec(ev, path@, texts(use_imports@), ctx) == Err::<Text, Text>(m@));
            Err(m)
        },
        Ok(x) => {
            let mut gen = CodeGenerator::new();
            gen.attribute_groups = attr_groups.duplicate();
            gen.model_groups = model_groups.duplicate();
            assert(gen.ctx() =~= ctx);
            gen.generate(&x, use_imports);
            assert(gen.output@ =~= generated_text(ctx, xsd_view(x), texts(use_imports@)));
            assert(convert_with_spec(ev, path@, texts(use_imports@), ctx) == Ok::<Text, Text>(gen.output@));
            Ok(gen.output)
        },
    }
}

/// Converts the schema document `content` read from `path` into a Rust
/// module: its `quick_xml` events parsed, then generated with `use_imports` and no cross-file
/// groups.
pub fn convert_file(path: &str, content: &str, use_imports: &[String]) -> (r: Result<String, String>)
    ensures
        convert_with_spec(xml_events(content@), path@, texts(use_imports@), empty_ctx()) == match r {
            Ok(s) => Ok::<Text, Text>(s@),
            Err(m) => Err::<Text, Text>(m@),
        },
{
    let attr_groups: NameMap<Vec<AttributeDef>> = NameMap::new();
    let model_groups: NameMap<Vec<SequenceMember>> = NameMap::new();
    assert(attr_groups.view().map_values(|v: Vec<AttributeDef>| attrs_view(v@)) =~= Map::empty());
    assert(model_groups.view().map_values(|v: Vec<SequenceMember>| members_view(v@)) =~= Map::empty());
    assert(groups_ctx(attr_groups, model_groups) == empty_ctx());
    convert_file_with_groups(path, content, use_imports, &attr_groups, &model_groups)
}

} // verus!
