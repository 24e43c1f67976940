# xsd_to_rs

Converts XSD schemas into Rust source: each schema document is parsed into a
model of its simple types, complex types, elements and groups, and Rust types
(serde-annotated structs, enums and newtypes) are generated from that model. A
whole package of schemas becomes a module tree, optionally nested under a
module prefix, pruned to what given root schemas reach, or split into stacked
crates by layer.

The library under `src/` is verified with Verus:

- `parser/` reads a schema document from its XML events (tokenized by
  `quick_xml`) and lifts anonymous inline complex types into named ones; its
  specification is a state machine over the events (`parser/spec.rs`).
- `codegen/` generates the Rust text; every emitter states the exact text it
  appends over the schema model.
- `directory/` plans a package conversion: the include graph and what is
  reachable in it, the cross-file imports of each file, the module tree, and
  the layering rules.
- `name_map.rs`, `text.rs`, `types.rs` and `naming.rs` hold the map, string
  and model helpers and the names for what `heck` and std case conversions
  return.

`app/` is the command-line program around it: argument parsing, walking the
input directory, reading files, resolving include paths, and writing what the
library plans.
