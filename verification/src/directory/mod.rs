//! Converting a whole schema package: which files are emitted, with which
//! cross-file imports, and the module tree that declares them.
pub mod graph;
pub mod mod_gen;
pub mod order;
pub mod paths;

use vstd::prelude::*;

use crate::codegen::{generated_text, CodeGenerator, GenCtx};
use crate::codegen::{register_attr_groups, register_model_groups};
use crate::parser::{parse_result_view, parse_xsd, spec::Events, xsd_parse_spec};
use crate::parser::xml::xml_events;
use crate::text::{owned, push_str};
use crate::types::{copy_strings, texts, xsd_view, Text, XsdFile, XsdModel, AttributeModel, MemberModel};
use graph::{collect_transitive, edges_valid, graph_of, keep_set, kept, reaches, Node};
use mod_gen::{generate_mod_files, mod_files_ok, path_texts};
use order::{sort_strings, sorted_perm_of};
use paths::{display, display_spec, mod_path_spec, out_rel, out_rel_spec, sanitize_ident, sanitize_spec, xsd_rel_to_mod_path};
use crate::text::str_eq;

verus! {

/// A file to write: the output directory it goes to (by index), its path
/// there (by components) and its text.
pub struct OutputFile {
    pub target: usize,
    pub rel: Vec<String>,
    pub content: String,
}

/// What an output file stands for: its output directory, path and text.
pub struct OutputModel {
    pub target: nat,
    pub rel: Seq<Text>,
    pub content: Text,
}

pub open spec fn out_view(f: OutputFile) -> OutputModel {
    OutputModel { target: f.target as nat, rel: texts(f.rel@), content: f.content@ }
}

pub open spec fn outs_view(v: Seq<OutputFile>) -> Seq<OutputModel> {
    v.map_values(|f: OutputFile| out_view(f))
}


/// A schema file found under the input directory.
pub struct SourceFile {
    /// Its path relative to the input directory, by components.
    pub rel: Vec<String>,
    /// Its path as shown in messages and in the generated header.
    pub path: String,
    /// Its text, or the message of the error met reading it.
    pub content: Result<String, String>,
}

/// A parsed schema of the package.
pub struct Entry {
    /// Its path relative to the input directory, by components.
    pub rel: Vec<String>,
    pub xsd: XsdFile,
}

/// What scanning one file gives: its read error, or the parse of its text.
pub open spec fn file_outcome(f: SourceFile) -> Result<XsdModel, Text> {
    match f.content {
        Err(e) => Err(e@),
        Ok(c) => xsd_parse_spec(xml_events(c@), f.path@),
    }
}

/// Reads every schema of the package, in order; the first file that cannot
/// be read or parsed stops the scan with its error.
pub fn scan_package(files: &Vec<SourceFile>) -> (r: Result<Vec<Entry>, String>)
    ensures
        match r {
            Ok(es) => {
                &&& es.len() == files.len()
                &&& forall|i: int|
                    0 <= i < files.len() ==> {
                        &&& texts((#[trigger] es@[i]).rel@) == texts(files@[i].rel@)
                        &&& file_outcome(files@[i]) == Ok::<XsdModel, Text>(xsd_view(es@[i].xsd))
                    }
            },
            Err(m) => exists|i: int|
                0 <= i < files.len() && file_outcome(#[trigger] files@[i]) == Err::<XsdModel, Text>(m@)
                    && forall|j: int| 0 <= j < i ==> file_outcome(#[trigger] files@[j]) is Ok,
        },
{
    let mut es: Vec<Entry> = Vec::new();
    let mut i: usize = 0;
    while i < files.len()
        invariant
            i <= files.len(),
            es.len() == i,
            forall|j: int|
                0 <= j < i ==> {
                    &&& texts((#[trigger] es@[j]).rel@) == texts(files@[j].rel@)
                    &&& file_outcome(files@[j]) == Ok::<XsdModel, Text>(xsd_view(es@[j].xsd))
                },
        decreases files.len() - i,
    {
        let f = &files[i];
        assert forall|j: int| 0 <= j < i implies file_outcome(#[trigger] files@[j]) is Ok by {
            assert(file_outcome(files@[j]) == Ok::<XsdModel, Text>(xsd_view(es@[j].xsd)));
        }
        match &f.content {
            Err(e) => {
                assert(file_outcome(files@[i as int]) == Err::<XsdModel, Text>(e@));
                return Err(owned(e.as_str()));
            },
            Ok(c) => {
                let parsed = parse_xsd(f.path.as_str(), c.as_str());
                match parsed {
                    Err(m) => {
                        assert(parse_result_view(Err(m)) == Err::<XsdModel, Text>(m@));
                        assert(file_outcome(files@[i as int]) == Err::<XsdModel, Text>(m@));
                        return Err(m);
                    },
                    Ok(x) => {
                        assert(parse_result_view(Ok(x)) == Ok::<XsdModel, Text>(xsd_view(x)));
                        let ghost before = es@;
                        es.push(Entry { rel: copy_strings(&f.rel), xsd: x });
                        assert forall|j: int| 0 <= j < i implies #[trigger] es@[j] == before[j] by {}
                    },
                }
            },
        }
        i = i + 1;
    }
    Ok(es)
}

/// The package's include graph.
pub struct IncludeGraph {
    /// The node of each entry's own path, in entry order (`None` when its
    /// path could not be resolved).
    pub entry_nodes: Vec<Option<usize>>,
    pub nodes: Vec<Node>,
}

impl IncludeGraph {
    /// Each entry has a node slot and every node named is in the graph.
    pub open spec fn wf(&self, n_entries: nat) -> bool {
        &&& self.entry_nodes.len() == n_entries
        &&& forall|i: int|
            0 <= i < self.entry_nodes.len() ==> match #[trigger] self.entry_nodes@[i] {
                Some(v) => v < self.nodes.len(),
                None => true,
            }
        &&& edges_valid(graph_of(self.nodes@))
    }

    /// Whether `wf(n_entries)` holds.
    pub fn check(&self, n_entries: usize) -> (r: bool)
        ensures
            r == self.wf(n_entries as nat),
    {
        if self.entry_nodes.len() != n_entries {
            return false;
        }
        let n = self.nodes.len();
        let mut i: usize = 0;
        while i < self.entry_nodes.len()
            invariant
                n == self.nodes.len(),
                i <= self.entry_nodes.len(),
                forall|j: int|
                    0 <= j < i ==> match #[trigger] self.entry_nodes@[j] {
                        Some(v) => v < n,
                        None => true,
                    },
            decreases self.entry_nodes.len() - i,
        {
            if let Some(v) = self.entry_nodes[i] {
                if v >= n {
                    return false;
                }
            }
            i = i + 1;
        }
        let ghost g = graph_of(self.nodes@);
        let mut u: usize = 0;
        while u < n
            invariant
                n == self.nodes.len(),
                g == graph_of(self.nodes@),
                u <= n,
                forall|a: int, k: int| 0 <= a < u && 0 <= k < g[a].len() ==> #[trigger] g[a][k] < n,
            decreases n - u,
        {
            let incs = &self.nodes[u].includes;
            assert(incs@ == g[u as int]);
            let mut k: usize = 0;
            while k < incs.len()
                invariant
                    n == self.nodes.len(),
                    g == graph_of(self.nodes@),
                    u < n,
                    incs@ == g[u as int],
                    k <= incs.len(),
                    forall|a: int, j: int| 0 <= a < u && 0 <= j < g[a].len() ==> #[trigger] g[a][j] < n,
                    forall|j: int| 0 <= j < k ==> #[trigger] g[u as int][j] < n,
                decreases incs.len() - k,
            {
                if incs[k] >= n {
                    assert(!edges_valid(g));
                    return false;
                }
                k = k + 1;
            }
            u = u + 1;
        }
        true
    }
}

/// The tables a fresh generator starts with.
pub open spec fn empty_ctx() -> GenCtx {
    GenCtx {
        types: Map::empty(),
        enums: Map::empty(),
        attr_groups: Map::empty(),
        model_groups: Map::empty(),
    }
}

/// The cross-file registry: every attribute and model group of the package,
/// the first definition of a name winning.
pub open spec fn registry_ctx(xs: Seq<XsdModel>) -> GenCtx
    decreases xs.len(),
{
    if xs.len() == 0 {
        empty_ctx()
    } else {
        let c = registry_ctx(xs.drop_last());
        GenCtx {
            attr_groups: register_attr_groups(c.attr_groups, xs.last().attribute_groups),
            model_groups: register_model_groups(c.model_groups, xs.last().model_groups),
            ..c
        }
    }
}

pub open spec fn entry_models(es: Seq<Entry>) -> Seq<XsdModel> {
    es.map_values(|e: Entry| xsd_view(e.xsd))
}

/// A generator holding the package's cross-file group registry.
fn package_generator(entries: &Vec<Entry>) -> (g: CodeGenerator)
    ensures
        g.wf(),
        g.output@ == Seq::<char>::empty(),
        g.ctx() == registry_ctx(entry_models(entries@)),
{
    let ghost xs = entry_models(entries@);
    let mut g = CodeGenerator::new();
    let mut i: usize = 0;
    assert(g.ctx() =~= empty_ctx());
    while i < entries.len()
        invariant
            xs == entry_models(entries@),
            i <= entries.len(),
            g.wf(),
            g.output@ == Seq::<char>::empty(),
            g.ctx() == registry_ctx(xs.take(i as int)),
        decreases entries.len() - i,
    {
        let ghost c0 = g.ctx();
        g.register_groups(&entries[i].xsd);
        proof {
            let t = xs.take(i + 1);
            assert(t.drop_last() =~= xs.take(i as int));
            assert(t.last() == xsd_view(entries@[i as int].xsd));
            assert(g.ctx().types == c0.types);
            assert(g.ctx().enums == c0.enums);
            assert(g.ctx() == registry_ctx(t));
        }
        i = i + 1;
    }
    assert(xs.take(i as int) =~= xs);
    g
}

/// A module prefix as text.
pub open spec fn prefix_text(p: Option<&str>) -> Option<Text> {
    match p {
        Some(s) => Some(s@),
        None => None,
    }
}

/// The import of module path `mp` within the crate, under `prefix` when
/// the tree is nested.
pub open spec fn crate_import(prefix: Option<Text>, mp: Text) -> Text {
    match prefix {
        Some(p) => "use crate::"@ + p + "::"@ + mp + "::*;"@,
        None => "use crate::"@ + mp + "::*;"@,
    }
}

fn crate_import_exec(prefix: Option<&str>, mp: &str) -> (r: String)
    ensures
        r@ == crate_import(prefix_text(prefix), mp@),
{
    let mut r = owned("use crate::");
    if let Some(p) = prefix {
        push_str(&mut r, p);
        push_str(&mut r, "::");
    }
    push_str(&mut r, mp);
    push_str(&mut r, "::*;");
    r
}

/// The relative paths of the nodes, as text.
pub open spec fn rels_of(nodes: Seq<Node>) -> Seq<Option<Seq<Text>>> {
    nodes.map_values(
        |n: Node|
            match n.rel {
                Some(v) => Some(texts(v@)),
                None => None,
            },
    )
}

/// The imports of the schema at node `s`, for the nodes `0..k` in order:
/// one for each node reached from `s` that lies inside the input directory.
pub open spec fn tree_imports(
    g: Seq<Seq<usize>>,
    rels: Seq<Option<Seq<Text>>>,
    s: int,
    prefix: Option<Text>,
    k: int,
) -> Seq<Text>
    decreases k,
{
    if k <= 0 {
        Seq::empty()
    } else {
        let prev = tree_imports(g, rels, s, prefix, k - 1);
        if reaches(g, s, k - 1) && rels[k - 1] is Some {
            prev.push(crate_import(prefix, mod_path_spec(rels[k - 1]->0)))
        } else {
            prev
        }
    }
}

/// The sorted imports of the schema at node `s`.
fn tree_imports_exec(nodes: &Vec<Node>, s: usize, prefix: Option<&str>) -> (r: Vec<String>)
    requires
        edges_valid(graph_of(nodes@)),
        s < nodes.len(),
    ensures
        texts(r@) == sorted_perm_of(
            tree_imports(graph_of(nodes@), rels_of(nodes@), s as int, prefix_text(prefix), nodes.len() as int),
        ),
{
    let ghost g = graph_of(nodes@);
    let ghost rels = rels_of(nodes@);
    let reach = collect_transitive(nodes, s);
    let mut out: Vec<String> = Vec::new();
    let mut v: usize = 0;
    while v < nodes.len()
        invariant
            g == graph_of(nodes@),
            rels == rels_of(nodes@),
            reach.len() == nodes.len(),
            forall|x: int| 0 <= x < nodes.len() ==> (reach@[x] <==> reaches(g, s as int, x)),
            v <= nodes.len(),
            texts(out@) == tree_imports(g, rels, s as int, prefix_text(prefix), v as int),
        decreases nodes.len() - v,
    {
        if reach[v] {
            match &nodes[v].rel {
                Some(rel) => {
                    let mp = xsd_rel_to_mod_path(rel);
                    let line = crate_import_exec(prefix, mp.as_str());
                    let ghost before = out@;
                    out.push(line);
                    assert(texts(out@) =~= texts(before).push(line@));
                },
                None => {},
            }
        }
        v = v + 1;
    }
    sort_strings(out)
}

/// Whether an entry is converted: every entry without roots; with roots,
/// those whose node is kept.
pub open spec fn entry_kept(g: Seq<Seq<usize>>, roots: Option<Seq<usize>>, node: Option<usize>) -> bool {
    match roots {
        None => true,
        Some(rs) => match node {
            Some(v) => kept(g, rs, v as int),
            None => false,
        },
    }
}

/// The sorted imports of an entry with node `node`.
pub open spec fn entry_imports(nodes: Seq<Node>, node: Option<usize>, prefix: Option<Text>) -> Seq<Text> {
    match node {
        Some(s) => sorted_perm_of(
            tree_imports(graph_of(nodes), rels_of(nodes), s as int, prefix, nodes.len() as int),
        ),
        None => Seq::empty(),
    }
}

/// The Rust file generated for entry `e` with imports `imps`.
pub open spec fn code_file(es: Seq<Entry>, e: Entry, imps: Seq<Text>, target: nat) -> OutputModel {
    OutputModel {
        target,
        rel: out_rel_spec(texts(e.rel@)),
        content: generated_text(registry_ctx(entry_models(es)), xsd_view(e.xsd), imps),
    }
}

/// The Rust files of a single-tree conversion for the first `k` entries.
pub open spec fn tree_code_files(
    es: Seq<Entry>,
    graph: IncludeGraph,
    prefix: Option<Text>,
    roots: Option<Seq<usize>>,
    k: int,
) -> Seq<OutputModel>
    decreases k,
{
    if k <= 0 {
        Seq::empty()
    } else {
        let prev = tree_code_files(es, graph, prefix, roots, k - 1);
        let node = graph.entry_nodes@[k - 1];
        if entry_kept(graph_of(graph.nodes@), roots, node) {
            prev.push(code_file(es, es[k - 1], entry_imports(graph.nodes@, node, prefix), 0))
        } else {
            prev
        }
    }
}

/// The output paths of those files.
pub open spec fn tree_paths(
    es: Seq<Entry>,
    graph: IncludeGraph,
    roots: Option<Seq<usize>>,
    k: int,
) -> Seq<Seq<Text>>
    decreases k,
{
    if k <= 0 {
        Seq::empty()
    } else {
        let prev = tree_paths(es, graph, roots, k - 1);
        if entry_kept(graph_of(graph.nodes@), roots, graph.entry_nodes@[k - 1]) {
            prev.push(out_rel_spec(texts(es[k - 1].rel@)))
        } else {
            prev
        }
    }
}

/// What a conversion writes and how it ends.
pub struct ConversionPlan {
    /// The generated Rust files, in the order they are written.
    pub files: Vec<OutputFile>,
    /// Then the module tree of each output directory, in order.
    pub mod_trees: Vec<Vec<OutputFile>>,
    /// The error the conversion stops with after writing the above.
    pub error: Option<String>,
}

/// `p` is the single-tree conversion of the package.
pub open spec fn tree_plan_ok(
    p: ConversionPlan,
    es: Seq<Entry>,
    graph: IncludeGraph,
    prefix: Option<Text>,
    roots: Option<Seq<usize>>,
) -> bool {
    &&& outs_view(p.files@) == tree_code_files(es, graph, prefix, roots, es.len() as int)
    &&& p.mod_trees.len() == 1
    &&& mod_files_ok(outs_view(p.mod_trees@[0]@), tree_paths(es, graph, roots, es.len() as int), prefix is Some, 0)
    &&& p.error is None
}

/// The Rust file of entry `i` in a single tree under `prefix`.
fn tree_code_file(entries: &Vec<Entry>, i: usize, graph: &IncludeGraph, prefix: Option<&str>) -> (f: OutputFile)
    requires
        graph.wf(entries.len() as nat),
        i < entries.len(),
    ensures
        out_view(f) == code_file(
            entries@,
            entries@[i as int],
            entry_imports(graph.nodes@, graph.entry_nodes@[i as int], prefix_text(prefix)),
            0,
        ),
        f.rel.len() > 0,
{
    let node = graph.entry_nodes[i];
    assert(match node {
        Some(v) => v < graph.nodes.len(),
        None => true,
    });
    let e = &entries[i];
    let imports = match node {
        Some(s) => tree_imports_exec(&graph.nodes, s, prefix),
        None => Vec::new(),
    };
    assert(texts(imports@) == entry_imports(graph.nodes@, node, prefix_text(prefix)));
    let mut gen = package_generator(entries);
    gen.generate(&e.xsd, imports.as_slice());
    let rel = out_rel(&e.rel);
    assert(texts(rel@).len() == rel.len());
    OutputFile { target: 0, rel, content: gen.output }
}

/// Whether the entry with node `node` is kept, given the kept flags (if
/// pruning).
fn kept_exec(keep: &Option<Vec<bool>>, node: Option<usize>) -> (r: bool)
    requires
        match *keep {
            Some(k) => match node {
                Some(v) => v < k.len(),
                None => true,
            },
            None => true,
        },
    ensures
        r == match *keep {
            None => true,
            Some(k) => match node {
                Some(v) => k@[v as int],
                None => false,
            },
        },
{
    match keep {
        None => true,
        Some(k) => match node {
            Some(v) => k[v],
            None => false,
        },
    }
}

#[verifier::rlimit(40)]
fn convert_directory_inner(
    entries: &Vec<Entry>,
    graph: &IncludeGraph,
    mod_prefix: Option<&str>,
    roots: Option<&[usize]>,
) -> (r: ConversionPlan)
    requires
        graph.wf(entries.len() as nat),
        match roots {
            Some(rs) => forall|i: int| 0 <= i < rs@.len() ==> #[trigger] rs@[i] < graph.nodes.len(),
            None => true,
        },
    ensures
        tree_plan_ok(
            r,
            entries@,
            *graph,
            prefix_text(mod_prefix),
            match roots {
                Some(rs) => Some(rs@),
                None => None,
            },
        ),
{
    let ghost rs = match roots {
        Some(rs) => Some(rs@),
        None => None::<Seq<usize>>,
    };
    let ghost g = graph_of(graph.nodes@);
    let keep: Option<Vec<bool>> = match roots {
        Some(rs) => Some(keep_set(&graph.nodes, rs)),
        None => None,
    };
    let mut files: Vec<OutputFile> = Vec::new();
    let mut paths: Vec<Vec<String>> = Vec::new();
    let mut i: usize = 0;
    while i < entries.len()
        invariant
            graph.wf(entries.len() as nat),
            g == graph_of(graph.nodes@),
            rs == match roots {
                Some(rs) => Some(rs@),
                None => None::<Seq<usize>>,
            },
            match keep {
                Some(k) => rs is Some && k.len() == graph.nodes.len() && forall|v: int|
                    0 <= v < graph.nodes.len() ==> (k@[v] <==> kept(g, rs->0, v)),
                None => rs is None,
            },
            i <= entries.len(),
            outs_view(files@) == tree_code_files(entries@, *graph, prefix_text(mod_prefix), rs, i as int),
            path_texts(paths@) == tree_paths(entries@, *graph, rs, i as int),
            forall|q: int| 0 <= q < paths.len() ==> (#[trigger] paths@[q]).len() > 0,
        decreases entries.len() - i,
    {
        let node = graph.entry_nodes[i];
        assert(match node {
            Some(v) => v < graph.nodes.len(),
            None => true,
        });
        let keep_it = kept_exec(&keep, node);
        assert(keep_it == entry_kept(g, rs, node));
        if keep_it {
            let f = tree_code_file(entries, i, graph, mod_prefix);
            let ghost before_f = files@;
            let ghost before_p = paths@;
            let p = copy_strings(&f.rel);
            assert(p.len() == texts(p@).len());
            paths.push(p);
            files.push(f);
            proof {
                assert(outs_view(files@) =~= outs_view(before_f).push(out_view(f)));
                assert(path_texts(paths@) =~= path_texts(before_p).push(texts(p@)));
                assert forall|q: int| 0 <= q < paths.len() implies (#[trigger] paths@[q]).len() > 0 by {
                    if q < before_p.len() {
                        assert(paths@[q] == before_p[q]);
                    }
                }
            }
        }
        i = i + 1;
    }
    let mods = generate_mod_files(&paths, mod_prefix.is_some(), 0);
    let mut mod_trees: Vec<Vec<OutputFile>> = Vec::new();
    mod_trees.push(mods);
    ConversionPlan { files, mod_trees, error: None }
}

/// Converts every schema of the package into one module tree whose root
/// module file is `lib.rs`.
pub fn convert_directory(entries: &Vec<Entry>, graph: &IncludeGraph) -> (r: ConversionPlan)
    requires
        graph.wf(entries.len() as nat),
    ensures
        tree_plan_ok(r, entries@, *graph, None, None),
{
    convert_directory_inner(entries, graph, None, None)
}

/// Like `convert_directory`, but for a tree nested as an inner module: with
/// `Some(p)` every cross-file import reads `use crate::p::...::*;` and the
/// root module file is `mod.rs`.
pub fn convert_directory_with_prefix(entries: &Vec<Entry>, graph: &IncludeGraph, mod_prefix: Option<&str>) -> (r: ConversionPlan)
    requires
        graph.wf(entries.len() as nat),
    ensures
        tree_plan_ok(r, entries@, *graph, prefix_text(mod_prefix), None),
{
    convert_directory_inner(entries, graph, mod_prefix, None)
}

/// Like `convert_directory_with_prefix`, but emits only the schemas kept
/// when pruning to `roots`: the roots and what they reach through includes.
pub fn convert_directory_pruned(
    entries: &Vec<Entry>,
    graph: &IncludeGraph,
    mod_prefix: Option<&str>,
    roots: &[usize],
) -> (r: ConversionPlan)
    requires
        graph.wf(entries.len() as nat),
        forall|i: int| 0 <= i < roots@.len() ==> #[trigger] roots@[i] < graph.nodes.len(),
    ensures
        tree_plan_ok(r, entries@, *graph, prefix_text(mod_prefix), Some(roots@)),
{
    convert_directory_inner(entries, graph, mod_prefix, Some(roots))
}

/// One layer of a stacked-crate conversion.
pub struct Layer {
    /// The layer crate's identifier, used in the imports emitted into higher
    /// layers.
    pub crate_ident: String,
    /// The (identifier) top-level directories this layer owns.
    pub dirs: Vec<String>,
}

/// The first layer from `j` on that owns top-level directory `top`, or -1.
pub open spec fn layer_from(layers: Seq<Layer>, top: Text, j: int) -> int
    decreases layers.len() - j,
{
    if j < 0 || j >= layers.len() {
        -1
    } else if texts(layers[j].dirs@).contains(top) {
        j
    } else {
        layer_from(layers, top, j + 1)
    }
}

/// The layer owning top-level directory `top`: the first that lists it,
/// or -1.
pub open spec fn layer_index(layers: Seq<Layer>, top: Text) -> int {
    layer_from(layers, top, 0)
}

fn owns_dir(layer: &Layer, top: &str) -> (r: bool)
    ensures
        r == texts(layer.dirs@).contains(top@),
{
    let mut k: usize = 0;
    while k < layer.dirs.len()
        invariant
            k <= layer.dirs.len(),
            forall|j: int| 0 <= j < k ==> layer.dirs@[j]@ != top@,
        decreases layer.dirs.len() - k,
    {
        if str_eq(layer.dirs[k].as_str(), top) {
            assert(texts(layer.dirs@)[k as int] == top@);
            return true;
        }
        k = k + 1;
    }
    assert(!texts(layer.dirs@).contains(top@)) by {
        if texts(layer.dirs@).contains(top@) {
            let j = choose|j: int| 0 <= j < texts(layer.dirs@).len() && texts(layer.dirs@)[j] == top@;
            assert(layer.dirs@[j]@ == top@);
        }
    }
    false
}

/// The layer owning top-level directory `top`.
fn layer_of(layers: &[Layer], top: &str) -> (r: Option<usize>)
    ensures
        match r {
            Some(l) => l < layers.len() && l as int == layer_index(layers@, top@),
            None => layer_index(layers@, top@) == -1,
        },
{
    let mut j: usize = 0;
    while j < layers.len()
        invariant
            j <= layers.len(),
            layer_index(layers@, top@) == layer_from(layers@, top@, j as int),
        decreases layers.len() - j,
    {
        if owns_dir(&layers[j], top) {
            return Some(j);
        }
        j = j + 1;
    }
    None
}

/// The import of module path `mp` from layer `il` into a file of layer `my`.
pub open spec fn layer_import(layers: Seq<Layer>, my: int, il: int, mp: Text) -> Text {
    if il == my {
        "use crate::"@ + mp + "::*;"@
    } else {
        "use "@ + layers[il].crate_ident@ + "::"@ + mp + "::*;"@
    }
}

pub open spec fn no_layer_msg(out: Seq<Text>) -> Text {
    "no layer owns "@ + display_spec(out) + " (top-level directory not assigned)"@
}

pub open spec fn no_layer_include_msg(rel: Seq<Text>, out: Seq<Text>) -> Text {
    "no layer owns include "@ + display_spec(rel) + " (reached from "@ + display_spec(out) + ")"@
}

pub open spec fn violation_msg(out: Seq<Text>, my_crate: Text, rel: Seq<Text>, inc_crate: Text) -> Text {
    "layering violation: "@ + display_spec(out) + " (layer "@ + my_crate + ") includes "@
        + display_spec(rel) + " (layer "@ + inc_crate
        + ") \u{2014} a lower layer cannot depend on a higher one"@
}

pub open spec fn empty_layer_msg(crate_ident: Text) -> Text {
    "layer "@ + crate_ident + " matched no schemas \u{2014} check its directory list"@
}

/// The layer an include with relative path `rel` falls in: by its first
/// component made an identifier (-1 when none owns it).
pub open spec fn include_layer(layers: Seq<Layer>, rel: Seq<Text>) -> int {
    if rel.len() == 0 {
        -1
    } else {
        layer_index(layers, sanitize_spec(rel[0]))
    }
}

/// The imports of a file of layer `my` at output path `out` whose node is
/// `s`, for the nodes `0..k` in order, or the error of the first include
/// that no layer owns or that lies in a higher layer.
pub open spec fn layered_imports(
    g: Seq<Seq<usize>>,
    rels: Seq<Option<Seq<Text>>>,
    layers: Seq<Layer>,
    s: int,
    my: int,
    out: Seq<Text>,
    k: int,
) -> Result<Seq<Text>, Text>
    decreases k,
{
    if k <= 0 {
        Ok(Seq::empty())
    } else {
        match layered_imports(g, rels, layers, s, my, out, k - 1) {
            Err(e) => Err(e),
            Ok(prev) => if !(reaches(g, s, k - 1) && rels[k - 1] is Some) {
                Ok(prev)
            } else {
                let rel = rels[k - 1]->0;
                let il = include_layer(layers, rel);
                if il < 0 {
                    Err(no_layer_include_msg(rel, out))
                } else if il > my {
                    Err(violation_msg(out, layers[my].crate_ident@, rel, layers[il].crate_ident@))
                } else {
                    Ok(prev.push(layer_import(layers, my, il, mod_path_spec(rel))))
                }
            },
        }
    }
}

/// What entry `i` (kept, so with a node) gives in a layered conversion: its
/// layer and Rust file, or the error it stops the conversion with.
#[verifier::opaque]
pub open spec fn layered_entry_spec(es: Seq<Entry>, graph: IncludeGraph, layers: Seq<Layer>, i: int) -> Result<
    (int, OutputModel),
    Text,
> {
    let e = es[i];
    let out = out_rel_spec(texts(e.rel@));
    let my = layer_index(layers, out[0]);
    if my < 0 {
        Err(no_layer_msg(out))
    } else {
        match layered_imports(
            graph_of(graph.nodes@),
            rels_of(graph.nodes@),
            layers,
            graph.entry_nodes@[i]->0 as int,
            my,
            out,
            graph.nodes.len() as int,
        ) {
            Err(m) => Err(m),
            Ok(imps) => Ok((my, code_file(es, e, sorted_perm_of(imps), my as nat))),
        }
    }
}

/// The progress of a layered conversion: files written, each file's layer
/// and path, and the error met, if any.
pub struct LayeredState {
    pub files: Seq<OutputModel>,
    pub placed: Seq<(int, Seq<Text>)>,
    pub error: Option<Text>,
}

/// The layered conversion of the first `k` entries.
pub open spec fn layered_entries(
    es: Seq<Entry>,
    graph: IncludeGraph,
    layers: Seq<Layer>,
    roots: Seq<usize>,
    k: int,
) -> LayeredState
    decreases k,
{
    if k <= 0 {
        LayeredState { files: Seq::empty(), placed: Seq::empty(), error: None }
    } else {
        let st = layered_entries(es, graph, layers, roots, k - 1);
        if st.error is Some || !entry_kept(graph_of(graph.nodes@), Some(roots), graph.entry_nodes@[k - 1]) {
            st
        } else {
            match layered_entry_spec(es, graph, layers, k - 1) {
                Err(m) => LayeredState { error: Some(m), ..st },
                Ok((l, f)) => LayeredState {
                    files: st.files.push(f),
                    placed: st.placed.push((l, f.rel)),
                    error: None,
                },
            }
        }
    }
}

/// The paths placed in layer `l`, in order.
pub open spec fn paths_of_layer(placed: Seq<(int, Seq<Text>)>, l: int) -> Seq<Seq<Text>>
    decreases placed.len(),
{
    if placed.len() == 0 {
        Seq::empty()
    } else {
        let prev = paths_of_layer(placed.drop_last(), l);
        if placed.last().0 == l {
            prev.push(placed.last().1)
        } else {
            prev
        }
    }
}

/// The first layer from `l` on with no file, or `n`.
pub open spec fn first_empty_layer(placed: Seq<(int, Seq<Text>)>, n: int, l: int) -> int
    decreases n - l,
{
    if l >= n {
        n
    } else if paths_of_layer(placed, l).len() == 0 {
        l
    } else {
        first_empty_layer(placed, n, l + 1)
    }
}

/// `e` is an error with message `m`.
pub open spec fn error_is(e: Option<String>, m: Text) -> bool {
    match e {
        Some(x) => x@ == m,
        None => false,
    }
}

/// `p` is the layered conversion of the package: the files of the entries
/// up to the first error; with no error, the module tree of each layer in
/// order, up to the first layer that received no file, which is an error.
pub open spec fn layered_plan_ok(
    p: ConversionPlan,
    es: Seq<Entry>,
    graph: IncludeGraph,
    layers: Seq<Layer>,
    roots: Seq<usize>,
) -> bool {
    let st = layered_entries(es, graph, layers, roots, es.len() as int);
    &&& outs_view(p.files@) == st.files
    &&& match st.error {
        Some(m) => p.mod_trees.len() == 0 && error_is(p.error, m),
        None => {
            let l0 = first_empty_layer(st.placed, layers.len() as int, 0);
            &&& p.mod_trees.len() == l0
            &&& forall|l: int|
                0 <= l < l0 ==> mod_files_ok(
                    outs_view(#[trigger] p.mod_trees@[l]@),
                    paths_of_layer(st.placed, l),
                    false,
                    l as nat,
                )
            &&& if l0 < layers.len() {
                error_is(p.error, empty_layer_msg(layers[l0].crate_ident@))
            } else {
                p.error is None
            }
        },
    }
}

fn no_layer_msg_exec(out: &Vec<String>) -> (r: String)
    ensures
        r@ == no_layer_msg(texts(out@)),
{
    let mut r = owned("no layer owns ");
    push_str(&mut r, display(out).as_str());
    push_str(&mut r, " (top-level directory not assigned)");
    r
}

fn no_layer_include_msg_exec(rel: &Vec<String>, out: &Vec<String>) -> (r: String)
    ensures
        r@ == no_layer_include_msg(texts(rel@), texts(out@)),
{
    let mut r = owned("no layer owns include ");
    push_str(&mut r, display(rel).as_str());
    push_str(&mut r, " (reached from ");
    push_str(&mut r, display(out).as_str());
    push_str(&mut r, ")");
    r
}

fn violation_msg_exec(out: &Vec<String>, my_crate: &str, rel: &Vec<String>, inc_crate: &str) -> (r: String)
    ensures
        r@ == violation_msg(texts(out@), my_crate@, texts(rel@), inc_crate@),
{
    let mut r = owned("layering violation: ");
    push_str(&mut r, display(out).as_str());
    push_str(&mut r, " (layer ");
    push_str(&mut r, my_crate);
    push_str(&mut r, ") includes ");
    push_str(&mut r, display(rel).as_str());
    push_str(&mut r, " (layer ");
    push_str(&mut r, inc_crate);
    push_str(&mut r, ") \u{2014} a lower layer cannot depend on a higher one");
    r
}

fn empty_layer_msg_exec(crate_ident: &str) -> (r: String)
    ensures
        r@ == empty_layer_msg(crate_ident@),
{
    let mut r = owned("layer ");
    push_str(&mut r, crate_ident);
    push_str(&mut r, " matched no schemas \u{2014} check its directory list");
    r
}

fn layer_import_exec(layers: &[Layer], my: usize, il: usize, mp: &str) -> (r: String)
    requires
        il < layers.len(),
    ensures
        r@ == layer_import(layers@, my as int, il as int, mp@),
{
    let mut r = owned("use ");
    if il == my {
        push_str(&mut r, "crate");
    } else {
        push_str(&mut r, layers[il].crate_ident.as_str());
    }
    push_str(&mut r, "::");
    push_str(&mut r, mp);
    push_str(&mut r, "::*;");
    proof {
        reveal_strlit("use ");
        reveal_strlit("crate");
        reveal_strlit("use crate::");
        reveal_strlit("::");
        assert("use crate::"@ =~= "use "@ + "crate"@ + "::"@);
    }
    r
}

/// The layer of an include at relative path `rel`.
fn include_layer_exec(layers: &[Layer], rel: &Vec<String>) -> (r: Option<usize>)
    ensures
        match r {
            Some(l) => l < layers.len() && l as int == include_layer(layers@, texts(rel@)),
            None => include_layer(layers@, texts(rel@)) == -1,
        },
{
    if rel.len() == 0 {
        return None;
    }
    let top = sanitize_ident(rel[0].as_str());
    layer_of(layers, top.as_str())
}

proof fn lemma_layered_imports_err(
    g: Seq<Seq<usize>>,
    rels: Seq<Option<Seq<Text>>>,
    layers: Seq<Layer>,
    s: int,
    my: int,
    out: Seq<Text>,
    k1: int,
    k2: int,
)
    requires
        0 <= k1 <= k2,
        layered_imports(g, rels, layers, s, my, out, k1) is Err,
    ensures
        layered_imports(g, rels, layers, s, my, out, k2) == layered_imports(g, rels, layers, s, my, out, k1),
    decreases k2 - k1,
{
    if k1 < k2 {
        lemma_layered_imports_err(g, rels, layers, s, my, out, k1, k2 - 1);
    }
}

/// The imports of the file of layer `my` at output path `out` whose node
/// is `s`, in node order, or the error of the first bad include.
fn layered_imports_exec(nodes: &Vec<Node>, s: usize, layers: &[Layer], my: usize, out: &Vec<String>) -> (r: Result<Vec<String>, String>)
    requires
        edges_valid(graph_of(nodes@)),
        s < nodes.len(),
        my < layers.len(),
    ensures
        match r {
            Ok(v) => layered_imports(graph_of(nodes@), rels_of(nodes@), layers@, s as int, my as int, texts(out@), nodes.len() as int) == Ok::<Seq<Text>, Text>(texts(v@)),
            Err(m) => layered_imports(graph_of(nodes@), rels_of(nodes@), layers@, s as int, my as int, texts(out@), nodes.len() as int) == Err::<Seq<Text>, Text>(m@),
        },
{
    let ghost g = graph_of(nodes@);
    let ghost rels = rels_of(nodes@);
    let ghost ov = texts(out@);
    let reach = collect_transitive(nodes, s);
    let mut acc: Vec<String> = Vec::new();
    assert(texts(acc@) =~= Seq::<Text>::empty());
    let mut v: usize = 0;
    while v < nodes.len()
        invariant
            g == graph_of(nodes@),
            rels == rels_of(nodes@),
            ov == texts(out@),
            my < layers.len(),
            reach.len() == nodes.len(),
            forall|x: int| 0 <= x < nodes.len() ==> (reach@[x] <==> reaches(g, s as int, x)),
            v <= nodes.len(),
            layered_imports(g, rels, layers@, s as int, my as int, ov, v as int) == Ok::<Seq<Text>, Text>(texts(acc@)),
        decreases nodes.len() - v,
    {
        if reach[v] {
            match &nodes[v].rel {
                Some(rel) => {
                    assert(rels[v as int] == Some(texts(rel@)));
                    match include_layer_exec(layers, rel) {
                        None => {
                            let m = no_layer_include_msg_exec(rel, out);
                            proof {
                                lemma_layered_imports_err(g, rels, layers@, s as int, my as int, ov, v + 1, nodes.len() as int);
                            }
                            return Err(m);
                        },
                        Some(il) => {
                            if il > my {
                                let m = violation_msg_exec(
                                    out,
                                    layers[my].crate_ident.as_str(),
                                    rel,
                                    layers[il].crate_ident.as_str(),
                                );
                                proof {
                                    lemma_layered_imports_err(g, rels, layers@, s as int, my as int, ov, v + 1, nodes.len() as int);
                                }
                                return Err(m);
                            }
                            let mp = xsd_rel_to_mod_path(rel);
                            let line = layer_import_exec(layers, my, il, mp.as_str());
                            let ghost before = acc@;
                            acc.push(line);
                            assert(texts(acc@) =~= texts(before).push(line@));
                        },
                    }
                },
                None => {},
            }
        }
        v = v + 1;
    }
    Ok(acc)
}

/// Entry `i` of a layered conversion: its layer and Rust file, or the
/// error it stops the conversion with.
fn layered_entry(entries: &Vec<Entry>, i: usize, graph: &IncludeGraph, layers: &[Layer]) -> (r: Result<(usize, OutputFile), String>)
    requires
        graph.wf(entries.len() as nat),
        i < entries.len(),
        graph.entry_nodes@[i as int] is Some,
    ensures
        match r {
            Ok((l, f)) => {
                &&& l < layers.len()
                &&& f.rel.len() > 0
                &&& layered_entry_spec(entries@, *graph, layers@, i as int) == Ok::<(int, OutputModel), Text>((l as int, out_view(f)))
            },
            Err(m) => layered_entry_spec(entries@, *graph, layers@, i as int) == Err::<(int, OutputModel), Text>(m@),
        },
{
    reveal(layered_entry_spec);
    let e = &entries[i];
    let out = out_rel(&e.rel);
    assert(texts(out@).len() == out.len());
    let ghost ov = texts(out@);
    assert(ov[0] == out@[0]@);
    let my = match layer_of(layers, out[0].as_str()) {
        None => {
            return Err(no_layer_msg_exec(&out));
        },
        Some(l) => l,
    };
    let s = graph.entry_nodes[i].unwrap();
    assert(s < graph.nodes.len());
    let imports = match layered_imports_exec(&graph.nodes, s, layers, my, &out) {
        Err(m) => {
            return Err(m);
        },
        Ok(v) => v,
    };
    let sorted = sort_strings(imports);
    let mut gen = package_generator(entries);
    gen.generate(&e.xsd, sorted.as_slice());
    let f = OutputFile { target: my, rel: out, content: gen.output };
    Ok((my, f))
}

pub open spec fn placed_view(v: Seq<(usize, Vec<String>)>) -> Seq<(int, Seq<Text>)> {
    v.map_values(|p: (usize, Vec<String>)| (p.0 as int, texts(p.1@)))
}

/// The paths placed in layer `l`, in order.
fn paths_for_layer(placed: &Vec<(usize, Vec<String>)>, l: usize) -> (r: Vec<Vec<String>>)
    requires
        forall|q: int| 0 <= q < placed.len() ==> (#[trigger] placed@[q]).1.len() > 0,
    ensures
        path_texts(r@) == paths_of_layer(placed_view(placed@), l as int),
        forall|q: int| 0 <= q < r.len() ==> (#[trigger] r@[q]).len() > 0,
{
    let ghost pv = placed_view(placed@);
    let mut r: Vec<Vec<String>> = Vec::new();
    let mut j: usize = 0;
    while j < placed.len()
        invariant
            pv == placed_view(placed@),
            forall|q: int| 0 <= q < placed.len() ==> (#[trigger] placed@[q]).1.len() > 0,
            j <= placed.len(),
            path_texts(r@) == paths_of_layer(pv.take(j as int), l as int),
            forall|q: int| 0 <= q < r.len() ==> (#[trigger] r@[q]).len() > 0,
        decreases placed.len() - j,
    {
        assert(pv.take(j + 1).drop_last() =~= pv.take(j as int));
        assert(pv.take(j + 1).last() == pv[j as int]);
        if placed[j].0 == l {
            let p = copy_strings(&placed[j].1);
            assert(p.len() == texts(p@).len() && texts(p@).len() == texts(placed@[j as int].1@).len());
            let ghost before = r@;
            r.push(p);
            proof {
                assert(path_texts(r@) =~= path_texts(before).push(texts(p@)));
                assert forall|q: int| 0 <= q < r.len() implies (#[trigger] r@[q]).len() > 0 by {
                    if q < before.len() {
                        assert(r@[q] == before[q]);
                    }
                }
            }
        }
        j = j + 1;
    }
    assert(pv.take(j as int) =~= pv);
    r
}

proof fn lemma_layered_err_persists(
    es: Seq<Entry>,
    graph: IncludeGraph,
    layers: Seq<Layer>,
    roots: Seq<usize>,
    k1: int,
    k2: int,
)
    requires
        0 <= k1 <= k2,
        layered_entries(es, graph, layers, roots, k1).error is Some,
    ensures
        layered_entries(es, graph, layers, roots, k2) == layered_entries(es, graph, layers, roots, k1),
    decreases k2 - k1,
{
    if k1 < k2 {
        lemma_layered_err_persists(es, graph, layers, roots, k1, k2 - 1);
    }
}

/// Converts the package into stacked crates, one per layer (`layers` bottom
/// up), keeping only the schemas kept when pruning to `roots`. Each file
/// goes to the layer owning its top-level directory; its imports resolve
/// within its layer as `use crate::...` and against a lower layer as
/// `use <crate_ident>::...`. A file whose directory no layer owns, an
/// include no layer owns, an include of a higher layer, and a layer that
/// receives no file are errors.
#[verifier::rlimit(40)]
pub fn convert_directory_layered(entries: &Vec<Entry>, graph: &IncludeGraph, layers: &[Layer], roots: &[usize]) -> (r: ConversionPlan)
    requires
        graph.wf(entries.len() as nat),
        forall|i: int| 0 <= i < roots@.len() ==> #[trigger] roots@[i] < graph.nodes.len(),
    ensures
        layered_plan_ok(r, entries@, *graph, layers@, roots@),
{
    let ghost g = graph_of(graph.nodes@);
    let keep = keep_set(&graph.nodes, roots);
    let mut files: Vec<OutputFile> = Vec::new();
    let mut placed: Vec<(usize, Vec<String>)> = Vec::new();
    let mut i: usize = 0;
    while i < entries.len()
        invariant
            graph.wf(entries.len() as nat),
            g == graph_of(graph.nodes@),
            keep.len() == graph.nodes.len(),
            forall|v: int| 0 <= v < graph.nodes.len() ==> (keep@[v] <==> kept(g, roots@, v)),
            i <= entries.len(),
            layered_entries(entries@, *graph, layers@, roots@, i as int).error is None,
            outs_view(files@) == layered_entries(entries@, *graph, layers@, roots@, i as int).files,
            placed_view(placed@) == layered_entries(entries@, *graph, layers@, roots@, i as int).placed,
            forall|q: int| 0 <= q < placed.len() ==> (#[trigger] placed@[q]).1.len() > 0,
        decreases entries.len() - i,
    {
        let node = graph.entry_nodes[i];
        assert(match node {
            Some(v) => v < graph.nodes.len(),
            None => true,
        });
        let keep_it = match node {
            Some(v) => keep[v],
            None => false,
        };
        assert(keep_it == entry_kept(g, Some(roots@), node));
        if keep_it {
            match layered_entry(entries, i, graph, layers) {
                Err(m) => {
                    proof {
                        lemma_layered_err_persists(entries@, *graph, layers@, roots@, i + 1, entries.len() as int);
                    }
                    return ConversionPlan { files, mod_trees: Vec::new(), error: Some(m) };
                },
                Ok((l, f)) => {
                    let ghost before_f = files@;
                    let ghost before_p = placed@;
                    let p = copy_strings(&f.rel);
                    assert(p.len() == texts(p@).len() && texts(p@).len() == texts(f.rel@).len());
                    placed.push((l, p));
                    files.push(f);
                    proof {
                        assert(outs_view(files@) =~= outs_view(before_f).push(out_view(f)));
                        assert(placed_view(placed@) =~= placed_view(before_p).push((l as int, texts(p@))));
                        assert forall|q: int| 0 <= q < placed.len() implies (#[trigger] placed@[q]).1.len() > 0 by {
                            if q < before_p.len() {
                                assert(placed@[q] == before_p[q]);
                            }
                        }
                    }
                },
            }
        }
        i = i + 1;
    }
    assert(entries@.len() == i);
    let ghost st = layered_entries(entries@, *graph, layers@, roots@, i as int);
    let mut mod_trees: Vec<Vec<OutputFile>> = Vec::new();
    let mut l: usize = 0;
    while l < layers.len()
        invariant
            st == layered_entries(entries@, *graph, layers@, roots@, entries.len() as int),
            st.error is None,
            outs_view(files@) == st.files,
            placed_view(placed@) == st.placed,
            forall|q: int| 0 <= q < placed.len() ==> (#[trigger] placed@[q]).1.len() > 0,
            l <= layers.len(),
            first_empty_layer(st.placed, layers.len() as int, 0) == first_empty_layer(st.placed, layers.len() as int, l as int),
            mod_trees.len() == l,
            forall|x: int|
                0 <= x < l ==> mod_files_ok(
                    outs_view(#[trigger] mod_trees@[x]@),
                    paths_of_layer(st.placed, x),
                    false,
                    x as nat,
                ),
        decreases layers.len() - l,
    {
        let ps = paths_for_layer(&placed, l);
        if ps.len() == 0 {
            assert(path_texts(ps@).len() == 0);
            assert(first_empty_layer(st.placed, layers.len() as int, l as int) == l);
            let m = empty_layer_msg_exec(layers[l].crate_ident.as_str());
            return ConversionPlan { files, mod_trees, error: Some(m) };
        }
        let mods = generate_mod_files(&ps, false, l);
        let ghost before = mod_trees@;
        mod_trees.push(mods);
        proof {
            assert forall|x: int| 0 <= x < l + 1 implies mod_files_ok(
                outs_view(#[trigger] mod_trees@[x]@),
                paths_of_layer(st.placed, x),
                false,
                x as nat,
            ) by {
                if x < l {
                    assert(mod_trees@[x] == before[x]);
                }
            }
        }
        l = l + 1;
    }
    ConversionPlan { files, mod_trees, error: None }
}

} // verus!
