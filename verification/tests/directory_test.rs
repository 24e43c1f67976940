use xsd_to_rs::directory::graph::{collect_transitive, keep_set, Node};
use xsd_to_rs::directory::mod_gen::generate_mod_files;
use xsd_to_rs::directory::order::{insert_unique, sort_strings, text_lt_exec};
use xsd_to_rs::directory::paths::{
    display, file_stem, join, out_rel, sanitize_ident, xsd_rel_to_mod_path,
};

fn strings(v: &[&str]) -> Vec<String> {
    v.iter().map(|s| s.to_string()).collect()
}

fn node(includes: &[usize]) -> Node {
    Node {
        rel: None,
        includes: includes.to_vec(),
    }
}

#[test]
fn sanitize_ident_lowercases_and_replaces() {
    assert_eq!(sanitize_ident("Common"), "common");
    assert_eq!(sanitize_ident("IRS-Payment.v2"), "irs_payment_v2");
    assert_eq!(sanitize_ident("2023 Forms"), "_2023_forms");
    assert_eq!(sanitize_ident("a_b9"), "a_b9");
    assert_eq!(sanitize_ident(""), "");
    // Lower-casing is Unicode-aware; what is not ASCII afterwards becomes `_`.
    assert_eq!(sanitize_ident("ÄBc"), "_bc");
}

#[test]
fn file_stem_follows_path_rules() {
    assert_eq!(file_stem("Return.xsd"), "Return");
    assert_eq!(file_stem("a.b.xsd"), "a.b");
    assert_eq!(file_stem("noext"), "noext");
    assert_eq!(file_stem(".hidden"), ".hidden");
    assert_eq!(file_stem("trailing."), "trailing");
    assert_eq!(file_stem(".."), "");
}

#[test]
fn module_paths_and_output_paths() {
    assert_eq!(
        xsd_rel_to_mod_path(&strings(&["Common", "IRS Types", "efileTypes.xsd"])),
        "common::irs_types::efiletypes"
    );
    assert_eq!(xsd_rel_to_mod_path(&strings(&["Return.xsd"])), "return");
    assert_eq!(xsd_rel_to_mod_path(&strings(&[])), "");
    assert_eq!(
        out_rel(&strings(&["Common", "2023", "base.types.xsd"])),
        strings(&["common", "_2023", "base_types.rs"])
    );
    assert_eq!(display(&strings(&["a", "b", "c.rs"])), "a/b/c.rs");
    assert_eq!(join(&strings(&["x"]), "::"), "x");
    assert_eq!(join(&strings(&[]), "::"), "");
}

#[test]
fn strings_order_by_code_point() {
    assert!(text_lt_exec("B", "a"));
    assert!(text_lt_exec("a", "ab"));
    assert!(!text_lt_exec("ab", "a"));
    assert!(!text_lt_exec("same", "same"));
    assert!(text_lt_exec("", "x"));
    let sorted = sort_strings(strings(&["use crate::b::*;", "use crate::a::*;", "use a::*;", "use crate::a::*;"]));
    assert_eq!(
        sorted,
        strings(&["use a::*;", "use crate::a::*;", "use crate::a::*;", "use crate::b::*;"])
    );
    let mut v = strings(&["b", "d"]);
    insert_unique(&mut v, "c".to_string());
    insert_unique(&mut v, "b".to_string());
    insert_unique(&mut v, "a".to_string());
    assert_eq!(v, strings(&["a", "b", "c", "d"]));
}

#[test]
fn transitive_includes_follow_chains_and_cycles() {
    // 0 -> 1 -> 2, 2 -> 1, 3 -> 0, 4 alone
    let nodes = vec![node(&[1]), node(&[2]), node(&[1]), node(&[0]), node(&[])];
    assert_eq!(collect_transitive(&nodes, 0), vec![false, true, true, false, false]);
    // 1 lies on the cycle 1 -> 2 -> 1, so it reaches itself.
    assert_eq!(collect_transitive(&nodes, 1), vec![false, true, true, false, false]);
    assert_eq!(collect_transitive(&nodes, 3), vec![true, true, true, false, false]);
    assert_eq!(collect_transitive(&nodes, 4), vec![false; 5]);
    // Pruning keeps the roots and all they reach, and is closed under includes.
    let keep = keep_set(&nodes, &[3, 4]);
    assert_eq!(keep, vec![true, true, true, true, true]);
    let keep = keep_set(&nodes, &[2]);
    assert_eq!(keep, vec![false, true, true, false, false]);
    for (u, n) in nodes.iter().enumerate() {
        if keep[u] {
            for &w in &n.includes {
                assert!(keep[w]);
            }
        }
    }
}

#[test]
fn module_tree_declares_files_and_directories() {
    let paths = vec![
        strings(&["a", "b", "c.rs"]),
        strings(&["a", "d.rs"]),
        strings(&["e.rs"]),
        strings(&["a", "b", "c.rs"]),
    ];
    let files = generate_mod_files(&paths, false, 7);
    assert_eq!(files.len(), 3);
    let get = |p: &str| {
        files
            .iter()
            .find(|f| f.rel.join("/") == p)
            .map(|f| (f.target, f.content.clone()))
            .unwrap()
    };
    assert_eq!(
        get("lib.rs"),
        (7, "// Auto-generated module declarations.\n\npub mod a;\npub mod e;\n".to_string())
    );
    assert_eq!(
        get("a/mod.rs"),
        (7, "// Auto-generated module declarations.\n\npub mod b;\npub mod d;\n".to_string())
    );
    assert_eq!(
        get("a/b/mod.rs"),
        (7, "// Auto-generated module declarations.\n\npub mod c;\n".to_string())
    );
    let nested = generate_mod_files(&vec![strings(&["x.rs"])], true, 0);
    assert_eq!(nested.len(), 1);
    assert_eq!(nested[0].rel, strings(&["mod.rs"]));
    assert!(generate_mod_files(&Vec::new(), false, 0).is_empty());
}
