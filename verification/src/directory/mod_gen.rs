//! The module tree declaring a set of generated files: one `lib.rs` or
//! `mod.rs` per directory, listing its files and subdirectories.
use vstd::prelude::*;

use super::order::{insert_unique, lemma_text_lt_irreflexive, lemma_text_lt_total, strictly_sorted, text_lt};
use super::paths::{file_stem, stem_spec};
use super::{outs_view, OutputFile, OutputModel};
use vstd::string::StrSliceExecFns;
use crate::text::{owned, push_str, str_eq};
use crate::types::{copy_strings, texts, Text};

verus! {

/// `c` added to the children of directory `d`.
pub open spec fn add_child(m: Map<Seq<Text>, Set<Text>>, d: Seq<Text>, c: Text) -> Map<
    Seq<Text>,
    Set<Text>,
> {
    m.insert(
        d,
        if m.contains_key(d) {
            m[d].insert(c)
        } else {
            Set::empty().insert(c)
        },
    )
}

/// Each of the first `j` directories of `dirs` added as a child of the one
/// above it.
pub open spec fn add_ancestors(m: Map<Seq<Text>, Set<Text>>, dirs: Seq<Text>, j: nat) -> Map<
    Seq<Text>,
    Set<Text>,
>
    decreases j,
{
    if j == 0 || j > dirs.len() {
        m
    } else {
        let m1 = add_ancestors(m, dirs, (j - 1) as nat);
        if dirs[j - 1].len() == 0 {
            m1
        } else {
            add_child(m1, dirs.take(j - 1), dirs[j - 1])
        }
    }
}

/// The file at path `p` declared in its directory, and each directory on
/// the way declared in its parent.
pub open spec fn add_mod_path(m: Map<Seq<Text>, Set<Text>>, p: Seq<Text>) -> Map<
    Seq<Text>,
    Set<Text>,
> {
    let dirs = p.drop_last();
    add_ancestors(add_child(m, dirs, stem_spec(p.last())), dirs, dirs.len())
}

/// For each directory of the tree spanned by the files at `ps`, the modules
/// it declares.
pub open spec fn mod_children(ps: Seq<Seq<Text>>) -> Map<Seq<Text>, Set<Text>>
    decreases ps.len(),
{
    if ps.len() == 0 {
        Map::empty()
    } else {
        add_mod_path(mod_children(ps.drop_last()), ps.last())
    }
}

/// Each path's components as text.
pub open spec fn path_texts(paths: Seq<Vec<String>>) -> Seq<Seq<Text>> {
    paths.map_values(|p: Vec<String>| texts(p@))
}

/// The lines `pub mod c;` for each `c` in `cs`, in order.
pub open spec fn decl_lines(cs: Seq<Text>) -> Text
    decreases cs.len(),
{
    if cs.len() == 0 {
        Seq::empty()
    } else {
        decl_lines(cs.drop_last()) + "pub mod "@ + cs.last() + ";\n"@
    }
}

/// A module file declaring `cs`.
pub open spec fn mod_decls(cs: Seq<Text>) -> Text {
    "// Auto-generated module declarations.\n\n"@ + decl_lines(cs)
}

/// The strings of `s`, in increasing order.
pub open spec fn sorted_of(s: Set<Text>) -> Seq<Text> {
    choose|cs: Seq<Text>| strictly_sorted(cs) && cs.to_set() == s
}

/// A set has only one strictly increasing listing.
pub proof fn lemma_sorted_unique(a: Seq<Text>, b: Seq<Text>)
    requires
        strictly_sorted(a),
        strictly_sorted(b),
        a.to_set() == b.to_set(),
    ensures
        a == b,
    decreases a.len(),
{
    if a.len() == 0 {
        if b.len() > 0 {
            assert(b.to_set().contains(b[0]));
        }
        assert(a =~= b);
    } else {
        assert(a.to_set().contains(a[0]));
        assert(b.len() > 0);
        assert(b.to_set().contains(b[0]));
        let j = choose|j: int| 0 <= j < b.len() && b[j] == a[0];
        let i = choose|i: int| 0 <= i < a.len() && a[i] == b[0];
        if i > 0 && j > 0 {
            assert(text_lt(a[0], a[i]));
            assert(text_lt(b[0], b[j]));
            lemma_text_lt_total(a[0], b[0]);
        }
        if i > 0 && j == 0 {
            assert(text_lt(a[0], a[i]));
            lemma_text_lt_irreflexive(a[0]);
        }
        if j > 0 && i == 0 {
            assert(text_lt(b[0], b[j]));
            lemma_text_lt_irreflexive(b[0]);
        }
        assert(a[0] == b[0]);
        let (a1, b1) = (a.drop_first(), b.drop_first());
        assert(a1.to_set() =~= b1.to_set()) by {
            assert forall|e: Text| a1.to_set().contains(e) implies b1.to_set().contains(e) by {
                let k = choose|k: int| 0 <= k < a1.len() && a1[k] == e;
                assert(a[k + 1] == e && text_lt(a[0], e));
                lemma_text_lt_irreflexive(e);
                assert(b.to_set().contains(e));
                let m = choose|m: int| 0 <= m < b.len() && b[m] == e;
                assert(m != 0);
                assert(b1[m - 1] == e);
            }
            assert forall|e: Text| b1.to_set().contains(e) implies a1.to_set().contains(e) by {
                let k = choose|k: int| 0 <= k < b1.len() && b1[k] == e;
                assert(b[k + 1] == e && text_lt(b[0], e));
                lemma_text_lt_irreflexive(e);
                assert(a.to_set().contains(e));
                let m = choose|m: int| 0 <= m < a.len() && a[m] == e;
                assert(m != 0);
                assert(a1[m - 1] == e);
            }
        }
        lemma_sorted_unique(a1, b1);
        assert(a =~= seq![a[0]] + a1);
        assert(b =~= seq![b[0]] + b1);
    }
}

/// The directory table as built so far: distinct directories, each with a
/// strictly sorted list of children, standing for the map `m`.
spec fn table_ok(dirs: Seq<Vec<String>>, kids: Seq<Vec<String>>, m: Map<Seq<Text>, Set<Text>>) -> bool {
    &&& dirs.len() == kids.len()
    &&& forall|a: int, b: int| 0 <= a < b < dirs.len() ==> texts(dirs[a]@) != texts(dirs[b]@)
    &&& forall|a: int| 0 <= a < kids.len() ==> strictly_sorted(#[trigger] texts(kids[a]@))
    &&& forall|a: int|
        0 <= a < dirs.len() ==> m.contains_key(#[trigger] texts(dirs[a]@)) && m[texts(dirs[a]@)]
            == texts(kids[a]@).to_set()
    &&& forall|d: Seq<Text>| #[trigger]
        m.contains_key(d) ==> exists|a: int| 0 <= a < dirs.len() && texts(dirs[a]@) == d
}

/// Whether two component lists are equal.
fn comps_eq(a: &Vec<String>, b: &Vec<String>) -> (r: bool)
    ensures
        r == (texts(a@) == texts(b@)),
{
    if a.len() != b.len() {
        assert(texts(a@).len() != texts(b@).len());
        return false;
    }
    let mut i: usize = 0;
    while i < a.len()
        invariant
            a.len() == b.len(),
            i <= a.len(),
            forall|j: int| 0 <= j < i ==> a@[j]@ == b@[j]@,
        decreases a.len() - i,
    {
        if !str_eq(a[i].as_str(), b[i].as_str()) {
            assert(texts(a@)[i as int] != texts(b@)[i as int]);
            return false;
        }
        i = i + 1;
    }
    assert(texts(a@) =~= texts(b@));
    true
}

/// The first `j` components of `v`.
fn prefix(v: &Vec<String>, j: usize) -> (r: Vec<String>)
    requires
        j <= v.len(),
    ensures
        texts(r@) == texts(v@).take(j as int),
{
    let mut r: Vec<String> = Vec::new();
    let mut i: usize = 0;
    while i < j
        invariant
            j <= v.len(),
            i <= j,
            texts(r@) == texts(v@).take(i as int),
        decreases j - i,
    {
        let ghost before = r@;
        r.push(owned(v[i].as_str()));
        assert(texts(r@) =~= texts(before).push(v@[i as int]@));
        assert(texts(r@) =~= texts(v@).take(i + 1));
        i = i + 1;
    }
    r
}

/// Adds child `c` under directory `d` in the table.
fn add_to_table(
    dirs: &mut Vec<Vec<String>>,
    kids: &mut Vec<Vec<String>>,
    d: Vec<String>,
    c: String,
    Ghost(m): Ghost<Map<Seq<Text>, Set<Text>>>,
)
    requires
        table_ok(old(dirs)@, old(kids)@, m),
    ensures
        table_ok(final(dirs)@, final(kids)@, add_child(m, texts(d@), c@)),
{
    let ghost dv = texts(d@);
    let ghost m2 = add_child(m, dv, c@);
    let mut a: usize = 0;
    while a < dirs.len()
        invariant
            dv == texts(d@),
            m2 == add_child(m, dv, c@),
            table_ok(dirs@, kids@, m),
            a <= dirs.len(),
            forall|b: int| 0 <= b < a ==> texts(#[trigger] dirs@[b]@) != dv,
        decreases dirs.len() - a,
    {
        let same = comps_eq(&dirs[a], &d);
        if !same {
            assert(texts(dirs@[a as int]@) != dv);
        }
        if same {
            assert(texts(dirs@[a as int]@) == dv);
            assert(m.contains_key(dv));
            let mut k = copy_strings(&kids[a]);
            insert_unique(&mut k, c);
            let ghost old_kids = kids@;
            kids.set(a, k);
            proof {
                assert forall|b: int| 0 <= b < dirs.len() implies m2.contains_key(
                    #[trigger] texts(dirs@[b]@),
                ) && m2[texts(dirs@[b]@)] == texts(kids@[b]@).to_set() by {
                    if b != a {
                        assert(kids@[b] == old_kids[b]);
                        if b < a {
                            assert(texts(dirs@[b]@) != texts(dirs@[a as int]@));
                        } else {
                            assert(texts(dirs@[a as int]@) != texts(dirs@[b]@));
                        }
                    }
                }
                assert forall|b: int| 0 <= b < kids.len() implies strictly_sorted(
                    #[trigger] texts(kids@[b]@),
                ) by {
                    if b != a {
                        assert(kids@[b] == old_kids[b]);
                    }
                }
                assert forall|e: Seq<Text>| #[trigger] m2.contains_key(e) implies exists|b: int|
                    0 <= b < dirs.len() && texts(dirs@[b]@) == e by {
                    if e == dv {
                        assert(texts(dirs@[a as int]@) == e);
                    } else {
                        assert(m.contains_key(e));
                    }
                }
            }
            return;
        }
        a = a + 1;
    }
    let mut k: Vec<String> = Vec::new();
    k.push(c);
    let ghost old_dirs = dirs@;
    let ghost old_kids = kids@;
    dirs.push(d);
    kids.push(k);
    proof {
        assert(!m.contains_key(dv)) by {
            if m.contains_key(dv) {
                let b = choose|b: int| 0 <= b < old_dirs.len() && texts(old_dirs[b]@) == dv;
                assert(texts(dirs@[b]@) != dv);
            }
        }
        assert(texts(k@) =~= seq![c@]);
        assert(seq![c@].to_set() =~= Set::empty().insert(c@)) by {
            assert(seq![c@][0] == c@);
        }
        let n = dirs.len() - 1;
        assert forall|b: int| 0 <= b < dirs.len() implies m2.contains_key(
            #[trigger] texts(dirs@[b]@),
        ) && m2[texts(dirs@[b]@)] == texts(kids@[b]@).to_set() by {
            if b < n {
                assert(dirs@[b] == old_dirs[b] && kids@[b] == old_kids[b]);
            }
        }
        assert forall|b: int| 0 <= b < kids.len() implies strictly_sorted(
            #[trigger] texts(kids@[b]@),
        ) by {
            if b < n {
                assert(kids@[b] == old_kids[b]);
            }
        }
        assert forall|x: int, y: int| 0 <= x < y < dirs.len() implies texts(dirs@[x]@) != texts(
            dirs@[y]@,
        ) by {
            assert(dirs@[x] == old_dirs[x]);
            if y < n {
                assert(dirs@[y] == old_dirs[y]);
            }
        }
        assert forall|e: Seq<Text>| #[trigger] m2.contains_key(e) implies exists|b: int|
            0 <= b < dirs.len() && texts(dirs@[b]@) == e by {
            if e == dv {
                assert(texts(dirs@[n as int]@) == e);
            } else {
                let b = choose|b: int| 0 <= b < old_dirs.len() && texts(old_dirs[b]@) == e;
                assert(dirs@[b] == old_dirs[b]);
            }
        }
    }
}

/// The text of a module file declaring `cs`.
fn mod_file_text(cs: &Vec<String>) -> (r: String)
    ensures
        r@ == mod_decls(texts(cs@)),
{
    let ghost t = texts(cs@);
    let mut r = owned("// Auto-generated module declarations.\n\n");
    let ghost head = r@;
    let mut i: usize = 0;
    while i < cs.len()
        invariant
            t == texts(cs@),
            i <= cs.len(),
            r@ == head + decl_lines(t.take(i as int)),
        decreases cs.len() - i,
    {
        assert(t.take(i + 1).drop_last() =~= t.take(i as int));
        push_str(&mut r, "pub mod ");
        push_str(&mut r, cs[i].as_str());
        push_str(&mut r, ";\n");
        i = i + 1;
    }
    assert(t.take(i as int) =~= t);
    r
}

/// The name of the module file of directory `d`: `lib.rs` at the root of a
/// crate, `mod.rs` elsewhere (and at the root of a nested tree).
pub open spec fn mod_file_name(d: Seq<Text>, nested: bool) -> Text {
    if d.len() == 0 && !nested {
        "lib.rs"@
    } else {
        "mod.rs"@
    }
}

/// `f` is the module file of directory `d` in output `target`, declaring
/// `children`.
pub open spec fn is_mod_file(f: OutputModel, target: nat, d: Seq<Text>, children: Set<Text>, nested: bool) -> bool {
    &&& f.target == target
    &&& f.rel == d.push(mod_file_name(d, nested))
    &&& f.content == mod_decls(sorted_of(children))
}

/// `fs` is the module tree of the files at `ps`: exactly one module file
/// for each directory of the tree, declaring the stems of the files in it
/// and its subdirectories in increasing order.
pub open spec fn mod_files_ok(fs: Seq<OutputModel>, ps: Seq<Seq<Text>>, nested: bool, target: nat) -> bool {
    &&& forall|i: int|
        0 <= i < fs.len() ==> {
            let d = (#[trigger] fs[i]).rel.drop_last();
            &&& mod_children(ps).contains_key(d)
            &&& is_mod_file(fs[i], target, d, mod_children(ps)[d], nested)
        }
    &&& forall|i: int, j: int| 0 <= i < j < fs.len() ==> fs[i].rel.drop_last() != fs[j].rel.drop_last()
    &&& forall|d: Seq<Text>|
        #[trigger] mod_children(ps).contains_key(d) ==> exists|i: int| 0 <= i < fs.len() && fs[i].rel.drop_last() == d
}

/// One module file for each directory of the tree spanned by the files at
/// `paths` (each given by its components), declaring the stems of the
/// files in it and its subdirectories, in increasing order.
pub fn generate_mod_files(paths: &Vec<Vec<String>>, nested: bool, target: usize) -> (r: Vec<OutputFile>)
    requires
        forall|i: int| 0 <= i < paths.len() ==> (#[trigger] paths@[i]).len() > 0,
    ensures
        mod_files_ok(outs_view(r@), path_texts(paths@), nested, target as nat),
{
    let ghost ps = path_texts(paths@);
    let mut dirs: Vec<Vec<String>> = Vec::new();
    let mut kids: Vec<Vec<String>> = Vec::new();
    let mut i: usize = 0;
    while i < paths.len()
        invariant
            ps == path_texts(paths@),
            forall|q: int| 0 <= q < paths.len() ==> (#[trigger] paths@[q]).len() > 0,
            i <= paths.len(),
            table_ok(dirs@, kids@, mod_children(ps.take(i as int))),
        decreases paths.len() - i,
    {
        let p = &paths[i];
        let ghost pv = ps[i as int];
        assert(pv == texts(p@));
        let ghost m0 = mod_children(ps.take(i as int));
        assert(ps.take(i + 1).drop_last() =~= ps.take(i as int));
        assert(ps.take(i + 1).last() == pv);
        let nd = p.len() - 1;
        let d = prefix(p, nd);
        assert(texts(d@) =~= pv.drop_last());
        let stem = file_stem(p[nd].as_str());
        add_to_table(&mut dirs, &mut kids, d, stem, Ghost(m0));
        let ghost dv = pv.drop_last();
        let mut j: usize = 0;
        while j < nd
            invariant
                i < paths.len(),
                *p == paths@[i as int],
                pv == texts(p@),
                dv == pv.drop_last(),
                nd == p.len() - 1,
                j <= nd,
                table_ok(
                    dirs@,
                    kids@,
                    add_ancestors(add_child(m0, dv, stem_spec(pv.last())), dv, j as nat),
                ),
            decreases nd - j,
        {
            let ghost mj = add_ancestors(add_child(m0, dv, stem_spec(pv.last())), dv, j as nat);
            assert(dv[j as int] == p@[j as int]@);
            if p[j].as_str().unicode_len() != 0 {
                let up = prefix(p, j);
                assert(texts(up@) =~= dv.take(j as int));
                add_to_table(&mut dirs, &mut kids, up, p[j].clone(), Ghost(mj));
            } else {
                assert(dv[j as int].len() == 0);
            }
            j = j + 1;
        }
        i = i + 1;
    }
    assert(ps.take(i as int) =~= ps);
    let ghost m = mod_children(ps);
    let mut r: Vec<OutputFile> = Vec::new();
    let mut a: usize = 0;
    while a < dirs.len()
        invariant
            table_ok(dirs@, kids@, m),
            a <= dirs.len(),
            r.len() == a,
            forall|x: int|
                0 <= x < a ==> (#[trigger] outs_view(r@)[x]).rel.drop_last() == texts(dirs@[x]@)
                    && is_mod_file(outs_view(r@)[x], target as nat, texts(dirs@[x]@), m[texts(dirs@[x]@)], nested),
        decreases dirs.len() - a,
    {
        let mut rel = copy_strings(&dirs[a]);
        let ghost dv = texts(dirs@[a as int]@);
        let name = if dirs[a].len() == 0 && !nested {
            owned("lib.rs")
        } else {
            owned("mod.rs")
        };
        let ghost before = rel@;
        rel.push(name);
        assert(texts(rel@) =~= texts(before).push(name@));
        let content = mod_file_text(&kids[a]);
        proof {
            let cs = texts(kids@[a as int]@);
            assert(strictly_sorted(cs) && cs.to_set() == m[dv]);
            lemma_sorted_unique(cs, sorted_of(m[dv]));
            assert(texts(rel@).drop_last() =~= dv);
        }
        let ghost before_r = r@;
        r.push(OutputFile { target, rel, content });
        assert(outs_view(r@) =~= outs_view(before_r).push(outs_view(r@)[a as int]));
        a = a + 1;
    }
    let ghost fs = outs_view(r@);
    assert forall|d: Seq<Text>| #[trigger] m.contains_key(d) implies exists|i: int|
        0 <= i < fs.len() && fs[i].rel.drop_last() == d by {
        let b = choose|b: int| 0 <= b < dirs.len() && texts(dirs@[b]@) == d;
        assert(fs[b].rel.drop_last() == texts(dirs@[b]@));
    }
    assert forall|x: int, y: int| 0 <= x < y < fs.len() implies fs[x].rel.drop_last() != fs[y].rel.drop_last() by {
        assert(fs[x].rel.drop_last() == texts(dirs@[x]@));
        assert(fs[y].rel.drop_last() == texts(dirs@[y]@));
    }
    r
}

} // verus!
