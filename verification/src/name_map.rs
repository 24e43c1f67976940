//! A small map keyed by names, kept as a vector of distinct keys.
use vstd::prelude::*;

use crate::text::{owned, str_eq};
use crate::types::{attrs_view, copy_attrs, copy_members, members_view, AttributeDef, AttributeModel, MemberModel, SequenceMember};

verus! {

/// Map from names to values; each name occurs at most once.
pub struct NameMap<V> {
    entries: Vec<(String, V)>,
}

pub open spec fn keys_distinct<V>(s: Seq<(String, V)>) -> bool {
    forall|i: int, j: int| 0 <= i < j < s.len() ==> s[i].0@ != s[j].0@
}

pub open spec fn entries_map<V>(s: Seq<(String, V)>) -> Map<Seq<char>, V>
    decreases s.len(),
{
    if s.len() == 0 {
        Map::empty()
    } else {
        entries_map(s.drop_last()).insert(s.last().0@, s.last().1)
    }
}

proof fn lemma_entries_map<V>(s: Seq<(String, V)>)
    requires
        keys_distinct(s),
    ensures
        entries_map(s).dom().finite(),
        entries_map(s).dom().len() == s.len(),
        forall|i: int|
            0 <= i < s.len() ==> #[trigger] entries_map(s).contains_key(s[i].0@)
                && entries_map(s)[s[i].0@] == s[i].1,
        forall|k: Seq<char>|
            #[trigger] entries_map(s).contains_key(k) ==> exists|i: int|
                0 <= i < s.len() && s[i].0@ == k,
    decreases s.len(),
{
    if s.len() > 0 {
        let p = s.drop_last();
        assert(keys_distinct(p));
        lemma_entries_map(p);
        assert(!entries_map(p).contains_key(s.last().0@)) by {
            if entries_map(p).contains_key(s.last().0@) {
                let i = choose|i: int| 0 <= i < p.len() && p[i].0@ == s.last().0@;
                assert(s[i].0@ == s[s.len() - 1].0@);
            }
        }
        assert forall|i: int| 0 <= i < s.len() implies #[trigger] entries_map(s).contains_key(
            s[i].0@,
        ) && entries_map(s)[s[i].0@] == s[i].1 by {
            if i < s.len() - 1 {
                assert(s[i] == p[i]);
                assert(s[i].0@ != s[s.len() - 1].0@);
                assert(entries_map(p).contains_key(p[i].0@));
            }
        }
        assert forall|k: Seq<char>| #[trigger] entries_map(s).contains_key(k) implies exists|i: int|
            0 <= i < s.len() && s[i].0@ == k by {
            if k != s.last().0@ {
                assert(entries_map(p).contains_key(k));
                let i = choose|i: int| 0 <= i < p.len() && p[i].0@ == k;
                assert(s[i] == p[i]);
            } else {
                assert(s[s.len() - 1].0@ == k);
            }
        }
    }
}

impl<V> NameMap<V> {
    pub closed spec fn wf(&self) -> bool {
        keys_distinct(self.entries@)
    }

    pub closed spec fn view(&self) -> Map<Seq<char>, V> {
        entries_map(self.entries@)
    }

    pub fn new() -> (m: Self)
        ensures
            m.wf(),
            m.view() == Map::<Seq<char>, V>::empty(),
    {
        NameMap { entries: Vec::new() }
    }

    /// Number of names in the map.
    pub fn len(&self) -> (n: usize)
        requires
            self.wf(),
        ensures
            n == self.view().dom().len(),
    {
        proof {
            lemma_entries_map(self.entries@);
        }
        self.entries.len()
    }

    fn find(&self, k: &str) -> (r: Option<usize>)
        requires
            self.wf(),
        ensures
            r matches Some(i) ==> i < self.entries@.len() && self.entries@[i as int].0@ == k@,
            r is None ==> forall|i: int|
                0 <= i < self.entries@.len() ==> self.entries@[i].0@ != k@,
    {
        let mut i: usize = 0;
        while i < self.entries.len()
            invariant
                i <= self.entries@.len(),
                forall|j: int| 0 <= j < i ==> self.entries@[j].0@ != k@,
            decreases self.entries.len() - i,
        {
            if str_eq(self.entries[i].0.as_str(), k) {
                return Some(i);
            }
            i = i + 1;
        }
        None
    }

    pub fn contains(&self, k: &str) -> (r: bool)
        requires
            self.wf(),
        ensures
            r == self.view().contains_key(k@),
    {
        proof {
            lemma_entries_map(self.entries@);
        }
        match self.find(k) {
            Some(_) => true,
            None => {
                proof {
                    if self.view().contains_key(k@) {
                        let i = choose|i: int|
                            0 <= i < self.entries@.len() && self.entries@[i].0@ == k@;
                    }
                }
                false
            },
        }
    }

    pub fn get(&self, k: &str) -> (r: Option<&V>)
        requires
            self.wf(),
        ensures
            r is Some == self.view().contains_key(k@),
            r matches Some(v) ==> *v == self.view()[k@],
    {
        proof {
            lemma_entries_map(self.entries@);
        }
        match self.find(k) {
            Some(i) => {
                assert(entries_map(self.entries@).contains_key(self.entries@[i as int].0@));
                Some(&self.entries[i].1)
            },
            None => {
                proof {
                    if self.view().contains_key(k@) {
                        let i = choose|i: int|
                            0 <= i < self.entries@.len() && self.entries@[i].0@ == k@;
                    }
                }
                None
            },
        }
    }

    /// Sets the value of `k`, replacing any earlier one.
    pub fn insert(&mut self, k: String, v: V)
        requires
            old(self).wf(),
        ensures
            final(self).wf(),
            final(self).view() == old(self).view().insert(k@, v),
    {
        proof {
            lemma_entries_map(self.entries@);
        }
        match self.find(k.as_str()) {
            Some(i) => {
                let ghost kk = k@;
                let ghost vv = v;
                let ghost before = self.entries@;
                self.entries.set(i, (k, v));
                proof {
                    let after = self.entries@;
                    assert(keys_distinct(after)) by {
                        assert forall|a: int, b: int| 0 <= a < b < after.len() implies after[a].0@
                            != after[b].0@ by {
                            if a != i && b != i {
                                assert(after[a] == before[a] && after[b] == before[b]);
                            } else if a == i {
                                assert(after[b] == before[b]);
                            } else {
                                assert(after[a] == before[a]);
                            }
                        }
                    }
                    lemma_entries_map(after);
                    assert(entries_map(after) =~= entries_map(before).insert(kk, vv)) by {
                        assert forall|key: Seq<char>| entries_map(before).insert(
                            kk,
                            vv,
                        ).contains_key(key) implies #[trigger] entries_map(after).contains_key(
                            key,
                        ) by {
                            if key != kk {
                                let j = choose|j: int| 0 <= j < before.len() && before[j].0@ == key;
                                assert(after[j] == before[j]);
                            } else {
                                assert(after[i as int].0@ == kk);
                            }
                        }
                        assert forall|key: Seq<char>| #[trigger] entries_map(after).contains_key(
                            key,
                        ) implies entries_map(before).insert(kk, vv).contains_key(key)
                            && entries_map(after)[key] == entries_map(before).insert(
                            kk,
                            vv,
                        )[key] by {
                            let j = choose|j: int| 0 <= j < after.len() && after[j].0@ == key;
                            assert(entries_map(after).contains_key(after[j].0@));
                            assert(entries_map(after)[key] == after[j].1);
                            if j != i {
                                assert(after[j] == before[j]);
                                assert(before[i as int].0@ == kk);
                                if j < i {
                                    assert(before[j].0@ != before[i as int].0@);
                                } else {
                                    assert(before[i as int].0@ != before[j].0@);
                                }
                                assert(key != kk);
                                assert(entries_map(before).contains_key(before[j].0@));
                                assert(entries_map(before)[key] == before[j].1);
                            } else {
                                assert(key == kk);
                            }
                        }
                    }
                }
            },
            None => {
                let ghost before = self.entries@;
                self.entries.push((k, v));
                proof {
                    let after = self.entries@;
                    assert(after.drop_last() =~= before);
                    assert(keys_distinct(after)) by {
                        assert forall|a: int, b: int| 0 <= a < b < after.len() implies after[a].0@
                            != after[b].0@ by {
                            if b < after.len() - 1 {
                                assert(after[a] == before[a] && after[b] == before[b]);
                            } else {
                                assert(after[a] == before[a]);
                            }
                        }
                    }
                }
            },
        }
    }

    /// Sets the value of `k` only when `k` has none yet.
    pub fn insert_if_absent(&mut self, k: String, v: V)
        requires
            old(self).wf(),
        ensures
            final(self).wf(),
            final(self).view() == (if old(self).view().contains_key(k@) {
                old(self).view()
            } else {
                old(self).view().insert(k@, v)
            }),
    {
        if !self.contains(k.as_str()) {
            self.insert(k, v);
        }
    }
}

/// Two entry lists with the same keys in the same order give maps with the
/// same keys, whose values at each key are those at the key's position.
proof fn lemma_same_keys<V, W>(a: Seq<(String, V)>, b: Seq<(String, W)>)
    requires
        keys_distinct(a),
        a.len() == b.len(),
        forall|i: int| 0 <= i < a.len() ==> (#[trigger] a[i]).0@ == b[i].0@,
    ensures
        keys_distinct(b),
        entries_map(a).dom() == entries_map(b).dom(),
        forall|k: Seq<char>|
            #[trigger] entries_map(b).contains_key(k) ==> exists|i: int|
                0 <= i < a.len() && a[i].0@ == k && entries_map(a)[k] == a[i].1 && entries_map(b)[k]
                    == b[i].1,
{
    assert(keys_distinct(b)) by {
        assert forall|i: int, j: int| 0 <= i < j < b.len() implies b[i].0@ != b[j].0@ by {
            assert(a[i].0@ == b[i].0@ && a[j].0@ == b[j].0@);
        }
    }
    lemma_entries_map(a);
    lemma_entries_map(b);
    assert(entries_map(a).dom() =~= entries_map(b).dom()) by {
        assert forall|k: Seq<char>| entries_map(a).contains_key(k) implies entries_map(b).contains_key(k) by {
            let i = choose|i: int| 0 <= i < a.len() && a[i].0@ == k;
            assert(entries_map(b).contains_key(b[i].0@));
        }
        assert forall|k: Seq<char>| entries_map(b).contains_key(k) implies entries_map(a).contains_key(k) by {
            let i = choose|i: int| 0 <= i < b.len() && b[i].0@ == k;
            assert(entries_map(a).contains_key(a[i].0@));
        }
    }
    assert forall|k: Seq<char>| #[trigger] entries_map(b).contains_key(k) implies exists|i: int|
        0 <= i < a.len() && a[i].0@ == k && entries_map(a)[k] == a[i].1 && entries_map(b)[k] == b[i].1 by {
        let i = choose|i: int| 0 <= i < b.len() && b[i].0@ == k;
        assert(entries_map(a).contains_key(a[i].0@) && entries_map(a)[a[i].0@] == a[i].1);
        assert(entries_map(b)[b[i].0@] == b[i].1);
    }
}

impl NameMap<Vec<AttributeDef>> {
    /// A copy of the map, each attribute list copied.
    pub fn duplicate(&self) -> (r: Self)
        requires
            self.wf(),
        ensures
            r.wf(),
            r.view().map_values(|v: Vec<AttributeDef>| attrs_view(v@)) == self.view().map_values(
                |v: Vec<AttributeDef>| attrs_view(v@),
            ),
    {
        let mut entries: Vec<(String, Vec<AttributeDef>)> = Vec::new();
        let mut i: usize = 0;
        while i < self.entries.len()
            invariant
                i <= self.entries.len(),
                entries.len() == i,
                forall|j: int|
                    0 <= j < i ==> (#[trigger] self.entries@[j]).0@ == entries@[j].0@ && attrs_view(
                        self.entries@[j].1@,
                    ) == attrs_view(entries@[j].1@),
            decreases self.entries.len() - i,
        {
            let e = &self.entries[i];
            entries.push((owned(e.0.as_str()), copy_attrs(&e.1)));
            i = i + 1;
        }
        proof {
            lemma_same_keys(self.entries@, entries@);
        }
        let r = NameMap { entries };
        assert(r.view().map_values(|v: Vec<AttributeDef>| attrs_view(v@)) =~= self.view().map_values(
            |v: Vec<AttributeDef>| attrs_view(v@),
        ));
        r
    }
}

impl NameMap<Vec<SequenceMember>> {
    /// A copy of the map, each member list copied.
    pub fn duplicate(&self) -> (r: Self)
        requires
            self.wf(),
        ensures
            r.wf(),
            r.view().map_values(|v: Vec<SequenceMember>| members_view(v@)) == self.view().map_values(
                |v: Vec<SequenceMember>| members_view(v@),
            ),
    {
        let mut entries: Vec<(String, Vec<SequenceMember>)> = Vec::new();
        let mut i: usize = 0;
        while i < self.entries.len()
            invariant
                i <= self.entries.len(),
                entries.len() == i,
                forall|j: int|
                    0 <= j < i ==> (#[trigger] self.entries@[j]).0@ == entries@[j].0@ && members_view(
                        self.entries@[j].1@,
                    ) == members_view(entries@[j].1@),
            decreases self.entries.len() - i,
        {
            let e = &self.entries[i];
            entries.push((owned(e.0.as_str()), copy_members(&e.1)));
            i = i + 1;
        }
        proof {
            lemma_same_keys(self.entries@, entries@);
        }
        let r = NameMap { entries };
        assert(r.view().map_values(|v: Vec<SequenceMember>| members_view(v@)) =~= self.view().map_values(
            |v: Vec<SequenceMember>| members_view(v@),
        ));
        r
    }
}

} // verus!
