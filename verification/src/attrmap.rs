//! Attribute storage: a mapping from (local name, namespace URI option) to
//! value that keeps insertion order and holds each key at most once.

use vstd::prelude::*;
use crate::stdx::str_eq;

verus! {

/// The view of an optional owned string.
pub open spec fn opt_view(o: Option<String>) -> Option<Seq<char>> {
    match o {
        Some(s) => Some(s@),
        None => None,
    }
}

/// The view of an optional string slice.
pub open spec fn opt_ref_view(o: Option<&str>) -> Option<Seq<char>> {
    match o {
        Some(s) => Some(s@),
        None => None,
    }
}

/// Compares an owned optional string against a borrowed one by contents.
pub fn opt_str_matches(a: &Option<String>, b: Option<&str>) -> (r: bool)
    ensures
        r == (opt_view(*a) == opt_ref_view(b)),
{
    match (a, b) {
        (Some(x), Some(y)) => str_eq(x.as_str(), y),
        (None, None) => true,
        _ => false,
    }
}

/// An insertion-ordered attribute map with unique keys.
#[derive(Debug, PartialEq, Eq)]
pub struct AttrMap {
    entries: Vec<((String, Option<String>), String)>,
}

impl View for AttrMap {
    type V = Seq<((Seq<char>, Option<Seq<char>>), Seq<char>)>;

    closed spec fn view(&self) -> Seq<((Seq<char>, Option<Seq<char>>), Seq<char>)> {
        self.entries@.map_values(
            |e: ((String, Option<String>), String)| ((e.0.0@, opt_view(e.0.1)), e.1@),
        )
    }
}

/// The position of the first entry with key `k`, or `-1` when there is none.
pub open spec fn spec_index_of(
    m: Seq<((Seq<char>, Option<Seq<char>>), Seq<char>)>,
    k: (Seq<char>, Option<Seq<char>>),
) -> int
    decreases m.len(),
{
    if m.len() == 0 {
        -1
    } else if m[0].0 == k {
        0
    } else {
        let r = spec_index_of(m.skip(1), k);
        if r < 0 {
            -1
        } else {
            r + 1
        }
    }
}

/// The value of the first entry with key `k`, if any.
pub open spec fn spec_get(
    m: Seq<((Seq<char>, Option<Seq<char>>), Seq<char>)>,
    k: (Seq<char>, Option<Seq<char>>),
) -> Option<Seq<char>>
    decreases m.len(),
{
    if m.len() == 0 {
        None
    } else if m[0].0 == k {
        Some(m[0].1)
    } else {
        spec_get(m.skip(1), k)
    }
}

/// A key `spec_get` does not find is held by no entry.
pub proof fn lemma_spec_get_none(
    m: Seq<((Seq<char>, Option<Seq<char>>), Seq<char>)>,
    k: (Seq<char>, Option<Seq<char>>),
)
    requires
        spec_get(m, k) is None,
    ensures
        forall|i: int| 0 <= i < m.len() ==> (#[trigger] m[i]).0 != k,
    decreases m.len(),
{
    if m.len() > 0 && m[0].0 != k {
        lemma_spec_get_none(m.skip(1), k);
        assert(forall|i: int| 1 <= i < m.len() ==> m[i] == m.skip(1)[i - 1]);
    }
}

/// An occurrence at `j`, with the key nowhere earlier, pins `spec_index_of`.
pub proof fn lemma_index_of_at(
    m: Seq<((Seq<char>, Option<Seq<char>>), Seq<char>)>,
    k: (Seq<char>, Option<Seq<char>>),
    j: int,
)
    requires
        0 <= j < m.len(),
        m[j].0 == k,
        forall|i: int| 0 <= i < j ==> (#[trigger] m[i]).0 != k,
    ensures
        spec_index_of(m, k) == j,
        spec_get(m, k) == Some(m[j].1),
    decreases m.len(),
{
    if j == 0 {
    } else {
        assert(m.skip(1)[j - 1] == m[j]);
        assert(forall|i: int| 0 <= i < j - 1 ==> m.skip(1)[i] == m[i + 1]);
        lemma_index_of_at(m.skip(1), k, j - 1);
    }
}

/// A key that no entry holds gives `-1`.
pub proof fn lemma_index_of_none(
    m: Seq<((Seq<char>, Option<Seq<char>>), Seq<char>)>,
    k: (Seq<char>, Option<Seq<char>>),
)
    requires
        forall|i: int| 0 <= i < m.len() ==> (#[trigger] m[i]).0 != k,
    ensures
        spec_index_of(m, k) == -1,
        spec_get(m, k) is None,
    decreases m.len(),
{
    if m.len() > 0 {
        assert(forall|i: int| 0 <= i < m.skip(1).len() ==> m.skip(1)[i] == m[i + 1]);
        lemma_index_of_none(m.skip(1), k);
    }
}

impl Clone for AttrMap {
    /// Clones the map; the copy holds the same entries.
    fn clone(&self) -> (r: AttrMap)
        ensures
            r@ == self@,
    {
        let mut entries: Vec<((String, Option<String>), String)> = Vec::new();
        let mut i: usize = 0;
        while i < self.entries.len()
            invariant
                i <= self.entries@.len(),
                entries@.len() == i,
                forall|t: int| 0 <= t < i ==> entries@[t] == self.entries@[t],
            decreases self.entries@.len() - i,
        {
            let e = &self.entries[i];
            entries.push(((e.0.0.clone(), crate::stdx::clone_opt_string(&e.0.1)), e.1.clone()));
            i = i + 1;
        }
        let r = AttrMap { entries };
        proof {
            assert(r.entries@ =~= self.entries@);
        }
        r
    }
}

impl AttrMap {
    /// Keys are unique: no two entries share one.
    pub open spec fn wf(&self) -> bool {
        forall|i: int, j: int|
            0 <= i < j < self@.len() ==> (#[trigger] self@[i]).0 != (#[trigger] self@[j]).0
    }

    /// An empty attribute map.
    pub fn new() -> (r: AttrMap)
        ensures
            r@ =~= Seq::<((Seq<char>, Option<Seq<char>>), Seq<char>)>::empty(),
            r.wf(),
    {
        let r = AttrMap { entries: Vec::new() };
        proof {
            assert(r@.len() == 0);
        }
        r
    }

    /// The number of attributes held.
    pub fn len(&self) -> (r: usize)
        ensures
            r == self@.len(),
    {
        self.entries.len()
    }

    /// The entry at a position, in insertion order.
    pub fn entry_at(&self, i: usize) -> (r: &((String, Option<String>), String))
        requires
            i < self@.len(),
        ensures
            r.0.0@ == self@[i as int].0.0,
            opt_view(r.0.1) == self@[i as int].0.1,
            r.1@ == self@[i as int].1,
    {
        &self.entries[i]
    }

    /// Looks an attribute up by name and namespace.
    pub fn get(&self, name: &str, ns: Option<&str>) -> (r: Option<&String>)
        ensures
            match spec_get(self@, (name@, opt_ref_view(ns))) {
                Some(v) => r matches Some(s) && s@ == v,
                None => r is None,
            },
    {
        let ghost kk = (name@, opt_ref_view(ns));
        let mut i: usize = 0;
        while i < self.entries.len()
            invariant
                i <= self@.len(),
                self@.len() == self.entries@.len(),
                kk == (name@, opt_ref_view(ns)),
                forall|t: int| 0 <= t < i ==> (#[trigger] self@[t]).0 != kk,
            decreases self@.len() - i,
        {
            let e = &self.entries[i];
            if str_eq(e.0.0.as_str(), name) && opt_str_matches(&e.0.1, ns) {
                proof {
                    lemma_index_of_at(self@, kk, i as int);
                }
                return Some(&e.1);
            }
            i = i + 1;
        }
        proof {
            lemma_index_of_none(self@, kk);
        }
        None
    }

    /// Inserts an attribute; a present key keeps its position, and its old
    /// value is handed back.
    pub fn insert(&mut self, k: (String, Option<String>), v: String) -> (r: Option<String>)
        requires
            old(self).wf(),
        ensures
            final(self).wf(),
            ({
                let kk = (k.0@, opt_view(k.1));
                match spec_get(old(self)@, kk) {
                    Some(oldv) => r matches Some(s) && s@ == oldv && final(self)@ == old(
                        self,
                    )@.update(spec_index_of(old(self)@, kk), (kk, v@)),
                    None => r is None && final(self)@ == old(self)@.push((kk, v@)),
                }
            }),
    {
        let ghost kk = (k.0@, opt_view(k.1));
        let ghost pre = self@;
        let mut i: usize = 0;
        while i < self.entries.len()
            invariant
                i <= self@.len(),
                self@.len() == self.entries@.len(),
                self@ == pre,
                pre == old(self)@,
                old(self).wf(),
                kk == (k.0@, opt_view(k.1)),
                forall|t: int| 0 <= t < i ==> (#[trigger] self@[t]).0 != kk,
            decreases self@.len() - i,
        {
            let e = &self.entries[i];
            let ns_ref = match &k.1 {
                Some(s) => Some(s.as_str()),
                None => None,
            };
            if str_eq(e.0.0.as_str(), k.0.as_str()) && opt_str_matches(&e.0.1, ns_ref) {
                proof {
                    lemma_index_of_at(self@, kk, i as int);
                }
                let olde = self.entries.remove(i);
                self.entries.insert(i, (k, v));
                proof {
                    assert(self@ =~= pre.update(i as int, (kk, v@)));
                    assert(forall|a: int|
                        0 <= a < self@.len() ==> (#[trigger] self@[a]).0 == pre[a].0);
                }
                return Some(olde.1);
            }
            i = i + 1;
        }
        proof {
            lemma_index_of_none(self@, kk);
        }
        self.entries.push((k, v));
        proof {
            assert(self@ =~= pre.push((kk, v@)));
        }
        None
    }

    /// Removes an attribute by name and namespace, handing back its value.
    pub fn remove(&mut self, name: &str, ns: Option<&str>) -> (r: Option<String>)
        requires
            old(self).wf(),
        ensures
            final(self).wf(),
            ({
                let kk = (name@, opt_ref_view(ns));
                match spec_get(old(self)@, kk) {
                    Some(v) => r matches Some(s) && s@ == v && final(self)@ == old(self)@.remove(
                        spec_index_of(old(self)@, kk),
                    ),
                    None => r is None && final(self)@ == old(self)@,
                }
            }),
    {
        let ghost kk = (name@, opt_ref_view(ns));
        let ghost pre = self@;
        let mut i: usize = 0;
        while i < self.entries.len()
            invariant
                i <= self@.len(),
                self@.len() == self.entries@.len(),
                kk == (name@, opt_ref_view(ns)),
                self@ == pre,
                pre == old(self)@,
                old(self).wf(),
                forall|t: int| 0 <= t < i ==> (#[trigger] self@[t]).0 != kk,
            decreases self@.len() - i,
        {
            let e = &self.entries[i];
            if str_eq(e.0.0.as_str(), name) && opt_str_matches(&e.0.1, ns) {
                proof {
                    lemma_index_of_at(self@, kk, i as int);
                }
                let olde = self.entries.remove(i);
                proof {
                    assert(self@ =~= pre.remove(i as int));
                    assert(forall|a: int|
                        0 <= a < self@.len() ==> self@[a] == (if a < i {
                            pre[a]
                        } else {
                            pre[a + 1]
                        }));
                }
                return Some(olde.1);
            }
            i = i + 1;
        }
        proof {
            lemma_index_of_none(self@, kk);
        }
        None
    }
}

} // verus!
