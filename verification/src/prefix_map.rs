//! Namespace-prefix declarations: a mapping from namespace URI to the
//! prefix declared for it, used when rendering a tree back to text.

use vstd::prelude::*;
use crate::stdx::str_eq;

verus! {

/// A mapping from namespace URI to declared prefix; a URI bound twice keeps
/// the binding added last.
#[derive(Debug, PartialEq, Eq)]
pub struct PrefixMap {
    entries: Vec<(String, String)>,
}

spec fn entries_map(s: Seq<(String, String)>) -> Map<Seq<char>, Seq<char>>
    decreases s.len(),
{
    if s.len() == 0 {
        Map::empty()
    } else {
        entries_map(s.drop_last()).insert(s.last().0@, s.last().1@)
    }
}

impl View for PrefixMap {
    type V = Map<Seq<char>, Seq<char>>;

    closed spec fn view(&self) -> Map<Seq<char>, Seq<char>> {
        entries_map(self.entries@)
    }
}

impl Clone for PrefixMap {
    /// Clones the mapping; the copy holds the same bindings.
    fn clone(&self) -> (r: PrefixMap)
        ensures
            r@ == self@,
    {
        let mut entries: Vec<(String, String)> = Vec::new();
        let mut i: usize = 0;
        while i < self.entries.len()
            invariant
                i <= self.entries@.len(),
                entries@.len() == i,
                forall|t: int| 0 <= t < i ==> entries@[t] == self.entries@[t],
            decreases self.entries@.len() - i,
        {
            let e = &self.entries[i];
            entries.push((e.0.clone(), e.1.clone()));
            i = i + 1;
        }
        let r = PrefixMap { entries };
        proof {
            assert(r.entries@ =~= self.entries@);
        }
        r
    }
}

impl PrefixMap {
    /// An empty mapping.
    pub fn new() -> (r: PrefixMap)
        ensures
            r@ =~= Map::<Seq<char>, Seq<char>>::empty(),
    {
        let r = PrefixMap { entries: Vec::new() };
        proof {
            assert(r.entries@.len() == 0);
        }
        r
    }

    /// Binds a URI to a prefix, shadowing any earlier binding of that URI.
    pub fn insert(&mut self, uri: String, prefix: String)
        ensures
            final(self)@ =~= old(self)@.insert(uri@, prefix@),
    {
        self.entries.push((uri, prefix));
        proof {
            assert(self.entries@.drop_last() =~= old(self).entries@);
            assert(self.entries@.last() == (uri, prefix));
        }
    }

    /// Looks up the prefix declared for a URI.
    pub fn get(&self, uri: &str) -> (r: Option<&String>)
        ensures
            self@.contains_key(uri@) ==> (r matches Some(s) && s@ == self@[uri@]),
            !self@.contains_key(uri@) ==> r is None,
    {
        let mut j = self.entries.len();
        proof {
            assert(self.entries@.take(j as int) =~= self.entries@);
        }
        while j > 0
            invariant
                j <= self.entries@.len(),
                self@ == entries_map(self.entries@),
                (self@.contains_key(uri@) <==> entries_map(self.entries@.take(j as int)).contains_key(
                    uri@,
                )),
                self@.contains_key(uri@) ==> self@[uri@] == entries_map(
                    self.entries@.take(j as int),
                )[uri@],
            decreases j,
        {
            proof {
                assert(self.entries@.take(j as int).last() == self.entries@[j - 1]);
                assert(self.entries@.take(j as int).drop_last() =~= self.entries@.take(j - 1));
            }
            let e = &self.entries[j - 1];
            if str_eq(e.0.as_str(), uri) {
                return Some(&e.1);
            }
            j = j - 1;
        }
        proof {
            assert(self.entries@.take(0) =~= Seq::<(String, String)>::empty());
        }
        None
    }

    /// A new mapping holding both operands' bindings, those of `other`
    /// shadowing those of `self`.
    pub fn merged(&self, other: &PrefixMap) -> (r: PrefixMap)
        ensures
            r@ =~= self@.union_prefer_right(other@),
    {
        let mut entries: Vec<(String, String)> = Vec::new();
        proof {
            assert(self.entries@.take(0) =~= Seq::<(String, String)>::empty());
        }
        let mut i: usize = 0;
        while i < self.entries.len()
            invariant
                i <= self.entries@.len(),
                entries_map(entries@) =~= entries_map(self.entries@.take(i as int)),
            decreases self.entries@.len() - i,
        {
            let ghost acc0 = entries@;
            let e = &self.entries[i];
            entries.push((e.0.clone(), e.1.clone()));
            proof {
                assert(entries@.drop_last() =~= acc0);
                assert(self.entries@.take(i + 1).drop_last() =~= self.entries@.take(i as int));
                assert(self.entries@.take(i + 1).last() == self.entries@[i as int]);
                assert(entries_map(entries@) =~= entries_map(self.entries@.take(i + 1)));
            }
            i = i + 1;
        }
        proof {
            assert(self.entries@.take(self.entries@.len() as int) =~= self.entries@);
            assert(entries_map(entries@) =~= self@.union_prefer_right(
                Map::<Seq<char>, Seq<char>>::empty(),
            ));
            assert(other.entries@.take(0) =~= Seq::<(String, String)>::empty());
        }
        let mut j: usize = 0;
        while j < other.entries.len()
            invariant
                j <= other.entries@.len(),
                entries_map(entries@) =~= self@.union_prefer_right(
                    entries_map(other.entries@.take(j as int)),
                ),
            decreases other.entries@.len() - j,
        {
            let ghost acc0 = entries@;
            let e = &other.entries[j];
            entries.push((e.0.clone(), e.1.clone()));
            proof {
                assert(entries@.drop_last() =~= acc0);
                assert(other.entries@.take(j + 1).drop_last() =~= other.entries@.take(j as int));
                assert(other.entries@.take(j + 1).last() == other.entries@[j as int]);
                assert(entries_map(entries@) =~= self@.union_prefer_right(
                    entries_map(other.entries@.take(j + 1)),
                ));
            }
            j = j + 1;
        }
        proof {
            assert(other.entries@.take(other.entries@.len() as int) =~= other.entries@);
        }
        PrefixMap { entries }
    }
}

} // verus!
