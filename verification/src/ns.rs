//! The namespace scope stack: one frame of prefix-to-URI bindings per open
//! element, searched innermost-to-outermost.

use vstd::prelude::*;
use crate::stdx::str_eq;

verus! {

/// The outcome of resolving a prefix against the scope stack.
#[derive(Debug, Clone, PartialEq, Eq)]
pub enum Resolution {
    /// The innermost binding of the prefix is this non-empty URI.
    Namespace(String),
    /// The innermost binding of the prefix is the empty URI: the prefix is
    /// explicitly unbound and resolves to no namespace.
    NoNamespace,
    /// No frame binds the prefix at all.
    Missing,
}

/// A stack of namespace frames; each frame maps prefixes to URIs, with the
/// binding added last taking precedence inside its frame.
pub struct NsStack {
    frames: Vec<Vec<(String, String)>>,
}

/// One frame as a sequence of prefix/URI pairs of characters.
spec fn frame_view(f: Seq<(String, String)>) -> Seq<(Seq<char>, Seq<char>)> {
    f.map_values(|e: (String, String)| (e.0@, e.1@))
}

impl View for NsStack {
    type V = Seq<Seq<(Seq<char>, Seq<char>)>>;

    closed spec fn view(&self) -> Seq<Seq<(Seq<char>, Seq<char>)>> {
        self.frames@.map_values(|f: Vec<(String, String)>| frame_view(f@))
    }
}

/// The binding of `p` within one frame: the entry added last wins.
pub open spec fn frame_lookup(f: Seq<(Seq<char>, Seq<char>)>, p: Seq<char>) -> Option<Seq<char>>
    decreases f.len(),
{
    if f.len() == 0 {
        None
    } else if f.last().0 == p {
        Some(f.last().1)
    } else {
        frame_lookup(f.drop_last(), p)
    }
}

/// The binding of `p` against the whole stack: innermost frame first.
pub open spec fn stack_lookup(fs: Seq<Seq<(Seq<char>, Seq<char>)>>, p: Seq<char>) -> Option<
    Seq<char>,
>
    decreases fs.len(),
{
    if fs.len() == 0 {
        None
    } else {
        match frame_lookup(fs.last(), p) {
            Some(u) => Some(u),
            None => stack_lookup(fs.drop_last(), p),
        }
    }
}

impl NsStack {
    /// An empty stack, with no frames.
    pub fn new() -> (r: NsStack)
        ensures
            r@ =~= Seq::<Seq<(Seq<char>, Seq<char>)>>::empty(),
    {
        let r = NsStack { frames: Vec::new() };
        proof {
            assert(r@.len() == 0);
        }
        r
    }

    /// Opens a new, empty innermost frame.
    pub fn push_frame(&mut self)
        ensures
            final(self)@ =~= old(self)@.push(Seq::<(Seq<char>, Seq<char>)>::empty()),
    {
        self.frames.push(Vec::new());
        proof {
            assert(frame_view(Seq::<(String, String)>::empty()) =~= Seq::<(
                Seq<char>,
                Seq<char>,
            )>::empty());
        }
    }

    /// Discards the innermost frame; on an empty stack, does nothing.
    pub fn pop_frame(&mut self)
        ensures
            old(self)@.len() > 0 ==> final(self)@ =~= old(self)@.drop_last(),
            old(self)@.len() == 0 ==> final(self)@ =~= old(self)@,
    {
        let _ = self.frames.pop();
    }

    /// The number of open frames.
    pub fn depth(&self) -> (r: usize)
        ensures
            r == self@.len(),
    {
        self.frames.len()
    }

    /// Adds a binding to the innermost frame; an empty `uri` records an
    /// explicit unbinding.
    pub fn bind(&mut self, prefix: String, uri: String)
        requires
            old(self)@.len() > 0,
        ensures
            final(self)@ =~= old(self)@.update(
                old(self)@.len() - 1,
                old(self)@.last().push((prefix@, uri@)),
            ),
    {
        let ghost pv = prefix@;
        let ghost uv = uri@;
        let n = self.frames.len();
        let mut last = self.frames.remove(n - 1);
        last.push((prefix, uri));
        proof {
            assert(frame_view(last@) =~= frame_view(old(self).frames@[n - 1]@).push((pv, uv)));
        }
        self.frames.push(last);
        proof {
            assert(self@ =~= old(self)@.update(
                old(self)@.len() - 1,
                old(self)@.last().push((pv, uv)),
            ));
        }
    }

    /// Resolves a prefix innermost-to-outermost, distinguishing an explicit
    /// unbinding (empty URI) from a prefix no frame mentions.
    pub fn resolve(&self, prefix: &str) -> (r: Resolution)
        ensures
            match stack_lookup(self@, prefix@) {
                None => r is Missing,
                Some(u) => if u.len() == 0 {
                    r is NoNamespace
                } else {
                    r matches Resolution::Namespace(s) && s@ == u
                },
            },
    {
        let mut i = self.frames.len();
        proof {
            assert(self@.len() == self.frames@.len());
            assert(self@.take(self@.len() as int) =~= self@);
        }
        while i > 0
            invariant
                i <= self@.len(),
                stack_lookup(self@, prefix@) == stack_lookup(self@.take(i as int), prefix@),
            decreases i,
        {
            proof {
                assert(self@.len() == self.frames@.len());
            }
            let f = &self.frames[i - 1];
            let mut j = f.len();
            proof {
                assert(self@[i - 1] == frame_view(f@));
                assert(frame_view(f@).take(j as int) =~= frame_view(f@));
            }
            while j > 0
                invariant
                    j <= f@.len(),
                    1 <= i <= self@.len(),
                    self@[i - 1] == frame_view(f@),
                    stack_lookup(self@, prefix@) == stack_lookup(self@.take(i as int), prefix@),
                    frame_lookup(self@[i - 1], prefix@) == frame_lookup(
                        frame_view(f@).take(j as int),
                        prefix@,
                    ),
                decreases j,
            {
                proof {
                    assert(frame_view(f@).take(j as int).last() == (f@[j - 1].0@, f@[j - 1].1@));
                    assert(frame_view(f@).take(j as int).drop_last() =~= frame_view(f@).take(
                        j - 1,
                    ));
                }
                if str_eq(f[j - 1].0.as_str(), prefix) {
                    let uri = &f[j - 1].1;
                    proof {
                        assert(frame_lookup(self@[i - 1], prefix@) == Some(uri@));
                        assert(self@.take(i as int).last() == self@[i - 1]);
                        assert(stack_lookup(self@.take(i as int), prefix@) == Some(uri@));
                    }
                    if uri.as_str().is_empty() {
                        return Resolution::NoNamespace;
                    }
                    return Resolution::Namespace(uri.clone());
                }
                j = j - 1;
            }
            proof {
                assert(frame_view(f@).take(0) =~= Seq::<(Seq<char>, Seq<char>)>::empty());
                assert(frame_lookup(self@[i - 1], prefix@) is None);
                assert(self@.take(i as int).last() == self@[i - 1]);
                assert(self@.take(i as int).drop_last() =~= self@.take(i - 1));
            }
            i = i - 1;
        }
        proof {
            assert(self@.take(0) =~= Seq::<Seq<(Seq<char>, Seq<char>)>>::empty());
        }
        Resolution::Missing
    }
}

} // verus!
