//! The namespace scope stack.
//!
//! Each frame carries the default namespace URI in force at its level and
//! the prefix bindings introduced there. Frames are pushed when an element
//! is entered and popped, against the token the push returned, when it is
//! left; after any balanced pair of push and pop the stack equals its
//! pre-push state.

use vstd::prelude::*;
use crate::str_eq;

verus! {

/// One `prefix => URI` binding.
pub struct Binding {
    pub prefix: String,
    pub uri: String,
}

/// One level of the stack: the default namespace URI in force there and
/// the bindings introduced there, in insertion order.
pub struct Frame {
    pub default_ns: String,
    pub bindings: Vec<Binding>,
}

/// The stack itself; index 0 is the outermost frame.
pub struct ScopeStack {
    pub frames: Vec<Frame>,
}

/// First binding of `p` within one frame's bindings, in insertion order.
pub open spec fn bindings_lookup(bs: Seq<Binding>, p: Seq<char>) -> Option<Seq<char>>
    decreases bs.len(),
{
    if bs.len() == 0 {
        None
    } else if bs[0].prefix@ == p {
        Some(bs[0].uri@)
    } else {
        bindings_lookup(bs.drop_first(), p)
    }
}

/// Whether one frame introduces a binding of `p`.
pub open spec fn frame_binds(f: Frame, p: Seq<char>) -> bool {
    bindings_lookup(f.bindings@, p) is Some
}

/// The URI bound to `p`, resolved innermost frame first, so the nearest
/// enclosing declaration shadows outer ones.
pub open spec fn resolve_in_frames(frames: Seq<Frame>, p: Seq<char>) -> Option<Seq<char>>
    decreases frames.len(),
{
    if frames.len() == 0 {
        None
    } else {
        match bindings_lookup(frames.last().bindings@, p) {
            Some(u) => Some(u),
            None => resolve_in_frames(frames.drop_last(), p),
        }
    }
}

/// First binding carrying `uri` within one frame, in insertion order.
pub open spec fn bindings_prefix_for(bs: Seq<Binding>, uri: Seq<char>) -> Option<Seq<char>>
    decreases bs.len(),
{
    if bs.len() == 0 {
        None
    } else if bs[0].uri@ == uri {
        Some(bs[0].prefix@)
    } else {
        bindings_prefix_for(bs.drop_first(), uri)
    }
}

/// A prefix already declared for `uri`, resolved outermost frame first:
/// an inner element relies on the outer declaration instead of
/// redeclaring it.
pub open spec fn prefix_for_uri(frames: Seq<Frame>, uri: Seq<char>) -> Option<Seq<char>>
    decreases frames.len(),
{
    if frames.len() == 0 {
        None
    } else {
        match bindings_prefix_for(frames[0].bindings@, uri) {
            Some(p) => Some(p),
            None => prefix_for_uri(frames.drop_first(), uri),
        }
    }
}

/// The innermost frame's default URI; the empty URI outside any frame.
pub open spec fn effective_default_of(frames: Seq<Frame>) -> Seq<char> {
    if frames.len() == 0 {
        Seq::empty()
    } else {
        frames.last().default_ns@
    }
}

pub(crate) fn lookup_in_bindings(bs: &Vec<Binding>, p: &str) -> (r: Option<String>)
    ensures
        match bindings_lookup(bs@, p@) {
            Some(u) => r matches Some(s) && s@ == u,
            None => r is None,
        },
{
    let n = bs.len();
    let mut k: usize = 0;
    proof {
        assert(bs@.skip(0) =~= bs@);
    }
    while k < n
        invariant
            k <= n,
            n == bs@.len(),
            bindings_lookup(bs@, p@) == bindings_lookup(bs@.skip(k as int), p@),
        decreases n - k,
    {
        proof {
            assert(bs@.skip(k as int)[0] == bs@[k as int]);
            assert(bs@.skip(k as int).drop_first() =~= bs@.skip(k + 1 as int));
        }
        if str_eq(bs[k].prefix.as_str(), p) {
            return Some(bs[k].uri.clone());
        }
        k = k + 1;
    }
    proof {
        assert(bs@.skip(n as int) =~= Seq::<Binding>::empty());
    }
    None
}

fn prefix_in_bindings(bs: &Vec<Binding>, uri: &str) -> (r: Option<String>)
    ensures
        match bindings_prefix_for(bs@, uri@) {
            Some(p) => r matches Some(s) && s@ == p,
            None => r is None,
        },
{
    let n = bs.len();
    let mut k: usize = 0;
    proof {
        assert(bs@.skip(0) =~= bs@);
    }
    while k < n
        invariant
            k <= n,
            n == bs@.len(),
            bindings_prefix_for(bs@, uri@) == bindings_prefix_for(bs@.skip(k as int), uri@),
        decreases n - k,
    {
        proof {
            assert(bs@.skip(k as int)[0] == bs@[k as int]);
            assert(bs@.skip(k as int).drop_first() =~= bs@.skip(k + 1 as int));
        }
        if str_eq(bs[k].uri.as_str(), uri) {
            return Some(bs[k].prefix.clone());
        }
        k = k + 1;
    }
    proof {
        assert(bs@.skip(n as int) =~= Seq::<Binding>::empty());
    }
    None
}

impl ScopeStack {
    /// An empty stack: no frames, effective default URI `""`.
    pub fn new() -> (r: ScopeStack)
        ensures
            r.frames@.len() == 0,
    {
        ScopeStack { frames: Vec::new() }
    }

    /// Installs a new innermost frame and hands back the restore token
    /// that the matching `pop` must present.
    pub fn push(&mut self, frame: Frame) -> (tok: usize)
        ensures
            final(self).frames@ == old(self).frames@.push(frame),
            tok == old(self).frames@.len(),
    {
        let tok = self.frames.len();
        self.frames.push(frame);
        tok
    }

    /// Restores the state captured by `tok`, which must be the token of
    /// the matching `push` (LIFO discipline; a mismatched pop is a
    /// programmer error, not a data error).
    pub fn pop(&mut self, tok: usize)
        requires
            tok + 1 == old(self).frames@.len(),
        ensures
            final(self).frames@ == old(self).frames@.drop_last(),
    {
        let popped = self.frames.pop();
        proof {
            assert(final(self).frames@ =~= old(self).frames@.drop_last());
        }
    }

    /// The innermost frame's default namespace URI.
    pub fn effective_default(&self) -> (r: String)
        ensures
            r@ == effective_default_of(self.frames@),
    {
        let n = self.frames.len();
        if n == 0 {
            String::new()
        } else {
            self.frames[n - 1].default_ns.clone()
        }
    }

    /// The URI bound to `prefix`, from the nearest enclosing declaration;
    /// `None` when no frame in scope binds it.
    pub fn resolve_prefix_binding(&self, prefix: &str) -> (r: Option<String>)
        ensures
            match resolve_in_frames(self.frames@, prefix@) {
                Some(u) => r matches Some(s) && s@ == u,
                None => r is None,
            },
    {
        let n = self.frames.len();
        let mut j: usize = n;
        proof {
            assert(self.frames@.take(n as int) =~= self.frames@);
        }
        while j > 0
            invariant
                j <= n,
                n == self.frames@.len(),
                resolve_in_frames(self.frames@, prefix@) == resolve_in_frames(
                    self.frames@.take(j as int),
                    prefix@,
                ),
            decreases j,
        {
            proof {
                assert(self.frames@.take(j as int).last() == self.frames@[j - 1]);
                assert(self.frames@.take(j as int).drop_last() =~= self.frames@.take(j - 1));
            }
            match lookup_in_bindings(&self.frames[j - 1].bindings, prefix) {
                Some(u) => {
                    return Some(u);
                },
                None => {
                    j = j - 1;
                },
            }
        }
        None
    }

    /// A prefix under which `uri` is already declared, preferring the
    /// outermost declaration; `None` when no frame declares it.
    pub fn resolve_prefix_from_uri(&self, uri: &str) -> (r: Option<String>)
        ensures
            match prefix_for_uri(self.frames@, uri@) {
                Some(p) => r matches Some(s) && s@ == p,
                None => r is None,
            },
    {
        let n = self.frames.len();
        let mut j: usize = 0;
        proof {
            assert(self.frames@.skip(0) =~= self.frames@);
        }
        while j < n
            invariant
                j <= n,
                n == self.frames@.len(),
                prefix_for_uri(self.frames@, uri@) == prefix_for_uri(
                    self.frames@.skip(j as int),
                    uri@,
                ),
            decreases n - j,
        {
            proof {
                assert(self.frames@.skip(j as int)[0] == self.frames@[j as int]);
                assert(self.frames@.skip(j as int).drop_first() =~= self.frames@.skip(j + 1 as int));
            }
            match prefix_in_bindings(&self.frames[j].bindings, uri) {
                Some(p) => {
                    return Some(p);
                },
                None => {
                    j = j + 1;
                },
            }
        }
        proof {
            assert(self.frames@.skip(n as int) =~= Seq::<Frame>::empty());
        }
        None
    }
}

/// Law: a balanced push and pop leaves the stack bitwise equal to its
/// pre-push state.
pub proof fn lemma_push_pop_balanced(frames: Seq<Frame>, f: Frame)
    ensures
        frames.push(f).drop_last() == frames,
{
    assert(frames.push(f).drop_last() =~= frames);
}

/// Law: a prefix bound by the frame at depth `k` stays resolvable at
/// every depth of at least `k + 1`, for as long as that frame is on the
/// stack.
pub proof fn lemma_binding_visible(frames: Seq<Frame>, k: int, j: int, p: Seq<char>)
    requires
        0 <= k < frames.len(),
        frame_binds(frames[k], p),
        k < j <= frames.len(),
    ensures
        resolve_in_frames(frames.take(j), p) is Some,
    decreases j,
{
    let t = frames.take(j);
    assert(t.last() == frames[j - 1]);
    assert(t.drop_last() =~= frames.take(j - 1));
    if j - 1 == k {
        assert(bindings_lookup(frames[k].bindings@, p) is Some);
    } else {
        match bindings_lookup(frames[j - 1].bindings@, p) {
            Some(u) => {},
            None => {
                lemma_binding_visible(frames, k, j - 1, p);
            },
        }
    }
}

/// Law: once every frame that bound a prefix has been popped, the prefix
/// no longer resolves: at a depth below which no frame binds it, the
/// lookup yields nothing.
pub proof fn lemma_binding_hidden(frames: Seq<Frame>, j: int, p: Seq<char>)
    requires
        0 <= j <= frames.len(),
        forall|m: int| 0 <= m < j ==> !frame_binds(#[trigger] frames[m], p),
    ensures
        resolve_in_frames(frames.take(j), p) is None,
    decreases j,
{
    if j > 0 {
        let t = frames.take(j);
        assert(t.last() == frames[j - 1]);
        assert(t.drop_last() =~= frames.take(j - 1));
        assert(!frame_binds(frames[j - 1], p));
        lemma_binding_hidden(frames, j - 1, p);
    }
}

} // verus!
