//! Push-down storage: a single stack over a distinguished bottom marker, and
//! the instructions that rewrite its top.
use vstd::prelude::*;

verus! {

/// A stack of symbols, listed from bottom to top, together with the marker
/// that stands for the empty stack.
#[derive(Debug, Clone, PartialEq, Eq)]
pub struct PushDown<A> {
    elements: Vec<A>,
    empty: A,
}

impl<A: Copy> PushDown<A> {
    /// The symbols from bottom to top.
    pub closed spec fn view(&self) -> Seq<A> {
        self.elements@
    }

    /// The marker for the empty stack.
    pub closed spec fn empty_marker(&self) -> A {
        self.empty
    }

    /// A stack that holds `a` above the bottom marker `empty`.
    pub fn new(a: A, empty: A) -> (r: Self)
        ensures
            r@ == seq![empty, a],
            r.empty_marker() == empty,
    {
        PushDown { elements: vec![empty, a], empty }
    }

    /// A stack with the given symbols, bottom first; the bottom one is the
    /// empty marker.
    pub fn from_vec(elements: Vec<A>) -> (r: Self)
        requires
            elements@.len() > 0,
        ensures
            r@ == elements@,
            r.empty_marker() == elements@[0],
    {
        let empty = elements[0];
        PushDown { elements, empty }
    }

    /// The marker for the empty stack.
    pub fn empty(&self) -> (r: &A)
        ensures
            *r == self.empty_marker(),
    {
        &self.empty
    }

    /// The symbols from bottom to top.
    pub fn elements(&self) -> (r: &Vec<A>)
        ensures
            r@ == self@,
    {
        &self.elements
    }

    /// The number of symbols, the bottom marker included.
    pub fn height(&self) -> (r: usize)
        ensures
            r == self@.len(),
    {
        self.elements.len()
    }
}

/// A rewrite of the top of a push-down storage: `current_val` (bottom first)
/// is replaced by `new_val`; `ReplaceK` also bounds the height of the
/// resulting stack by `limit`.
#[derive(Debug, Clone, PartialEq, Eq)]
pub enum PushDownInstruction<A> {
    Replace { current_val: Vec<A>, new_val: Vec<A> },
    ReplaceK { current_val: Vec<A>, new_val: Vec<A>, limit: usize },
}

impl<A> PushDownInstruction<A> {
    /// The symbols that are replaced.
    pub open spec fn current(&self) -> Seq<A> {
        match self {
            PushDownInstruction::Replace { current_val, .. } => current_val@,
            PushDownInstruction::ReplaceK { current_val, .. } => current_val@,
        }
    }

    /// The symbols that replace them.
    pub open spec fn replacement(&self) -> Seq<A> {
        match self {
            PushDownInstruction::Replace { new_val, .. } => new_val@,
            PushDownInstruction::ReplaceK { new_val, .. } => new_val@,
        }
    }
}

/// A copy of `v`, element by element.
pub fn copy_vec<A: Copy>(v: &Vec<A>) -> (r: Vec<A>)
    ensures
        r@ == v@,
{
    let mut r: Vec<A> = Vec::new();
    let mut i: usize = 0;
    while i < v.len()
        invariant
            i <= v@.len(),
            r@ == v@.subrange(0, i as int),
        decreases v@.len() - i,
    {
        r.push(v[i]);
        i = i + 1;
        assert(r@ =~= v@.subrange(0, i as int));
    }
    assert(r@ =~= v@);
    r
}

} // verus!
