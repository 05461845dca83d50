//! Bounded-height approximation of a push-down storage: only the topmost
//! symbols are kept, above a fresh bottom marker.
use vstd::prelude::*;

use crate::approximation::ApproximationStrategy;
use crate::push_down::{copy_vec, PushDown, PushDownInstruction};

verus! {

/// The number of real symbols kept below the bound `size`: at most
/// `size - 1`, and no more than the stack has.
pub open spec fn kept(size: nat, height: nat) -> nat {
    if size - 1 < height {
        (size - 1) as nat
    } else {
        height
    }
}

/// The approximated stack: the bottom marker, then the topmost
/// `kept(size, s.len())` symbols of `s` in their order.
pub open spec fn top_k_of<A>(size: nat, empty: A, s: Seq<A>) -> Seq<A> {
    seq![empty] + s.subrange(s.len() - kept(size, s.len()), s.len() as int)
}

/// Approximation of a push-down storage by one of height at most `size`.
#[derive(Debug)]
pub struct PDTopKElement<A> {
    _dummy: std::marker::PhantomData<A>,
    size: usize,
}

impl<A: Copy> PDTopKElement<A> {
    /// The height bound.
    pub closed spec fn bound(&self) -> nat {
        self.size as nat
    }

    /// Every strategy has a bound of at least one.
    pub closed spec fn wf(&self) -> bool {
        self.size >= 1
    }

    /// A strategy with height bound `size`; a bound of zero is refused.
    pub fn new(size: usize) -> (r: Option<Self>)
        ensures
            r is Some <==> size >= 1,
            r matches Some(s) ==> s.wf() && s.bound() == size,
    {
        if size >= 1 {
            Some(PDTopKElement { _dummy: std::marker::PhantomData, size })
        } else {
            None
        }
    }

    /// The height bound.
    pub fn size(&self) -> (r: usize)
        ensures
            r == self.bound(),
    {
        self.size
    }

    /// Keeps the topmost `size - 1` symbols of `a` and puts its empty marker
    /// beneath them.
    pub fn approximate_storage(&self, a: PushDown<A>) -> (r: PushDown<A>)
        requires
            self.wf(),
        ensures
            r@ == top_k_of(self.bound(), a.empty_marker(), a@),
            r@.len() <= self.bound(),
            r@[0] == a.empty_marker(),
            r.empty_marker() == a.empty_marker(),
    {
        let new_empty = *a.empty();
        let elements = a.elements();
        let n = elements.len();
        let k = if self.size - 1 < n { self.size - 1 } else { n };
        let mut new_elements: Vec<A> = Vec::new();
        new_elements.push(new_empty);
        let mut i: usize = n - k;
        while i < n
            invariant
                n == elements@.len(),
                k <= n,
                n - k <= i <= n,
                new_elements@ == seq![new_empty] + elements@.subrange(n - k, i as int),
            decreases n - i,
        {
            new_elements.push(elements[i]);
            i = i + 1;
            assert(new_elements@ =~= seq![new_empty] + elements@.subrange(n - k, i as int));
        }
        proof {
            lemma_top_k_bound(self.size as nat, new_empty, elements@);
        }
        PushDown::from_vec(new_elements)
    }

    /// Any rewrite becomes a rewrite of the same symbols bounded by `size`.
    pub fn approximate_instruction(&self, instr: &PushDownInstruction<A>) -> (r: PushDownInstruction<A>)
        ensures
            r matches PushDownInstruction::ReplaceK { limit, .. } && limit == self.bound(),
            r.current() == instr.current(),
            r.replacement() == instr.replacement(),
    {
        match instr {
            PushDownInstruction::Replace { current_val, new_val }
            | PushDownInstruction::ReplaceK { current_val, new_val, .. } => {
                PushDownInstruction::ReplaceK {
                    current_val: copy_vec(current_val),
                    new_val: copy_vec(new_val),
                    limit: self.size,
                }
            },
        }
    }
}

impl<A: Copy> ApproximationStrategy for PDTopKElement<A> {
    type S1 = PushDown<A>;
    type S2 = PushDown<A>;
    type I1 = PushDownInstruction<A>;
    type I2 = PushDownInstruction<A>;

    open spec fn admits(&self, s: PushDown<A>) -> bool {
        self.wf()
    }

    open spec fn storage_image(&self, s: PushDown<A>, r: PushDown<A>) -> bool {
        &&& r@ == top_k_of(self.bound(), s.empty_marker(), s@)
        &&& r.empty_marker() == s.empty_marker()
    }

    open spec fn instruction_image(&self, i: PushDownInstruction<A>, r: PushDownInstruction<A>) -> bool {
        &&& r matches PushDownInstruction::ReplaceK { limit, .. } && limit == self.bound()
        &&& r.current() == i.current()
        &&& r.replacement() == i.replacement()
    }

    fn approximate_storage(&self, s: PushDown<A>) -> (r: PushDown<A>) {
        PDTopKElement::approximate_storage(self, s)
    }

    fn approximate_instruction(&self, i: &PushDownInstruction<A>) -> (r: PushDownInstruction<A>) {
        PDTopKElement::approximate_instruction(self, i)
    }
}

/// The approximated stack is never higher than the bound and always rests
/// on the input stack's empty marker.
pub proof fn lemma_top_k_bound<A>(size: nat, empty: A, s: Seq<A>)
    requires
        size >= 1,
    ensures
        top_k_of(size, empty, s).len() <= size,
        top_k_of(size, empty, s)[0] == empty,
{
}

} // verus!
