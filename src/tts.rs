//! Approximation of a tree-stack storage by a push-down storage: the path
//! from the root to the focused node becomes the stack.
use vstd::prelude::*;

use crate::approximation::ApproximationStrategy;
use crate::push_down::{PushDown, PushDownInstruction};
use crate::tree_stack::TreeStack;

verus! {

/// An instruction of a tree-stack storage.
#[derive(Debug, Clone, Copy, PartialEq, Eq)]
pub enum TreeStackInstruction<A> {
    /// Moves to a sibling, rewriting `current_val` to `new_val`.
    Up { current_val: A, new_val: A },
    /// Creates a child holding `new_val` below the node holding `current_val`.
    Push { current_val: A, new_val: A },
    /// Leaves the child holding `current_val` for its parent holding
    /// `old_val`, which then holds `new_val`.
    Down { current_val: A, old_val: A, new_val: A },
}

/// The reverse of `s`.
pub open spec fn reversed<A>(s: Seq<A>) -> Seq<A> {
    Seq::new(s.len(), |i: int| s[s.len() - 1 - i])
}

/// Approximation of a tree-stack storage by a push-down storage.
#[derive(Debug)]
pub struct TTSElement<A> {
    _dummy: std::marker::PhantomData<A>,
}

impl<A: Copy> TTSElement<A> {
    /// The strategy; it has no configuration.
    pub fn new() -> (r: Self) {
        TTSElement { _dummy: std::marker::PhantomData }
    }

    /// The symbols from the root down to the focused node, as a stack whose
    /// bottom is the root's symbol and whose top is the focused one.
    pub fn approximate_storage(&self, ts: TreeStack<A>) -> (r: PushDown<A>)
        requires
            ts.wf(),
        ensures
            r@ == ts.path(),
            r.empty_marker() == ts.root_symbol(),
    {
        let ghost full = ts.path();
        let ghost root = ts.root_symbol();
        proof {
            ts.lemma_root_first();
        }
        let mut pd: Vec<A> = Vec::new();
        pd.push(*ts.current_symbol());
        assert(reversed(pd@) =~= seq![full.last()]);
        assert(full.drop_last() + reversed(pd@) =~= full);
        let mut ts = ts;
        loop
            invariant
                ts.wf(),
                ts.root_symbol() == root,
                ts.path().len() >= 1,
                ts.path().drop_last() + reversed(pd@) == full,
            ensures
                reversed(pd@) == full,
            decreases ts.path().len(),
        {
            match ts.down() {
                Ok(smaller) => {
                    let ghost before = ts.path();
                    let ghost old_pd = pd@;
                    pd.push(*smaller.current_symbol());
                    proof {
                        assert(reversed(pd@) =~= seq![smaller.path().last()] + reversed(old_pd));
                        assert(smaller.path().drop_last().push(smaller.path().last()) =~= smaller.path());
                        assert(smaller.path().drop_last() + reversed(pd@) =~= before.drop_last() + reversed(old_pd));
                    }
                    ts = smaller;
                },
                Err(_) => {
                    assert(ts.path().drop_last() =~= Seq::<A>::empty());
                    assert(reversed(pd@) =~= full);
                    break;
                },
            }
        }
        let mut out: Vec<A> = Vec::new();
        let mut i: usize = pd.len();
        while i > 0
            invariant
                i <= pd@.len(),
                out@ == reversed(pd@).subrange(0, pd@.len() - i),
            decreases i,
        {
            i = i - 1;
            out.push(pd[i]);
            assert(out@ =~= reversed(pd@).subrange(0, pd@.len() - i));
        }
        assert(out@ =~= reversed(pd@));
        proof {
            ts.lemma_root_first();
        }
        PushDown::from_vec(out)
    }

    /// `Up` and `Push` grow the stack by one frame over the anchor; `Down`
    /// merges the top two frames into one.
    pub fn approximate_instruction(&self, instr: &TreeStackInstruction<A>) -> (r: PushDownInstruction<A>)
        ensures
            instruction_image(*instr, r),
    {
        match instr {
            TreeStackInstruction::Up { current_val, new_val }
            | TreeStackInstruction::Push { current_val, new_val } => {
                let current = vec![*current_val];
                let replacement = vec![*current_val, *new_val];
                assert(current@ =~= seq![*current_val]);
                assert(replacement@ =~= seq![*current_val, *new_val]);
                PushDownInstruction::Replace { current_val: current, new_val: replacement }
            },
            TreeStackInstruction::Down { current_val, old_val, new_val } => {
                let current = vec![*current_val, *old_val];
                let replacement = vec![*new_val];
                assert(current@ =~= seq![*current_val, *old_val]);
                assert(replacement@ =~= seq![*new_val]);
                PushDownInstruction::Replace { current_val: current, new_val: replacement }
            },
        }
    }
}

/// The push-down instruction that stands for a tree-stack instruction.
pub open spec fn instruction_image<A>(instr: TreeStackInstruction<A>, r: PushDownInstruction<A>) -> bool {
    &&& r is Replace
    &&& match instr {
        TreeStackInstruction::Up { current_val, new_val } => r.current() == seq![current_val]
            && r.replacement() == seq![current_val, new_val],
        TreeStackInstruction::Push { current_val, new_val } => r.current() == seq![current_val]
            && r.replacement() == seq![current_val, new_val],
        TreeStackInstruction::Down { current_val, old_val, new_val } => r.current() == seq![
            current_val,
            old_val,
        ] && r.replacement() == seq![new_val],
    }
}

impl<A: Copy> ApproximationStrategy for TTSElement<A> {
    type S1 = TreeStack<A>;
    type S2 = PushDown<A>;
    type I1 = TreeStackInstruction<A>;
    type I2 = PushDownInstruction<A>;

    open spec fn admits(&self, s: TreeStack<A>) -> bool {
        s.wf()
    }

    open spec fn storage_image(&self, s: TreeStack<A>, r: PushDown<A>) -> bool {
        &&& r@ == s.path()
        &&& r.empty_marker() == s.root_symbol()
    }

    open spec fn instruction_image(&self, i: TreeStackInstruction<A>, r: PushDownInstruction<A>) -> bool {
        instruction_image(i, r)
    }

    fn approximate_storage(&self, s: TreeStack<A>) -> (r: PushDown<A>) {
        TTSElement::approximate_storage(self, s)
    }

    fn approximate_instruction(&self, i: &TreeStackInstruction<A>) -> (r: PushDownInstruction<A>) {
        TTSElement::approximate_instruction(self, i)
    }
}

/// A tree-stack reached from a root holding `root` by pushing the symbols of
/// `pushed` in turn linearizes to a stack of height `pushed.len() + 1`, with
/// the last pushed symbol on top and the root's symbol at the bottom.
pub proof fn lemma_linearization<A: Copy>(ts: TreeStack<A>, root: A, pushed: Seq<A>)
    requires
        ts.wf(),
        ts.path() == seq![root] + pushed,
    ensures
        ts.path().len() == pushed.len() + 1,
        ts.path()[0] == root,
        ts.path()[0] == ts.root_symbol(),
        ts.path().last() == if pushed.len() == 0 { root } else { pushed.last() },
{
    ts.lemma_root_first();
}

} // verus!
