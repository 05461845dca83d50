//! Tree-stack storage: a tree of symbols with one focused node, which can
//! grow a child below the focus and move back towards the root.
use vstd::prelude::*;

verus! {

/// One node of a tree-stack: its symbol and the index of its parent.
#[derive(Debug, Clone)]
pub struct TreeStackNode<A> {
    value: A,
    parent: Option<usize>,
}

/// A tree of symbols held as nodes in creation order, each parent before its
/// children and the root first, with a focused node.
#[derive(Debug, Clone)]
pub struct TreeStack<A> {
    nodes: Vec<TreeStackNode<A>>,
    current: usize,
}

/// The symbols from the root down to node `i`.
pub closed spec fn path_to<A>(nodes: Seq<TreeStackNode<A>>, i: int) -> Seq<A>
    decreases i,
{
    if 0 <= i < nodes.len() {
        match nodes[i].parent {
            Some(p) => if 0 <= p < i {
                path_to(nodes, p as int).push(nodes[i].value)
            } else {
                seq![nodes[i].value]
            },
            None => seq![nodes[i].value],
        }
    } else {
        Seq::empty()
    }
}

impl<A: Copy> TreeStack<A> {
    /// The focused node is present and every parent precedes its child.
    pub closed spec fn wf(&self) -> bool {
        &&& self.current < self.nodes@.len()
        &&& forall|i: int|
            0 <= i < self.nodes@.len() ==> match #[trigger] self.nodes@[i].parent {
                Some(p) => p < i,
                None => i == 0,
            }
    }

    /// The symbols on the way from the root down to the focused node.
    pub closed spec fn path(&self) -> Seq<A> {
        path_to(self.nodes@, self.current as int)
    }

    /// The number of nodes that were ever created.
    pub closed spec fn node_count(&self) -> nat {
        self.nodes@.len()
    }

    /// The symbol at the root.
    pub closed spec fn root_symbol(&self) -> A {
        self.nodes@[0].value
    }

    proof fn lemma_path(&self)
        requires
            self.wf(),
        ensures
            self.path().len() >= 1,
            self.path().last() == self.nodes@[self.current as int].value,
            self.path()[0] == self.root_symbol(),
            self.nodes@[self.current as int].parent is None <==> self.path().len() == 1,
    {
        lemma_path_to(self.nodes@, self.current as int);
    }

    /// Every path starts at the root.
    pub proof fn lemma_root_first(&self)
        requires
            self.wf(),
        ensures
            self.path().len() >= 1,
            self.path()[0] == self.root_symbol(),
    {
        self.lemma_path();
    }

    /// A tree-stack whose only node, the root, holds `a`.
    pub fn new(a: A) -> (r: Self)
        ensures
            r.wf(),
            r.path() == seq![a],
            r.root_symbol() == a,
            r.node_count() == 1,
    {
        let r = TreeStack { nodes: vec![TreeStackNode { value: a, parent: None }], current: 0 };
        assert(r.nodes@[0].parent is None);
        r
    }

    /// The symbol at the focused node.
    pub fn current_symbol(&self) -> (r: &A)
        requires
            self.wf(),
        ensures
            *r == self.path().last(),
    {
        proof {
            self.lemma_path();
        }
        &self.nodes[self.current].value
    }

    /// Creates a child of the focused node that holds `a`, and focuses it.
    pub fn push(self, a: A) -> (r: Self)
        requires
            self.wf(),
            self.node_count() < usize::MAX,
        ensures
            r.wf(),
            r.path() == self.path().push(a),
            r.root_symbol() == self.root_symbol(),
            r.node_count() == self.node_count() + 1,
    {
        let mut nodes = self.nodes;
        let parent = self.current;
        let ghost old_nodes = nodes@;
        nodes.push(TreeStackNode { value: a, parent: Some(parent) });
        let current = nodes.len() - 1;
        let r = TreeStack { nodes, current };
        proof {
            assert(r.nodes@[current as int].parent == Some(parent));
            lemma_path_prefix(old_nodes, r.nodes@, parent as int);
            assert(r.wf()) by {
                assert forall|i: int| 0 <= i < r.nodes@.len() implies match #[trigger] r.nodes@[i].parent {
                    Some(p) => p < i,
                    None => i == 0,
                } by {
                    if i < old_nodes.len() {
                        assert(r.nodes@[i] == old_nodes[i]);
                    }
                }
            }
            if old_nodes.len() > 0 {
                assert(r.nodes@[0] == old_nodes[0]);
            }
        }
        r
    }

    /// Moves the focus to the parent of the focused node; at the root the
    /// tree-stack is handed back unchanged as the error.
    pub fn down(self) -> (r: Result<Self, Self>)
        requires
            self.wf(),
        ensures
            match r {
                Ok(t) => t.wf() && self.path().len() > 1 && t.path() == self.path().drop_last()
                    && t.root_symbol() == self.root_symbol() && t.node_count() == self.node_count(),
                Err(t) => t == self && self.path().len() == 1,
            },
    {
        proof {
            self.lemma_path();
        }
        match self.nodes[self.current].parent {
            Some(p) => {
                let ghost s = self.path();
                let r = TreeStack { nodes: self.nodes, current: p };
                proof {
                    assert(s =~= r.path().push(self.nodes@[self.current as int].value));
                    assert(s.drop_last() =~= r.path());
                }
                Ok(r)
            },
            None => Err(self),
        }
    }
}

proof fn lemma_path_to<A>(nodes: Seq<TreeStackNode<A>>, i: int)
    requires
        0 <= i < nodes.len(),
        forall|k: int|
            0 <= k < nodes.len() ==> match #[trigger] nodes[k].parent {
                Some(p) => p < k,
                None => k == 0,
            },
    ensures
        path_to(nodes, i).len() >= 1,
        path_to(nodes, i).last() == nodes[i].value,
        path_to(nodes, i)[0] == nodes[0].value,
        nodes[i].parent is None <==> path_to(nodes, i).len() == 1,
    decreases i,
{
    match nodes[i].parent {
        Some(p) => {
            lemma_path_to(nodes, p as int);
        },
        None => {},
    }
}

proof fn lemma_path_prefix<A>(a: Seq<TreeStackNode<A>>, b: Seq<TreeStackNode<A>>, i: int)
    requires
        0 <= i < a.len() <= b.len(),
        forall|k: int| 0 <= k < a.len() ==> b[k] == a[k],
    ensures
        path_to(b, i) == path_to(a, i),
    decreases i,
{
    match a[i].parent {
        Some(p) => if 0 <= p < i {
            lemma_path_prefix(a, b, p as int);
        },
        None => {},
    }
}

} // verus!
