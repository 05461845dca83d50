//! Compositions, rules and grammars of weighted multiple context-free
//! grammars, and the evaluation of derivation trees of compositions.
use vstd::prelude::*;

use crate::gorn::{bounds_depth, entries_map, GornTree};
use crate::push_down::copy_vec;

verus! {

/// A symbol of a composition.
#[derive(Debug, PartialEq, Eq, PartialOrd, Ord, Clone, Copy, Hash)]
pub enum VarT<T> {
    /// `Var(i, j)` stands for the `j`-th component of the `i`-th successor,
    /// both counted from zero.
    Var(usize, usize),
    /// A terminal symbol.
    T(T),
}

/// The composition function of a rule: a sequence of components, each a
/// sequence of symbols.
#[derive(Debug, PartialEq, Eq, PartialOrd, Ord, Clone, Hash)]
pub struct Composition<T> {
    pub composition: Vec<Vec<VarT<T>>>,
}

/// The components of `c` as sequences.
pub open spec fn components_view<T>(c: Seq<Vec<VarT<T>>>) -> Seq<Seq<VarT<T>>> {
    c.map_values(|v: Vec<VarT<T>>| v@)
}

impl<T> Composition<T> {
    pub open spec fn view(&self) -> Seq<Seq<VarT<T>>> {
        components_view(self.composition@)
    }

    /// The composition with the given components.
    pub fn from(composition: Vec<Vec<VarT<T>>>) -> (r: Self)
        ensures
            r.composition == composition,
    {
        Composition { composition }
    }
}

/// A copy of the components `c`.
fn copy_components<T: Copy>(c: &Vec<Vec<VarT<T>>>) -> (r: Vec<Vec<VarT<T>>>)
    ensures
        components_view(r@) == components_view(c@),
{
    let mut r: Vec<Vec<VarT<T>>> = Vec::new();
    let mut i: usize = 0;
    while i < c.len()
        invariant
            i <= c@.len(),
            r@.len() == i,
            components_view(r@) == components_view(c@).subrange(0, i as int),
        decreases c@.len() - i,
    {
        let ghost old_r = r@;
        r.push(copy_vec(&c[i]));
        assert(r@[i as int]@ == c@[i as int]@);
        assert(r@.subrange(0, i as int) =~= old_r);
        i = i + 1;
        assert(components_view(r@) =~= components_view(c@).subrange(0, i as int));
    }
    assert(components_view(r@) =~= components_view(c@));
    r
}

/// Why the evaluation of a derivation tree failed, over sequences.
pub enum EvalFault<T> {
    /// No composition is stored at `address`.
    Missing { address: Seq<usize> },
    /// `composition` uses component `component` of successor `successor`,
    /// whose expansion has only `count` components.
    OutOfRange { composition: Seq<Seq<VarT<T>>>, component: usize, successor: usize, count: usize },
}

/// Why the evaluation of a derivation tree failed.
#[derive(Debug, PartialEq, Eq, Clone)]
pub enum EvalError<T> {
    /// No composition is stored at `address`.
    MissingAddress { address: Vec<usize> },
    /// `composition` uses component `component` of successor `successor`,
    /// whose expansion has only `count` components.
    ComponentOutOfRange { composition: Composition<T>, component: usize, successor: usize, count: usize },
}

impl<T> EvalError<T> {
    pub open spec fn view(&self) -> EvalFault<T> {
        match self {
            EvalError::MissingAddress { address } => EvalFault::Missing { address: address@ },
            EvalError::ComponentOutOfRange { composition, component, successor, count } =>
                EvalFault::OutOfRange {
                    composition: composition@,
                    component: *component,
                    successor: *successor,
                    count: *count,
                },
        }
    }
}

/// A derivation tree of compositions, as sequences.
pub open spec fn terms_view<T>(t: Map<Seq<usize>, Composition<T>>) -> Map<Seq<usize>, Seq<Seq<VarT<T>>>> {
    t.map_values(|c: Composition<T>| c@)
}

/// A bound on the length of every address of `m`.
pub open spec fn depth_bound<V>(m: Map<Seq<usize>, V>) -> nat {
    choose|h: nat| bounds_depth(m, h)
}

/// The expansion of the composition at `address`: each terminal stays, and
/// each `Var(i, j)` becomes the `j`-th component of the expansion at
/// `address` extended by `i`. The first fault met, symbol by symbol and
/// component by component, is the result if there is one.
pub open spec fn expand<T>(m: Map<Seq<usize>, Seq<Seq<VarT<T>>>>, address: Seq<usize>) -> Result<
    Seq<Seq<VarT<T>>>,
    EvalFault<T>,
>
    decreases depth_bound(m) - address.len(), 2int, 0int,
{
    if m.contains_key(address) && address.len() < depth_bound(m) {
        expand_components(m, address, m[address].len() as int)
    } else {
        Err(EvalFault::Missing { address })
    }
}

/// The expansion of the first `n` components at `address`.
pub open spec fn expand_components<T>(
    m: Map<Seq<usize>, Seq<Seq<VarT<T>>>>,
    address: Seq<usize>,
    n: int,
) -> Result<Seq<Seq<VarT<T>>>, EvalFault<T>>
    decreases depth_bound(m) - address.len(), 1int, n,
{
    if n <= 0 || address.len() >= depth_bound(m) {
        Ok(Seq::empty())
    } else {
        match expand_components(m, address, n - 1) {
            Err(e) => Err(e),
            Ok(prefix) => match expand_symbols(m, address, n - 1, m[address][n - 1].len() as int) {
                Err(e) => Err(e),
                Ok(c) => Ok(prefix.push(c)),
            },
        }
    }
}

/// The expansion of the first `n` symbols of component `c` at `address`.
pub open spec fn expand_symbols<T>(
    m: Map<Seq<usize>, Seq<Seq<VarT<T>>>>,
    address: Seq<usize>,
    c: int,
    n: int,
) -> Result<Seq<VarT<T>>, EvalFault<T>>
    decreases depth_bound(m) - address.len(), 0int, n,
{
    if n <= 0 || address.len() >= depth_bound(m) {
        Ok(Seq::empty())
    } else {
        match expand_symbols(m, address, c, n - 1) {
            Err(e) => Err(e),
            Ok(prefix) => match m[address][c][n - 1] {
                VarT::T(t) => Ok(prefix.push(VarT::T(t))),
                VarT::Var(i, j) => match expand(m, address.push(i)) {
                    Err(e) => Err(e),
                    Ok(child) => if j < child.len() {
                        Ok(prefix + child[j as int])
                    } else {
                        Err(
                            EvalFault::OutOfRange {
                                composition: m[address],
                                component: j,
                                successor: i,
                                count: child.len() as usize,
                            },
                        )
                    },
                },
            },
        }
    }
}

/// The outcome of an evaluation, over sequences.
pub open spec fn outcome_view<T>(r: Result<Composition<T>, EvalError<T>>) -> Result<
    Seq<Seq<VarT<T>>>,
    EvalFault<T>,
> {
    match r {
        Ok(c) => Ok(c@),
        Err(e) => Err(e@),
    }
}

/// Every cached successor expansion is the expansion at its address.
pub open spec fn cache_agrees<T>(
    m: Map<Seq<usize>, Seq<Seq<VarT<T>>>>,
    address: Seq<usize>,
    cache: Seq<(usize, Vec<Vec<VarT<T>>>)>,
) -> bool {
    forall|k: int|
        0 <= k < cache.len() ==> expand(m, address.push(#[trigger] cache[k].0)) == Ok::<
            Seq<Seq<VarT<T>>>,
            EvalFault<T>,
        >(components_view(cache[k].1@))
}

proof fn lemma_depth_bound<V, T>(t: Map<Seq<usize>, V>, m: Map<Seq<usize>, Seq<Seq<VarT<T>>>>)
    requires
        exists|h: nat| bounds_depth(t, h),
        t.dom() == m.dom(),
    ensures
        bounds_depth(m, depth_bound(m)),
{
    let h = choose|h: nat| bounds_depth(t, h);
    assert(bounds_depth(m, h));
}

proof fn lemma_symbols_fault_stays<T>(
    m: Map<Seq<usize>, Seq<Seq<VarT<T>>>>,
    address: Seq<usize>,
    c: int,
    s: int,
    n: int,
)
    requires
        expand_symbols(m, address, c, s) is Err,
        0 < s <= n,
    ensures
        expand_symbols(m, address, c, n) == expand_symbols(m, address, c, s),
    decreases n - s,
{
    if s < n {
        lemma_symbols_fault_stays(m, address, c, s, n - 1);
    }
}

proof fn lemma_components_fault_stays<T>(
    m: Map<Seq<usize>, Seq<Seq<VarT<T>>>>,
    address: Seq<usize>,
    s: int,
    n: int,
)
    requires
        expand_components(m, address, s) is Err,
        0 < s <= n,
    ensures
        expand_components(m, address, n) == expand_components(m, address, s),
    decreases n - s,
{
    if s < n {
        lemma_components_fault_stays(m, address, s, n - 1);
    }
}

/// The position in `cache` of the expansion of successor `i`, if present.
fn find_cached<T>(cache: &Vec<(usize, Vec<Vec<VarT<T>>>)>, i: usize) -> (r: Option<usize>)
    ensures
        r matches Some(k) ==> k < cache@.len() && cache@[k as int].0 == i,
{
    let mut k: usize = 0;
    while k < cache.len()
        invariant
            k <= cache@.len(),
        decreases cache@.len() - k,
    {
        if cache[k].0 == i {
            return Some(k);
        }
        k = k + 1;
    }
    None
}

/// The expansion of the root composition of `term_map`.
pub fn evaluate<T: Copy>(term_map: &GornTree<Composition<T>>) -> (r: Result<Composition<T>, EvalError<T>>)
    requires
        term_map.wf(),
        term_map@.contains_key(Seq::<usize>::empty()),
    ensures
        outcome_view(r) == expand(terms_view(term_map@), Seq::<usize>::empty()),
{
    let root: Vec<usize> = Vec::new();
    assert(root@ =~= Seq::<usize>::empty());
    evaluate_pos(term_map, root)
}

/// The expansion of the composition at `address`. Each successor is
/// evaluated at most once within the call.
#[verifier::rlimit(50)]
pub fn evaluate_pos<T: Copy>(term_map: &GornTree<Composition<T>>, address: Vec<usize>) -> (r: Result<
    Composition<T>,
    EvalError<T>,
>)
    requires
        term_map.wf(),
        term_map@.contains_key(address@),
    ensures
        outcome_view(r) == expand(terms_view(term_map@), address@),
    decreases depth_bound(terms_view(term_map@)) - address@.len(),
{
    let ghost m = terms_view(term_map@);
    proof {
        term_map.lemma_bounded_depth();
        assert(term_map@.dom() =~= m.dom());
        lemma_depth_bound(term_map@, m);
    }
    let unexpanded = match term_map.get(&address) {
        Some(c) => c,
        None => {
            return Err(EvalError::MissingAddress { address });
        },
    };
    assert(m[address@] == unexpanded@);
    let mut cache: Vec<(usize, Vec<Vec<VarT<T>>>)> = Vec::new();
    let mut expanded: Vec<Vec<VarT<T>>> = Vec::new();
    let n = unexpanded.composition.len();
    let mut c: usize = 0;
    assert(components_view(expanded@) =~= Seq::<Seq<VarT<T>>>::empty());
    while c < n
        invariant
            term_map.wf(),
            m == terms_view(term_map@),
            bounds_depth(m, depth_bound(m)),
            m.contains_key(address@),
            m[address@] == unexpanded@,
            n == unexpanded.composition@.len(),
            c <= n,
            expanded@.len() == c,
            expand_components(m, address@, c as int) == Ok::<Seq<Seq<VarT<T>>>, EvalFault<T>>(
                components_view(expanded@),
            ),
            cache_agrees(m, address@, cache@),
        decreases n - c,
    {
        let component = &unexpanded.composition[c];
        let mut out: Vec<VarT<T>> = Vec::new();
        let mut s: usize = 0;
        while s < component.len()
            invariant
                term_map.wf(),
                m == terms_view(term_map@),
                bounds_depth(m, depth_bound(m)),
                m.contains_key(address@),
                m[address@] == unexpanded@,
                n == unexpanded.composition@.len(),
                c < n,
                *component == unexpanded.composition@[c as int],
                s <= component@.len(),
                expanded@.len() == c,
                expand_components(m, address@, c as int) == Ok::<Seq<Seq<VarT<T>>>, EvalFault<T>>(
                    components_view(expanded@),
                ),
                expand_symbols(m, address@, c as int, s as int) == Ok::<Seq<VarT<T>>, EvalFault<T>>(out@),
                cache_agrees(m, address@, cache@),
            decreases component@.len() - s,
        {
            assert(m[address@][c as int][s as int] == component@[s as int]);
            match component[s] {
                VarT::T(t) => {
                    out.push(VarT::T(t));
                },
                VarT::Var(i, j) => {
                    let k = match find_cached(&cache, i) {
                        Some(k) => k,
                        None => {
                            let mut child = copy_vec(&address);
                            child.push(i);
                            if !term_map.contains(&child) {
                                proof {
                                    lemma_symbols_fault_stays(m, address@, c as int, s + 1, component@.len() as int);
                                    lemma_components_fault_stays(m, address@, c + 1, n as int);
                                }
                                return Err(EvalError::MissingAddress { address: child });
                            }
                            match evaluate_pos(term_map, child) {
                                Ok(v) => {
                                    cache.push((i, v.composition));
                                    cache.len() - 1
                                },
                                Err(e) => {
                                    proof {
                                        lemma_symbols_fault_stays(m, address@, c as int, s + 1, component@.len() as int);
                                        lemma_components_fault_stays(m, address@, c + 1, n as int);
                                    }
                                    return Err(e);
                                },
                            }
                        },
                    };
                    let comps = &cache[k].1;
                    assert(expand(m, address@.push(i)) == Ok::<Seq<Seq<VarT<T>>>, EvalFault<T>>(
                        components_view(comps@),
                    ));
                    if j < comps.len() {
                        let part = &comps[j];
                        let ghost prefix = out@;
                        let mut q: usize = 0;
                        while q < part.len()
                            invariant
                                q <= part@.len(),
                                out@ == prefix + part@.subrange(0, q as int),
                            decreases part@.len() - q,
                        {
                            out.push(part[q]);
                            q = q + 1;
                            assert(out@ =~= prefix + part@.subrange(0, q as int));
                        }
                        assert(part@.subrange(0, q as int) =~= part@);
                    } else {
                        let composition = Composition { composition: copy_components(&unexpanded.composition) };
                        proof {
                            lemma_symbols_fault_stays(m, address@, c as int, s + 1, component@.len() as int);
                            lemma_components_fault_stays(m, address@, c + 1, n as int);
                        }
                        return Err(
                            EvalError::ComponentOutOfRange { composition, component: j, successor: i, count: comps.len() },
                        );
                    }
                },
            }
            s = s + 1;
        }
        let ghost prev = expanded@;
        expanded.push(out);
        c = c + 1;
        assert(components_view(expanded@) =~= components_view(prev).push(expanded@[c - 1]@));
    }
    Ok(Composition { composition: expanded })
}

/// A rule of a weighted multiple context-free grammar. Successor `i` of the
/// composition is `tail[i]`.
#[derive(Debug, Clone)]
pub struct PMCFGRule<N, T, W> {
    pub head: N,
    pub tail: Vec<N>,
    pub composition: Composition<T>,
    pub weight: W,
}

/// A weighted multiple context-free grammar: its initial labels and rules.
#[derive(Debug, Clone)]
pub struct PMCFG<N, T, W> {
    pub initial: Vec<N>,
    pub rules: Vec<PMCFGRule<N, T, W>>,
}

impl<N, T: Copy, W: Copy> PMCFGRule<N, T, W> {
    /// The rule with `f` applied to its head and to each label of its tail.
    pub fn map_nonterminals<F, M>(&self, f: F) -> (r: PMCFGRule<M, T, W>) where F: Fn(&N) -> M
        requires
            forall|n: &N| f.requires((n,)),
        ensures
            f.ensures((&self.head,), r.head),
            r.tail@.len() == self.tail@.len(),
            forall|k: int| 0 <= k < self.tail@.len() ==> f.ensures((&self.tail@[k],), #[trigger] r.tail@[k]),
            r.composition@ == self.composition@,
            r.weight == self.weight,
    {
        let head = f(&self.head);
        let mut tail: Vec<M> = Vec::new();
        let mut i: usize = 0;
        while i < self.tail.len()
            invariant
                forall|n: &N| f.requires((n,)),
                i <= self.tail@.len(),
                tail@.len() == i,
                forall|k: int| 0 <= k < i ==> f.ensures((&self.tail@[k],), #[trigger] tail@[k]),
            decreases self.tail@.len() - i,
        {
            tail.push(f(&self.tail[i]));
            i = i + 1;
        }
        PMCFGRule {
            head,
            tail,
            composition: Composition { composition: copy_components(&self.composition.composition) },
            weight: self.weight,
        }
    }
}

/// The composition at each address of a tree of rules.
pub open spec fn compositions_of<H, T, W>(m: Map<Seq<usize>, PMCFGRule<H, T, W>>) -> Map<Seq<usize>, Composition<T>> {
    m.map_values(|r: PMCFGRule<H, T, W>| r.composition)
}

/// The head at each address of a tree of rules.
pub open spec fn heads_of<H, T, W>(m: Map<Seq<usize>, PMCFGRule<H, T, W>>) -> Map<Seq<usize>, H> {
    m.map_values(|r: PMCFGRule<H, T, W>| r.head)
}

/// Splits a tree of rules into the tree of their compositions and the tree
/// of their heads, over the same addresses and in the same order.
pub fn to_term<H, T, W>(tree_map: GornTree<PMCFGRule<H, T, W>>) -> (r: (GornTree<Composition<T>>, GornTree<H>))
    requires
        tree_map.wf(),
    ensures
        r.0.wf(),
        r.1.wf(),
        r.0@ == compositions_of(tree_map@),
        r.1@ == heads_of(tree_map@),
{
    let ghost whole = tree_map@;
    let mut entries = tree_map.into_entries();
    let ghost all = entries@;
    let mut term_map: GornTree<Composition<T>> = GornTree::new();
    let mut head_map: GornTree<H> = GornTree::new();
    let ghost mut i: int = 0;
    assert(all.take(0) =~= Seq::<(Vec<usize>, PMCFGRule<H, T, W>)>::empty());
    assert(compositions_of(entries_map(all.take(0))) =~= term_map@);
    assert(heads_of(entries_map(all.take(0))) =~= head_map@);
    while entries.len() > 0
        invariant
            term_map.wf(),
            head_map.wf(),
            0 <= i <= all.len(),
            entries@ == all.skip(i),
            term_map@ == compositions_of(entries_map(all.take(i))),
            head_map@ == heads_of(entries_map(all.take(i))),
        decreases entries@.len(),
    {
        let (address, rule) = entries.remove(0);
        let ghost a = address@;
        let ghost before = entries_map(all.take(i));
        assert(all[i] == (address, rule));
        let PMCFGRule { head, tail: _, composition, weight: _ } = rule;
        term_map.insert(copy_vec(&address), composition);
        head_map.insert(address, head);
        proof {
            assert(all.take(i + 1).drop_last() =~= all.take(i));
            assert(entries_map(all.take(i + 1)) == before.insert(a, rule));
            assert(compositions_of(before.insert(a, rule)) =~= compositions_of(before).insert(a, composition));
            assert(heads_of(before.insert(a, rule)) =~= heads_of(before).insert(a, head));
            i = i + 1;
            assert(entries@ =~= all.skip(i));
        }
    }
    assert(all.take(i) =~= all);
    (term_map, head_map)
}

/// Rules rebuilt from a tree of compositions and a tree of heads, each with
/// the given tail and weight.
pub open spec fn reassemble<H, T, W>(
    terms: Map<Seq<usize>, Composition<T>>,
    heads: Map<Seq<usize>, H>,
    tail: Vec<H>,
    weight: W,
) -> Map<Seq<usize>, PMCFGRule<H, T, W>> {
    Map::new(
        |a: Seq<usize>| terms.contains_key(a) && heads.contains_key(a),
        |a: Seq<usize>| PMCFGRule { head: heads[a], tail, composition: terms[a], weight },
    )
}

/// Splitting a tree of rules, rebuilding rules from the two parts with any
/// tail and weight, and splitting again gives back the same compositions
/// and heads.
pub proof fn lemma_to_term_round_trip<H, T, W>(m: Map<Seq<usize>, PMCFGRule<H, T, W>>, tail: Vec<H>, weight: W)
    ensures
        compositions_of(reassemble(compositions_of(m), heads_of(m), tail, weight)) == compositions_of(m),
        heads_of(reassemble(compositions_of(m), heads_of(m), tail, weight)) == heads_of(m),
{
    let re = reassemble(compositions_of(m), heads_of(m), tail, weight);
    assert(re.dom() =~= m.dom());
    assert(compositions_of(re) =~= compositions_of(m));
    assert(heads_of(re) =~= heads_of(m));
}

} // verus!
