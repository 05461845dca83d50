//! Trees addressed by Gorn addresses: the root is the empty address and the
//! `i`-th child of the node at `p` sits at `p` extended by `i`.
use vstd::prelude::*;

verus! {

/// The map that a sequence of entries describes; a later entry for an
/// address overrides an earlier one.
pub open spec fn entries_map<V>(s: Seq<(Vec<usize>, V)>) -> Map<Seq<usize>, V>
    decreases s.len(),
{
    if s.len() == 0 {
        Map::empty()
    } else {
        entries_map(s.drop_last()).insert(s.last().0@, s.last().1)
    }
}

/// Every address of `m` is shorter than `h`.
pub open spec fn bounds_depth<V>(m: Map<Seq<usize>, V>, h: nat) -> bool {
    forall|k: Seq<usize>| #[trigger] m.contains_key(k) ==> k.len() < h
}

/// The order of addresses: by the first index at which they differ, and a
/// proper prefix before its extensions.
pub open spec fn address_lt(a: Seq<usize>, b: Seq<usize>) -> bool
    decreases a.len(),
{
    if a.len() == 0 {
        b.len() > 0
    } else if b.len() == 0 {
        false
    } else if a[0] != b[0] {
        a[0] < b[0]
    } else {
        address_lt(a.drop_first(), b.drop_first())
    }
}

pub proof fn lemma_address_lt_irreflexive(a: Seq<usize>)
    ensures
        !address_lt(a, a),
    decreases a.len(),
{
    if a.len() > 0 {
        lemma_address_lt_irreflexive(a.drop_first());
    }
}

pub proof fn lemma_address_lt_transitive(a: Seq<usize>, b: Seq<usize>, c: Seq<usize>)
    requires
        address_lt(a, b),
        address_lt(b, c),
    ensures
        address_lt(a, c),
    decreases a.len(),
{
    if a.len() > 0 && b.len() > 0 && c.len() > 0 && a[0] == b[0] && b[0] == c[0] {
        lemma_address_lt_transitive(a.drop_first(), b.drop_first(), c.drop_first());
    }
}

pub proof fn lemma_address_lt_total(a: Seq<usize>, b: Seq<usize>)
    requires
        a != b,
    ensures
        address_lt(a, b) || address_lt(b, a),
    decreases a.len(),
{
    if a.len() > 0 && b.len() > 0 && a[0] == b[0] {
        if a.drop_first() == b.drop_first() {
            assert(a =~= seq![a[0]] + a.drop_first());
            assert(b =~= seq![b[0]] + b.drop_first());
        }
        lemma_address_lt_total(a.drop_first(), b.drop_first());
    } else if a.len() == 0 && b.len() == 0 {
        assert(a =~= b);
    }
}

/// The entries are in strictly increasing order of address.
pub open spec fn sorted_addresses<V>(s: Seq<(Vec<usize>, V)>) -> bool {
    forall|i: int, j: int| 0 <= i < j < s.len() ==> address_lt(#[trigger] s[i].0@, #[trigger] s[j].0@)
}

proof fn lemma_sorted_distinct<V>(s: Seq<(Vec<usize>, V)>)
    requires
        sorted_addresses(s),
    ensures
        distinct_addresses(s),
{
    assert forall|i: int, j: int| 0 <= i < j < s.len() implies s[i].0@ != s[j].0@ by {
        lemma_address_lt_irreflexive(s[i].0@);
    }
}

/// Whether `a` comes before `b` in the order of addresses.
pub fn address_less(a: &Vec<usize>, b: &Vec<usize>) -> (r: bool)
    ensures
        r == address_lt(a@, b@),
{
    let mut i: usize = 0;
    assert(a@.skip(0) =~= a@);
    assert(b@.skip(0) =~= b@);
    while i < a.len() && i < b.len()
        invariant
            i <= a@.len(),
            i <= b@.len(),
            address_lt(a@, b@) == address_lt(a@.skip(i as int), b@.skip(i as int)),
        decreases a@.len() - i,
    {
        if a[i] != b[i] {
            return a[i] < b[i];
        }
        assert(a@.skip(i as int).drop_first() =~= a@.skip(i + 1));
        assert(b@.skip(i as int).drop_first() =~= b@.skip(i + 1));
        i = i + 1;
    }
    i < b.len()
}

/// No address occurs twice among the entries.
pub open spec fn distinct_addresses<V>(s: Seq<(Vec<usize>, V)>) -> bool {
    forall|i: int, j: int| 0 <= i < j < s.len() ==> s[i].0@ != s[j].0@
}

pub proof fn lemma_entries_map_domain<V>(s: Seq<(Vec<usize>, V)>, a: Seq<usize>)
    ensures
        entries_map(s).contains_key(a) <==> exists|k: int| 0 <= k < s.len() && s[k].0@ == a,
    decreases s.len(),
{
    if s.len() > 0 {
        lemma_entries_map_domain(s.drop_last(), a);
        if entries_map(s).contains_key(a) && s.last().0@ != a {
            let k = choose|k: int| 0 <= k < s.len() - 1 && s.drop_last()[k].0@ == a;
            assert(s[k].0@ == a);
        }
        if exists|k: int| 0 <= k < s.len() && s[k].0@ == a {
            let k = choose|k: int| 0 <= k < s.len() && s[k].0@ == a;
            if k < s.len() - 1 {
                assert(s.drop_last()[k].0@ == a);
            }
        }
    }
}

pub proof fn lemma_entries_map_value<V>(s: Seq<(Vec<usize>, V)>, k: int)
    requires
        distinct_addresses(s),
        0 <= k < s.len(),
    ensures
        entries_map(s).contains_key(s[k].0@),
        entries_map(s)[s[k].0@] == s[k].1,
    decreases s.len(),
{
    if k < s.len() - 1 {
        let t = s.drop_last();
        assert(t[k] == s[k]);
        lemma_entries_map_value(t, k);
    }
}

/// Whether two addresses are the same.
pub fn same_address(a: &Vec<usize>, b: &Vec<usize>) -> (r: bool)
    ensures
        r == (a@ == b@),
{
    if a.len() != b.len() {
        return false;
    }
    let mut i: usize = 0;
    while i < a.len()
        invariant
            a.len() == b.len(),
            i <= a.len(),
            forall|k: int| 0 <= k < i ==> a@[k] == b@[k],
        decreases a.len() - i,
    {
        if a[i] != b[i] {
            return false;
        }
        i = i + 1;
    }
    assert(a@ =~= b@);
    true
}

/// A map from Gorn addresses to values, kept in increasing order of address.
#[derive(Debug, PartialEq, Eq, Clone)]
pub struct GornTree<V> {
    entries: Vec<(Vec<usize>, V)>,
}

impl<V> GornTree<V> {
    /// The addresses present and the value at each.
    pub closed spec fn view(&self) -> Map<Seq<usize>, V> {
        entries_map(self.entries@)
    }

    /// The entries in traversal order.
    pub closed spec fn entry_seq(&self) -> Seq<(Vec<usize>, V)> {
        self.entries@
    }

    /// The entries are in increasing order of address, each address once.
    pub closed spec fn wf(&self) -> bool {
        sorted_addresses(self.entries@)
    }

    /// Every address present is shorter than some bound.
    pub proof fn lemma_bounded_depth(&self)
        ensures
            exists|h: nat| bounds_depth(self@, h),
    {
        lemma_entries_bounded(self.entries@);
        let h = choose|h: nat| bounds_depth(entries_map(self.entries@), h);
        assert(bounds_depth(self@, h));
    }

    /// An empty tree.
    pub fn new() -> (r: Self)
        ensures
            r.wf(),
            r@ == Map::<Seq<usize>, V>::empty(),
            r.entry_seq().len() == 0,
    {
        GornTree { entries: Vec::new() }
    }

    /// The number of addresses present.
    pub fn len(&self) -> (r: usize)
        requires
            self.wf(),
        ensures
            r == self@.len(),
            r == self.entry_seq().len(),
    {
        proof {
            lemma_sorted_distinct(self.entries@);
            self.lemma_len();
        }
        self.entries.len()
    }

    proof fn lemma_len(&self)
        requires
            self.wf(),
        ensures
            self@.dom().finite(),
            self@.len() == self.entries@.len(),
    {
        lemma_sorted_distinct(self.entries@);
        lemma_distinct_len(self.entries@);
    }

    /// The position of `address` among the entries, if it is present.
    fn position(&self, address: &Vec<usize>) -> (r: Option<usize>)
        requires
            self.wf(),
        ensures
            r.is_none() == !self@.contains_key(address@),
            r matches Some(k) ==> k < self.entries@.len() && self.entries@[k as int].0@ == address@,
    {
        proof {
            lemma_entries_map_domain(self.entries@, address@);
            lemma_sorted_distinct(self.entries@);
        }
        let mut i: usize = 0;
        while i < self.entries.len()
            invariant
                i <= self.entries@.len(),
                forall|k: int| 0 <= k < i ==> self.entries@[k].0@ != address@,
            decreases self.entries@.len() - i,
        {
            if same_address(&self.entries[i].0, address) {
                proof {
                    lemma_entries_map_domain(self.entries@, address@);
                    assert(self.entries@[i as int].0@ == address@);
                }
                return Some(i);
            }
            i = i + 1;
        }
        None
    }

    /// The value at `address`, if the address is present.
    pub fn get(&self, address: &Vec<usize>) -> (r: Option<&V>)
        requires
            self.wf(),
        ensures
            r.is_some() == self@.contains_key(address@),
            r matches Some(v) ==> *v == self@[address@],
    {
        match self.position(address) {
            Some(k) => {
                proof {
                    lemma_sorted_distinct(self.entries@);
                    lemma_entries_map_value(self.entries@, k as int);
                }
                Some(&self.entries[k].1)
            },
            None => None,
        }
    }

    /// Whether `address` is present.
    pub fn contains(&self, address: &Vec<usize>) -> (r: bool)
        requires
            self.wf(),
        ensures
            r == self@.contains_key(address@),
    {
        self.position(address).is_some()
    }

    /// Sets the value at `address`, replacing the one that was there.
    pub fn insert(&mut self, address: Vec<usize>, value: V)
        requires
            old(self).wf(),
        ensures
            final(self).wf(),
            final(self)@ == old(self)@.insert(address@, value),
    {
        let ghost s = self.entries@;
        let ghost a = address@;
        let ghost m = entries_map(s).insert(a, value);
        proof {
            lemma_sorted_distinct(s);
        }
        let mut p: usize = 0;
        while p < self.entries.len()
            invariant
                self.entries@ == s,
                sorted_addresses(s),
                distinct_addresses(s),
                a == address@,
                m == entries_map(s).insert(a, value),
                m == old(self)@.insert(address@, value),
                p <= s.len(),
                forall|k: int| 0 <= k < p ==> address_lt(#[trigger] s[k].0@, a),
            ensures
                self.entries@ == s,
                p <= s.len(),
                forall|k: int| 0 <= k < p ==> address_lt(#[trigger] s[k].0@, a),
                p < s.len() ==> address_lt(a, s[p as int].0@),
            decreases s.len() - p,
        {
            if same_address(&self.entries[p].0, &address) {
                self.entries.set(p, (address, value));
                proof {
                    let t = self.entries@;
                    let k = p as int;
                    assert(t[k].0@ == s[k].0@);
                    assert forall|i: int, j: int| 0 <= i < j < t.len() implies address_lt(
                        #[trigger] t[i].0@,
                        #[trigger] t[j].0@,
                    ) by {
                        assert(address_lt(s[i].0@, s[j].0@));
                    }
                    lemma_sorted_distinct(t);
                    assert forall|b: Seq<usize>| entries_map(t).contains_key(b) <==> #[trigger] m.contains_key(b) by {
                        lemma_entries_map_domain(s, b);
                        lemma_entries_map_domain(t, b);
                        if entries_map(s).contains_key(b) {
                            let j = choose|j: int| 0 <= j < s.len() && s[j].0@ == b;
                            assert(t[j].0@ == b);
                        }
                        if entries_map(t).contains_key(b) {
                            let j = choose|j: int| 0 <= j < t.len() && t[j].0@ == b;
                            if j != k {
                                assert(s[j].0@ == b);
                            }
                        }
                    }
                    assert forall|b: Seq<usize>| #[trigger] m.contains_key(b) implies entries_map(t)[b] == m[b] by {
                        lemma_entries_map_domain(t, b);
                        let j = choose|j: int| 0 <= j < t.len() && t[j].0@ == b;
                        lemma_entries_map_value(t, j);
                        if j != k {
                            assert(s[j] == t[j]);
                            lemma_entries_map_value(s, j);
                        }
                    }
                    assert(entries_map(t).dom() =~= m.dom());
                    assert(entries_map(t) =~= m);
                }
                return;
            }
            if address_less(&address, &self.entries[p].0) {
                break;
            }
            proof {
                lemma_address_lt_total(s[p as int].0@, a);
            }
            p = p + 1;
        }
        proof {
            assert forall|k: int| p <= k < s.len() implies address_lt(a, #[trigger] s[k].0@) by {
                if k > p {
                    lemma_address_lt_transitive(a, s[p as int].0@, s[k].0@);
                }
            }
            lemma_entries_map_domain(s, a);
            if entries_map(s).contains_key(a) {
                let j = choose|j: int| 0 <= j < s.len() && s[j].0@ == a;
                lemma_address_lt_irreflexive(a);
            }
        }
        self.entries.insert(p, (address, value));
        proof {
            let t = self.entries@;
            let q = p as int;
            assert(t[q].0@ == a);
            assert forall|i: int, j: int| 0 <= i < j < t.len() implies address_lt(
                #[trigger] t[i].0@,
                #[trigger] t[j].0@,
            ) by {
                if j < q {
                    assert(address_lt(s[i].0@, s[j].0@));
                } else if j == q {
                } else if i < q {
                    assert(t[j] == s[j - 1]);
                    lemma_address_lt_transitive(s[i].0@, a, s[j - 1].0@);
                } else if i == q {
                    assert(t[j] == s[j - 1]);
                } else {
                    assert(address_lt(s[i - 1].0@, s[j - 1].0@));
                }
            }
            lemma_sorted_distinct(t);
            assert forall|b: Seq<usize>| entries_map(t).contains_key(b) <==> #[trigger] m.contains_key(b) by {
                lemma_entries_map_domain(s, b);
                lemma_entries_map_domain(t, b);
                if entries_map(s).contains_key(b) {
                    let j = choose|j: int| 0 <= j < s.len() && s[j].0@ == b;
                    if j < q {
                        assert(t[j].0@ == b);
                    } else {
                        assert(t[j + 1].0@ == b);
                    }
                }
                if entries_map(t).contains_key(b) && b != a {
                    let j = choose|j: int| 0 <= j < t.len() && t[j].0@ == b;
                    if j < q {
                        assert(s[j].0@ == b);
                    } else if j > q {
                        assert(s[j - 1].0@ == b);
                    }
                }
            }
            assert forall|b: Seq<usize>| #[trigger] m.contains_key(b) implies entries_map(t)[b] == m[b] by {
                lemma_entries_map_domain(t, b);
                let j = choose|j: int| 0 <= j < t.len() && t[j].0@ == b;
                lemma_entries_map_value(t, j);
                if j < q {
                    assert(s[j] == t[j]);
                    lemma_entries_map_value(s, j);
                } else if j > q {
                    assert(s[j - 1] == t[j]);
                    lemma_entries_map_value(s, j - 1);
                }
            }
            assert(entries_map(t).dom() =~= m.dom());
            assert(entries_map(t) =~= m);
        }
    }

    /// The entries, in increasing order of address.
    pub fn into_entries(self) -> (r: Vec<(Vec<usize>, V)>)
        requires
            self.wf(),
        ensures
            r@ == self.entry_seq(),
            sorted_addresses(r@),
            distinct_addresses(r@),
            entries_map(r@) == self@,
    {
        proof {
            lemma_sorted_distinct(self.entries@);
        }
        self.entries
    }
}

proof fn lemma_entries_bounded<V>(s: Seq<(Vec<usize>, V)>)
    ensures
        exists|h: nat| bounds_depth(entries_map(s), h),
    decreases s.len(),
{
    if s.len() > 0 {
        lemma_entries_bounded(s.drop_last());
        let h0 = choose|h: nat| bounds_depth(entries_map(s.drop_last()), h);
        let h = h0 + s.last().0@.len() + 1;
        assert forall|k: Seq<usize>| #[trigger] entries_map(s).contains_key(k) implies k.len() < h by {
            if k != s.last().0@ {
                assert(entries_map(s.drop_last()).contains_key(k));
            }
        }
        assert(bounds_depth(entries_map(s), h));
    } else {
        assert(bounds_depth(entries_map(s), 0));
    }
}

proof fn lemma_distinct_len<V>(s: Seq<(Vec<usize>, V)>)
    requires
        distinct_addresses(s),
    ensures
        entries_map(s).dom().finite(),
        entries_map(s).len() == s.len(),
    decreases s.len(),
{
    if s.len() > 0 {
        let t = s.drop_last();
        lemma_distinct_len(t);
        lemma_entries_map_domain(t, s.last().0@);
        assert(!entries_map(t).contains_key(s.last().0@));
    }
}

} // verus!
