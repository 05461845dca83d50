//! Text of compositions, rules and grammars whose labels are already text:
//! `Var i j` and `T "a"` for symbols, bracketed lists for compositions,
//! `"A" → [[...]] ("B", "C")  # w` for rules.
use vstd::prelude::*;

use crate::pmcfg::{Composition, PMCFGRule, VarT, PMCFG};

verus! {

/// The decimal digit `d`.
pub open spec fn digit_char(d: nat) -> char {
    if d == 0 { '0' } else if d == 1 { '1' } else if d == 2 { '2' } else if d == 3 { '3' }
    else if d == 4 { '4' } else if d == 5 { '5' } else if d == 6 { '6' } else if d == 7 { '7' }
    else if d == 8 { '8' } else { '9' }
}

/// The decimal numeral of `n`, without leading zeros.
pub open spec fn decimal(n: nat) -> Seq<char>
    decreases n,
{
    if n < 10 {
        seq![digit_char(n)]
    } else {
        decimal(n / 10).push(digit_char(n % 10))
    }
}

/// `parts` with `sep` between each two.
pub open spec fn joined(parts: Seq<Seq<char>>, sep: Seq<char>) -> Seq<char>
    decreases parts.len(),
{
    if parts.len() == 0 {
        Seq::empty()
    } else if parts.len() == 1 {
        parts[0]
    } else {
        joined(parts.drop_last(), sep) + sep + parts.last()
    }
}

/// `s` between double quotes.
pub open spec fn quoted(s: Seq<char>) -> Seq<char> {
    seq!['"'] + s + seq!['"']
}

pub open spec fn symbol_text(v: VarT<String>) -> Seq<char> {
    match v {
        VarT::Var(i, j) => seq!['V', 'a', 'r', ' '] + decimal(i as nat) + seq![' '] + decimal(j as nat),
        VarT::T(t) => seq!['T', ' '] + quoted(t@),
    }
}

pub open spec fn component_text(c: Seq<VarT<String>>) -> Seq<char> {
    seq!['['] + joined(c.map_values(|v: VarT<String>| symbol_text(v)), seq![',', ' ']) + seq![']']
}

pub open spec fn composition_text(c: Seq<Seq<VarT<String>>>) -> Seq<char> {
    seq!['['] + joined(c.map_values(|x: Seq<VarT<String>>| component_text(x)), seq![',', ' ']) + seq![']']
}

/// The labels, each quoted, separated by commas.
pub open spec fn label_list(labels: Seq<String>) -> Seq<char> {
    joined(labels.map_values(|l: String| quoted(l@)), seq![',', ' '])
}

pub open spec fn rule_text(r: PMCFGRule<String, String, String>) -> Seq<char> {
    quoted(r.head@) + seq![' ', '→', ' '] + composition_text(r.composition@) + seq![' ', '('] + label_list(r.tail@)
        + seq![')', ' ', ' ', '#', ' '] + r.weight@
}

/// The texts of the first `n` rules, each followed by a line break.
pub open spec fn rules_text(rules: Seq<PMCFGRule<String, String, String>>, n: int) -> Seq<char>
    decreases n,
{
    if n <= 0 {
        Seq::empty()
    } else {
        rules_text(rules, n - 1) + rule_text(rules[n - 1]) + seq!['\n']
    }
}

pub open spec fn grammar_text(g: PMCFG<String, String, String>) -> Seq<char> {
    seq!['i', 'n', 'i', 't', 'i', 'a', 'l', ':', ' ', '['] + label_list(g.initial@) + seq![']', '\n', '\n']
        + rules_text(g.rules@, g.rules@.len() as int)
}

fn digit_text(d: usize) -> (r: String)
    requires
        d < 10,
    ensures
        r@ == seq![digit_char(d as nat)],
{
    let s = if d == 0 { "0" } else if d == 1 { "1" } else if d == 2 { "2" } else if d == 3 { "3" }
    else if d == 4 { "4" } else if d == 5 { "5" } else if d == 6 { "6" } else if d == 7 { "7" }
    else if d == 8 { "8" } else { "9" };
    proof {
        reveal_strlit("0"); reveal_strlit("1"); reveal_strlit("2"); reveal_strlit("3"); reveal_strlit("4");
        reveal_strlit("5"); reveal_strlit("6"); reveal_strlit("7"); reveal_strlit("8"); reveal_strlit("9");
    }
    String::from_str(s)
}

/// The decimal numeral of `n`.
pub fn decimal_text(n: usize) -> (r: String)
    ensures
        r@ == decimal(n as nat),
    decreases n,
{
    if n < 10 {
        digit_text(n)
    } else {
        let mut r = decimal_text(n / 10);
        let d = digit_text(n % 10);
        r.append(d.as_str());
        r
    }
}

proof fn lemma_joined_step(parts: Seq<Seq<char>>, k: int, sep: Seq<char>)
    requires
        0 <= k < parts.len(),
    ensures
        joined(parts.take(k + 1), sep) == if k == 0 {
            parts[0]
        } else {
            joined(parts.take(k), sep) + sep + parts[k]
        },
{
    let t = parts.take(k + 1);
    assert(t.drop_last() =~= parts.take(k));
    assert(t.last() == parts[k]);
}

impl VarT<String> {
    /// `Var i j` for a reference, `T "t"` for a terminal.
    pub fn to_text(&self) -> (r: String)
        ensures
            r@ == symbol_text(*self),
    {
        proof {
            reveal_strlit("Var ");
            reveal_strlit(" ");
            reveal_strlit("T \"");
            reveal_strlit("\"");
        }
        match self {
            VarT::Var(i, j) => {
                let mut r = String::from_str("Var ");
                r.append(decimal_text(*i).as_str());
                r.append(" ");
                r.append(decimal_text(*j).as_str());
                r
            },
            VarT::T(t) => {
                let mut r = String::from_str("T \"");
                r.append(t.as_str());
                r.append("\"");
                r
            },
        }
    }
}

fn component_to_text(c: &Vec<VarT<String>>) -> (r: String)
    ensures
        r@ == component_text(c@),
{
    let ghost parts = c@.map_values(|v: VarT<String>| symbol_text(v));
    let ghost sep = seq![',', ' '];
    proof {
        reveal_strlit("[");
        reveal_strlit("]");
        reveal_strlit(", ");
    }
    let mut body = String::new();
    let mut k: usize = 0;
    assert(parts.take(0) =~= Seq::<Seq<char>>::empty());
    while k < c.len()
        invariant
            k <= c@.len(),
            parts == c@.map_values(|v: VarT<String>| symbol_text(v)),
            sep == seq![',', ' '],
            body@ == joined(parts.take(k as int), sep),
        decreases c@.len() - k,
    {
        let ghost before = body@;
        if k > 0 {
            body.append(", ");
        }
        let piece = c[k].to_text();
        body.append(piece.as_str());
        proof {
            reveal_strlit(", ");
            lemma_joined_step(parts, k as int, sep);
            assert(parts[k as int] == symbol_text(c@[k as int]));
            if k == 0 {
                assert(before =~= Seq::<char>::empty());
                assert(body@ =~= piece@);
            } else {
                assert(body@ =~= before + sep + piece@);
            }
        }
        k = k + 1;
    }
    assert(parts.take(k as int) =~= parts);
    let mut r = String::from_str("[");
    r.append(body.as_str());
    r.append("]");
    r
}

impl Composition<String> {
    /// The components in brackets, separated by commas.
    pub fn to_text(&self) -> (r: String)
        ensures
            r@ == composition_text(self@),
    {
        let c = &self.composition;
        let ghost parts = self@.map_values(|x: Seq<VarT<String>>| component_text(x));
        let ghost sep = seq![',', ' '];
        proof {
            reveal_strlit("[");
            reveal_strlit("]");
            reveal_strlit(", ");
        }
        let mut body = String::new();
        let mut k: usize = 0;
        assert(parts.take(0) =~= Seq::<Seq<char>>::empty());
        while k < c.len()
            invariant
                *c == self.composition,
                k <= c@.len(),
                parts == self@.map_values(|x: Seq<VarT<String>>| component_text(x)),
                sep == seq![',', ' '],
                body@ == joined(parts.take(k as int), sep),
            decreases c@.len() - k,
        {
            let ghost before = body@;
            if k > 0 {
                body.append(", ");
            }
            let piece = component_to_text(&c[k]);
            body.append(piece.as_str());
            proof {
                reveal_strlit(", ");
                lemma_joined_step(parts, k as int, sep);
                assert(parts[k as int] == component_text(self@[k as int]));
                if k == 0 {
                    assert(before =~= Seq::<char>::empty());
                    assert(body@ =~= piece@);
                } else {
                    assert(body@ =~= before + sep + piece@);
                }
            }
            k = k + 1;
        }
        assert(parts.take(k as int) =~= parts);
        let mut r = String::from_str("[");
        r.append(body.as_str());
        r.append("]");
        r
    }
}

fn quoted_text(s: &String) -> (r: String)
    ensures
        r@ == quoted(s@),
{
    proof {
        reveal_strlit("\"");
    }
    let mut r = String::from_str("\"");
    r.append(s.as_str());
    r.append("\"");
    r
}

fn label_list_text(labels: &Vec<String>) -> (r: String)
    ensures
        r@ == label_list(labels@),
{
    let ghost parts = labels@.map_values(|l: String| quoted(l@));
    let ghost sep = seq![',', ' '];
    proof {
        reveal_strlit(", ");
    }
    let mut body = String::new();
    let mut k: usize = 0;
    assert(parts.take(0) =~= Seq::<Seq<char>>::empty());
    while k < labels.len()
        invariant
            k <= labels@.len(),
            parts == labels@.map_values(|l: String| quoted(l@)),
            sep == seq![',', ' '],
            body@ == joined(parts.take(k as int), sep),
        decreases labels@.len() - k,
    {
        let ghost before = body@;
        if k > 0 {
            body.append(", ");
        }
        let piece = quoted_text(&labels[k]);
        body.append(piece.as_str());
        proof {
            reveal_strlit(", ");
            lemma_joined_step(parts, k as int, sep);
            assert(parts[k as int] == quoted(labels@[k as int]@));
            if k == 0 {
                assert(before =~= Seq::<char>::empty());
                assert(body@ =~= piece@);
            } else {
                assert(body@ =~= before + sep + piece@);
            }
        }
        k = k + 1;
    }
    assert(parts.take(k as int) =~= parts);
    body
}

impl PMCFGRule<String, String, String> {
    /// `"head" → composition (tail)  # weight`, with each label quoted.
    pub fn to_text(&self) -> (r: String)
        ensures
            r@ == rule_text(*self),
    {
        proof {
            reveal_strlit(" → ");
            reveal_strlit(" (");
            reveal_strlit(")  # ");
        }
        let mut r = quoted_text(&self.head);
        r.append(" → ");
        r.append(self.composition.to_text().as_str());
        r.append(" (");
        r.append(label_list_text(&self.tail).as_str());
        r.append(")  # ");
        r.append(self.weight.as_str());
        r
    }
}

impl PMCFG<String, String, String> {
    /// `initial: [...]`, a blank line, then each rule on a line of its own.
    pub fn to_text(&self) -> (r: String)
        ensures
            r@ == grammar_text(*self),
    {
        proof {
            reveal_strlit("initial: [");
            reveal_strlit("]\n\n");
            reveal_strlit("\n");
        }
        let mut r = String::from_str("initial: [");
        r.append(label_list_text(&self.initial).as_str());
        r.append("]\n\n");
        let ghost head = r@;
        let mut k: usize = 0;
        while k < self.rules.len()
            invariant
                k <= self.rules@.len(),
                r@ == head + rules_text(self.rules@, k as int),
            decreases self.rules@.len() - k,
        {
            let ghost before = r@;
            let line = self.rules[k].to_text();
            r.append(line.as_str());
            r.append("\n");
            proof {
                reveal_strlit("\n");
            }
            assert(rules_text(self.rules@, k + 1) == rules_text(self.rules@, k as int) + rule_text(self.rules@[k as int])
                + seq!['\n']);
            k = k + 1;
            assert(r@ =~= head + rules_text(self.rules@, k as int));
        }
        r
    }
}

} // verus!
