use rustomata::pmcfg::VarT::{Var, T};
use rustomata::pmcfg::{Composition, PMCFGRule, PMCFG};
use rustomata::text::decimal_text;

fn s(x: &str) -> String {
    String::from(x)
}

#[test]
fn decimal_numerals() {
    assert_eq!(decimal_text(0), "0");
    assert_eq!(decimal_text(7), "7");
    assert_eq!(decimal_text(10), "10");
    assert_eq!(decimal_text(4096), "4096");
    assert_eq!(decimal_text(usize::MAX), usize::MAX.to_string());
}

#[test]
fn symbol_text() {
    assert_eq!(Var::<String>(0, 12).to_text(), "Var 0 12");
    assert_eq!(T(s("a")).to_text(), "T \"a\"");
}

#[test]
fn composition_text() {
    let c = Composition::from(vec![vec![Var(0, 0), T(s("a"))], vec![], vec![Var(1, 3)]]);
    assert_eq!(c.to_text(), "[[Var 0 0, T \"a\"], [], [Var 1 3]]");
    assert_eq!(Composition::<String>::from(vec![]).to_text(), "[]");
}

#[test]
fn rule_text() {
    let r = PMCFGRule {
        head: s("A"),
        tail: vec![s("B"), s("C")],
        composition: Composition::from(vec![vec![Var(0, 0), Var(1, 0)]]),
        weight: s("1"),
    };
    assert_eq!(r.to_text(), "\"A\" → [[Var 0 0, Var 1 0]] (\"B\", \"C\")  # 1");
    let leaf = PMCFGRule { head: s("a"), tail: vec![], composition: Composition::from(vec![vec![T(s("a"))]]), weight: s("0.5") };
    assert_eq!(leaf.to_text(), "\"a\" → [[T \"a\"]] ()  # 0.5");
}

#[test]
fn grammar_text() {
    let r1 = PMCFGRule { head: s("S"), tail: vec![s("a")], composition: Composition::from(vec![vec![Var(0, 0)]]), weight: s("1") };
    let r2 = PMCFGRule { head: s("a"), tail: vec![], composition: Composition::from(vec![vec![T(s("x"))]]), weight: s("2") };
    let g = PMCFG { initial: vec![s("S"), s("T")], rules: vec![r1, r2] };
    assert_eq!(
        g.to_text(),
        "initial: [\"S\", \"T\"]\n\n\"S\" → [[Var 0 0]] (\"a\")  # 1\n\"a\" → [[T \"x\"]] ()  # 2\n"
    );
}
