use rustomata::gorn::{address_less, same_address, GornTree};
use rustomata::pmcfg::VarT::{Var, T};
use rustomata::pmcfg::{evaluate, evaluate_pos, to_term, Composition, EvalError, PMCFGRule, VarT, PMCFG};

fn rule(head: &str, composition: Vec<Vec<VarT<char>>>, tail: &[&str]) -> PMCFGRule<String, char, usize> {
    PMCFGRule {
        head: String::from(head),
        tail: tail.iter().map(|s| String::from(*s)).collect(),
        composition: Composition::from(composition),
        weight: 1,
    }
}

fn pair_rule(head: &str, a: &str, b: &str) -> PMCFGRule<String, char, usize> {
    rule(head, vec![vec![Var(1, 0), Var(0, 0)], vec![Var(2, 0), Var(0, 1)]], &[head, a, b])
}

fn example_tree_map() -> GornTree<PMCFGRule<String, char, usize>> {
    let mut tree_map = GornTree::new();
    tree_map.insert(vec![], rule("S", vec![vec![Var(0, 0), Var(1, 0), Var(0, 1), Var(1, 1)]], &["A", "B"]));
    tree_map.insert(vec![0], pair_rule("A", "a", "c"));
    tree_map.insert(vec![0, 0], pair_rule("A", "a", "c"));
    tree_map.insert(vec![0, 0, 0], rule("A", vec![vec![], vec![]], &[]));
    tree_map.insert(vec![0, 0, 1], rule("a", vec![vec![T('a')]], &[]));
    tree_map.insert(vec![0, 0, 2], rule("c", vec![vec![T('c')]], &[]));
    tree_map.insert(vec![0, 1], rule("a", vec![vec![T('a')]], &[]));
    tree_map.insert(vec![0, 2], rule("c", vec![vec![T('c')]], &[]));
    tree_map.insert(vec![1], pair_rule("B", "b", "d"));
    tree_map.insert(vec![1, 0], rule("B", vec![vec![], vec![]], &[]));
    tree_map.insert(vec![1, 1], rule("b", vec![vec![T('b')]], &[]));
    tree_map.insert(vec![1, 2], rule("d", vec![vec![T('d')]], &[]));
    tree_map
}

#[test]
fn test_evaluate() {
    let tree_map = example_tree_map();
    let mut term_map = GornTree::new();

    for (address, PMCFGRule { head: _, tail: _, composition, weight: _ }) in tree_map.into_entries() {
        term_map.insert(address, composition);
    }

    let expanded_compos = Composition::from(vec![vec![T('a'), T('a'), T('b'), T('c'), T('c'), T('d')]]);

    assert_eq!(Ok(expanded_compos), evaluate(&term_map));
}

#[test]
fn test_evaluate_invalid_composition() {
    let mut term_map = GornTree::new();
    term_map.insert(vec![], Composition::from(vec![vec![Var(0, 0), Var(0, 1)]]));
    term_map.insert(vec![0], Composition::from(vec![vec![T('a')]]));

    match evaluate(&term_map) {
        Err(EvalError::ComponentOutOfRange { composition, component, successor, count }) => {
            assert_eq!(composition, Composition::from(vec![vec![Var(0, 0), Var(0, 1)]]));
            assert_eq!(component, 1);
            assert_eq!(successor, 0);
            assert_eq!(count, 1);
        },
        _ => panic!("expected a component out of range"),
    }
}

#[test]
fn evaluate_reports_missing_successor() {
    let mut term_map = GornTree::new();
    term_map.insert(vec![], Composition::from(vec![vec![T('x'), Var(1, 0)]]));
    term_map.insert(vec![0], Composition::from(vec![vec![T('a')]]));

    match evaluate(&term_map) {
        Err(EvalError::MissingAddress { address }) => assert_eq!(address, vec![1]),
        _ => panic!("expected a missing address"),
    }
}

#[test]
fn evaluate_pos_at_inner_address() {
    let mut term_map = GornTree::new();
    term_map.insert(vec![], Composition::from(vec![vec![Var(0, 1)]]));
    term_map.insert(vec![0], Composition::from(vec![vec![T('a')], vec![Var(0, 0), T('b'), Var(0, 0)]]));
    term_map.insert(vec![0, 0], Composition::from(vec![vec![T('c'), T('d')]]));

    let inner = evaluate_pos(&term_map, vec![0]).unwrap();
    assert_eq!(inner, Composition::from(vec![vec![T('a')], vec![T('c'), T('d'), T('b'), T('c'), T('d')]]));
    assert_eq!(evaluate(&term_map), Ok(Composition::from(vec![vec![T('c'), T('d'), T('b'), T('c'), T('d')]])));
}

#[test]
fn evaluate_keeps_empty_components() {
    let mut term_map = GornTree::new();
    term_map.insert(vec![], Composition::from(vec![vec![], vec![Var(0, 1), Var(0, 0)]]));
    term_map.insert(vec![0], Composition::from(vec![vec![], vec![T('z')]]));

    assert_eq!(evaluate(&term_map), Ok(Composition::from(vec![vec![], vec![T('z')]])));
}

#[test]
fn test_to_term() {
    let mut tree_map: GornTree<PMCFGRule<String, char, usize>> = GornTree::new();
    tree_map.insert(vec![], rule("A", vec![vec![Var(0, 0), T('a'), Var(0, 1), T('b')]], &["B"]));
    tree_map.insert(vec![0], rule("B", vec![vec![Var(1, 0)], vec![T('c')]], &["C"]));
    tree_map.insert(vec![0, 1], rule("C", vec![vec![], vec![]], &[]));

    let mut term_map = GornTree::new();
    term_map.insert(vec![], Composition::from(vec![vec![Var(0, 0), T('a'), Var(0, 1), T('b')]]));
    term_map.insert(vec![0], Composition::from(vec![vec![Var(1, 0)], vec![T('c')]]));
    term_map.insert(vec![0, 1], Composition::from(vec![vec![], vec![]]));

    let mut head_map = GornTree::new();
    head_map.insert(vec![], String::from("A"));
    head_map.insert(vec![0], String::from("B"));
    head_map.insert(vec![0, 1], String::from("C"));

    assert_eq!((term_map, head_map), to_term(tree_map));
}

#[test]
fn test_to_term_inverse() {
    let tree_map = example_tree_map();
    let (term_map, head_map) = to_term(tree_map.clone());
    let mut reconstructed_tree_map = GornTree::new();

    for (address, composition) in term_map.into_entries() {
        let head = head_map.get(&address).unwrap().clone();
        reconstructed_tree_map.insert(address, PMCFGRule { head, tail: vec![], composition, weight: 0 });
    }

    for (address, rule) in tree_map.into_entries() {
        let PMCFGRule { head: ref orig_head, tail: _, composition: ref orig_composition, weight: _ } = rule;
        let &PMCFGRule { ref head, tail: _, ref composition, weight: _ } = reconstructed_tree_map.get(&address).unwrap();
        assert_eq!(orig_head, head);
        assert_eq!(orig_composition, composition);
    }
}

#[test]
fn to_term_of_empty_tree() {
    let tree_map: GornTree<PMCFGRule<String, char, usize>> = GornTree::new();
    let (term_map, head_map) = to_term(tree_map);
    assert_eq!(term_map.len(), 0);
    assert_eq!(head_map.len(), 0);
}

#[test]
fn map_nonterminals_renames_head_and_tail() {
    let r = rule("A", vec![vec![Var(1, 0), T('x')]], &["B", "C"]);
    let m = r.map_nonterminals(|n: &String| n.len() + 10 * (n.as_bytes()[0] as usize));
    assert_eq!(m.head, 651);
    assert_eq!(m.tail, vec![661, 671]);
    assert_eq!(m.composition, r.composition);
    assert_eq!(m.weight, 1);
}

#[test]
fn grammar_holds_initials_and_rules() {
    let g = PMCFG { initial: vec![String::from("S")], rules: vec![rule("S", vec![vec![T('a')]], &[])] };
    assert_eq!(g.initial, vec![String::from("S")]);
    assert_eq!(g.rules.len(), 1);
    assert_eq!(g.rules[0].head, "S");
}

#[test]
fn gorn_tree_insert_replaces() {
    let mut t = GornTree::new();
    t.insert(vec![0, 1], 'a');
    t.insert(vec![], 'b');
    t.insert(vec![0, 1], 'c');
    assert_eq!(t.len(), 2);
    assert_eq!(t.get(&vec![0, 1]), Some(&'c'));
    assert_eq!(t.get(&vec![0]), None);
    assert!(t.contains(&vec![]));
    assert_eq!(t.into_entries(), vec![(vec![], 'b'), (vec![0, 1], 'c')]);
}

#[test]
fn gorn_tree_orders_by_address() {
    let mut t = GornTree::new();
    t.insert(vec![1], 1u32);
    t.insert(vec![0, 5], 2);
    t.insert(vec![0], 3);
    t.insert(vec![0, 10], 4);
    t.insert(vec![], 5);
    let addresses: Vec<Vec<usize>> = t.into_entries().into_iter().map(|(a, _)| a).collect();
    assert_eq!(addresses, vec![vec![], vec![0], vec![0, 5], vec![0, 10], vec![1]]);
    assert!(address_less(&vec![0], &vec![0, 0]));
    assert!(address_less(&vec![0, 9], &vec![1]));
    assert!(!address_less(&vec![2], &vec![2]));
    assert!(!address_less(&vec![2, 0], &vec![2]));
    assert!(same_address(&vec![3, 4], &vec![3, 4]));
    assert!(!same_address(&vec![3, 4], &vec![3]));
}
