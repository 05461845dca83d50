use rustomata::approximation::ApproximationStrategy;
use rustomata::ptk::PDTopKElement;
use rustomata::push_down::{PushDown, PushDownInstruction};
use rustomata::tree_stack::TreeStack;
use rustomata::tts::{TTSElement, TreeStackInstruction};

#[test]
fn top_k_rejects_zero() {
    assert!(PDTopKElement::<u32>::new(0).is_none());
    assert_eq!(PDTopKElement::<u32>::new(3).unwrap().size(), 3);
}

#[test]
fn top_k_keeps_topmost_symbols() {
    let strategy = PDTopKElement::new(3).unwrap();
    let storage = PushDown::from_vec(vec![0u32, 1, 2, 3, 4]);
    let approx = strategy.approximate_storage(storage);
    assert_eq!(approx.elements(), &vec![0, 3, 4]);
    assert_eq!(*approx.empty(), 0);
    assert!(approx.height() <= 3);
}

#[test]
fn top_k_short_stack_keeps_all() {
    let strategy = PDTopKElement::new(5).unwrap();
    let approx = strategy.approximate_storage(PushDown::new(7u32, 0));
    assert_eq!(approx.elements(), &vec![0, 0, 7]);
    assert_eq!(*approx.empty(), 0);
}

#[test]
fn top_k_size_one_is_only_marker() {
    let strategy = PDTopKElement::new(1).unwrap();
    let approx = strategy.approximate_storage(PushDown::from_vec(vec![9u32, 1, 2]));
    assert_eq!(approx.elements(), &vec![9]);
}

#[test]
fn top_k_instruction_gets_bound() {
    let strategy = PDTopKElement::new(4).unwrap();
    let replace = PushDownInstruction::Replace { current_val: vec![1u32], new_val: vec![1, 2] };
    assert_eq!(
        strategy.approximate_instruction(&replace),
        PushDownInstruction::ReplaceK { current_val: vec![1], new_val: vec![1, 2], limit: 4 }
    );
    let bounded = PushDownInstruction::ReplaceK { current_val: vec![3u32, 4], new_val: vec![], limit: 9 };
    assert_eq!(
        strategy.approximate_instruction(&bounded),
        PushDownInstruction::ReplaceK { current_val: vec![3, 4], new_val: vec![], limit: 4 }
    );
}

#[test]
fn tree_stack_path_linearizes() {
    let ts = TreeStack::new(10u32).push(11).push(12).push(13);
    assert_eq!(*ts.current_symbol(), 13);
    let approx = TTSElement::new().approximate_storage(ts);
    assert_eq!(approx.elements(), &vec![10, 11, 12, 13]);
    assert_eq!(approx.height(), 4);
    assert_eq!(*approx.empty(), 10);
}

#[test]
fn tree_stack_branches_are_not_seen() {
    let ts = TreeStack::new(1u32).push(2).push(3);
    let ts = match ts.down() {
        Ok(t) => t,
        Err(_) => panic!("expected a parent"),
    };
    let ts = ts.push(4);
    let approx = TTSElement::new().approximate_storage(ts);
    assert_eq!(approx.elements(), &vec![1, 2, 4]);
}

#[test]
fn tree_stack_down_at_root_fails() {
    let ts = TreeStack::new(5u32);
    assert!(ts.down().is_err());
    let approx = TTSElement::new().approximate_storage(TreeStack::new(5u32));
    assert_eq!(approx.elements(), &vec![5]);
}

#[test]
fn up_and_push_instruction_mapping() {
    let strategy = TTSElement::new();
    let expected = PushDownInstruction::Replace { current_val: vec![1u32], new_val: vec![1, 2] };
    assert_eq!(strategy.approximate_instruction(&TreeStackInstruction::Up { current_val: 1, new_val: 2 }), expected);
    assert_eq!(strategy.approximate_instruction(&TreeStackInstruction::Push { current_val: 1, new_val: 2 }), expected);
}

#[test]
fn down_instruction_mapping() {
    let strategy = TTSElement::new();
    assert_eq!(
        strategy.approximate_instruction(&TreeStackInstruction::Down { current_val: 3u32, old_val: 4, new_val: 5 }),
        PushDownInstruction::Replace { current_val: vec![3, 4], new_val: vec![5] }
    );
}

fn through_trait<S: ApproximationStrategy>(strategy: &S, storage: S::S1, instr: &S::I1) -> (S::S2, S::I2) {
    (strategy.approximate_storage(storage), strategy.approximate_instruction(instr))
}

#[test]
fn strategies_through_the_trait() {
    let top_k = PDTopKElement::new(2).unwrap();
    let (storage, instr) = through_trait(
        &top_k,
        PushDown::from_vec(vec![0u32, 5, 6]),
        &PushDownInstruction::Replace { current_val: vec![6], new_val: vec![] },
    );
    assert_eq!(storage.elements(), &vec![0, 6]);
    assert_eq!(instr, PushDownInstruction::ReplaceK { current_val: vec![6], new_val: vec![], limit: 2 });

    let tts = TTSElement::new();
    let (storage, instr) = through_trait(
        &tts,
        TreeStack::new(1u32).push(2),
        &TreeStackInstruction::Down { current_val: 2, old_val: 1, new_val: 3 },
    );
    assert_eq!(storage.elements(), &vec![1, 2]);
    assert_eq!(instr, PushDownInstruction::Replace { current_val: vec![2, 1], new_val: vec![3] });
}
