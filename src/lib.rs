//! Weighted-grammar core: approximation strategies between automaton
//! storages, and the evaluation of derivation trees of rule compositions.

pub mod approximation;
pub mod gorn;
pub mod pmcfg;
pub mod ptk;
pub mod push_down;
pub mod text;
pub mod tree_stack;
pub mod tts;
