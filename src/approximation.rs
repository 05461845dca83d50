//! The abstraction shared by approximation strategies: a map from the
//! storages and instructions of one automaton model to those of another.
use vstd::prelude::*;

verus! {

/// A strategy that approximates storages of type `S1` and instructions of
/// type `I1` by storages of type `S2` and instructions of type `I2`. The
/// strategy holds no mutable state.
pub trait ApproximationStrategy {
    type S1;
    type S2;
    type I1;
    type I2;

    /// Whether `s` is a storage that the strategy can approximate.
    spec fn admits(&self, s: Self::S1) -> bool;

    /// Whether `r` is the approximation of the storage `s`.
    spec fn storage_image(&self, s: Self::S1, r: Self::S2) -> bool;

    /// Whether `r` is the approximation of the instruction `i`.
    spec fn instruction_image(&self, i: Self::I1, r: Self::I2) -> bool;

    fn approximate_storage(&self, s: Self::S1) -> (r: Self::S2)
        requires
            self.admits(s),
        ensures
            self.storage_image(s, r),
    ;

    fn approximate_instruction(&self, i: &Self::I1) -> (r: Self::I2)
        ensures
            self.instruction_image(*i, r),
    ;
}

} // verus!
