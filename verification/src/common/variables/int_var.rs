use vstd::prelude::*;
use crate::common::domain::{at_least, at_most, full_range};
use crate::common::state::State;

verus! {

/// An integer variable with a lower and an upper bound that can be narrowed.
///
/// The variable itself never changes: it has declared bounds, and its
/// current domain is held in whatever state it is asked about.
pub trait IntVar {
    /// The least value of the declared range.
    spec fn lower(&self) -> int;

    /// The number of values of the declared range.
    spec fn width(&self) -> nat;

    /// Whether a state of these words has the storage of this variable.
    spec fn fits(&self, words: Seq<u32>) -> bool;

    /// The values that the variable may still take in a state of these words.
    spec fn values(&self, words: Seq<u32>) -> Set<int>;

    /// Whether two states of the same size agree on everything but the
    /// storage of this variable.
    spec fn same_elsewhere(&self, before: Seq<u32>, after: Seq<u32>) -> bool;

    /// In every state the domain lies within the declared range.
    proof fn lemma_values_in_range(&self, words: Seq<u32>)
        ensures
            self.values(words).subset_of(full_range(self.lower(), self.width())),
    ;

    /// The least value of the declared range.
    fn min(&self) -> (bound: i32)
        ensures
            bound == self.lower(),
    ;

    /// The number of values of the declared range.
    fn size(&self) -> (count: i32)
        ensures
            count == self.width(),
    ;

    /// The greatest value of the declared range.
    fn max(&self) -> (bound: i32)
        ensures
            bound == self.lower() + self.width() - 1,
    ;

    /// The greatest value of the domain in `state`, which must not be empty.
    fn get_domain_max<T: State>(&self, state: &T) -> (bound: i32)
        requires
            self.fits(state@),
            !self.values(state@).is_empty(),
        ensures
            self.values(state@).contains(bound as int),
            forall|v: int| self.values(state@).contains(v) ==> v <= bound,
    ;

    /// The least value of the domain in `state`, which must not be empty.
    fn get_domain_min<T: State>(&self, state: &T) -> (bound: i32)
        requires
            self.fits(state@),
            !self.values(state@).is_empty(),
        ensures
            self.values(state@).contains(bound as int),
            forall|v: int| self.values(state@).contains(v) ==> bound <= v,
    ;

    /// Removes from the domain in `state` the values above `max`, and says
    /// whether any was removed.
    fn set_max<T: State>(&self, state: &mut T, max: i32) -> (changed: bool)
        requires
            self.fits(old(state)@),
        ensures
            self.fits(final(state)@),
            self.values(final(state)@) == self.values(old(state)@).intersect(at_most(max as int)),
            self.same_elsewhere(old(state)@, final(state)@),
            changed == (self.values(final(state)@) != self.values(old(state)@)),
    ;

    /// Removes from the domain in `state` the values below `min`, and says
    /// whether any was removed.
    fn set_min<T: State>(&self, state: &mut T, min: i32) -> (changed: bool)
        requires
            self.fits(old(state)@),
        ensures
            self.fits(final(state)@),
            self.values(final(state)@) == self.values(old(state)@).intersect(at_least(min as int)),
            self.same_elsewhere(old(state)@, final(state)@),
            changed == (self.values(final(state)@) != self.values(old(state)@)),
    ;
}

} // verus!
