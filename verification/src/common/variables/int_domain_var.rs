use vstd::prelude::*;
use crate::common::domain::{ascending, full_range, mask_values, mask_words};
use crate::common::state::State;
use crate::common::text::joined;
use crate::common::variables::int_var::IntVar;

verus! {

/// An integer variable whose domain may have holes: any value of the
/// declared range can be removed from it, not only those at its ends.
pub trait IntDomainVar: IntVar {
    /// Makes the domain in `state` the whole declared range.
    fn initialise<T: State>(&self, state: &mut T)
        requires
            self.fits(old(state)@),
        ensures
            self.fits(final(state)@),
            self.values(final(state)@) == full_range(self.lower(), self.width()),
            self.same_elsewhere(old(state)@, final(state)@),
    ;

    /// Whether exactly one value is left in the domain in `state`.
    fn is_instantiated<T: State>(&self, state: &T) -> (single: bool)
        requires
            self.fits(state@),
        ensures
            single == (self.values(state@).len() == 1),
    ;

    /// Whether no value is left in the domain in `state`.
    fn is_empty<T: State>(&self, state: &T) -> (empty: bool)
        requires
            self.fits(state@),
        ensures
            empty == self.values(state@).is_empty(),
    ;

    /// The values of the domain in `state`, in ascending order, written in
    /// decimal with a comma and a space between one and the next.
    fn pretty_domain<T: State>(&self, state: &T) -> (text: String)
        requires
            self.fits(state@),
        ensures
            text@ == joined(ascending(self.values(state@), self.lower(), self.width())),
    ;

    /// The domain in `state` as a bit mask of as many words as the declared
    /// range needs, with the least value and the number of values of that
    /// range: bit `i` of the mask, counted through its words, stands for the
    /// least value plus `i`.
    fn get_domain<T: State>(&self, state: &T) -> (domain: (Vec<u32>, i32, u32))
        requires
            self.fits(state@),
        ensures
            domain.0@.len() == mask_words(self.width()),
            mask_values(domain.0@, self.lower()) == self.values(state@),
            domain.1 == self.lower(),
            domain.2 == self.width(),
    ;

    /// Removes from the domain in `state` the values that the bit mask
    /// `domain` has no bit set for, and says whether any was removed.
    fn set_domain<T: State>(&self, state: &mut T, domain: Vec<u32>) -> (changed: bool)
        requires
            self.fits(old(state)@),
            domain@.len() > 0,
        ensures
            self.fits(final(state)@),
            self.values(final(state)@) == self.values(old(state)@).intersect(
                mask_values(domain@, self.lower()),
            ),
            self.same_elsewhere(old(state)@, final(state)@),
            changed == (self.values(final(state)@) != self.values(old(state)@)),
    ;

    /// Removes from the domain in `state` the values that the bit mask
    /// `domain` has a bit set for, and says whether any was removed.
    fn domain_minus<T: State>(&self, state: &mut T, domain: Vec<u32>) -> (changed: bool)
        requires
            self.fits(old(state)@),
            domain@.len() > 0,
        ensures
            self.fits(final(state)@),
            self.values(final(state)@) == self.values(old(state)@).difference(
                mask_values(domain@, self.lower()),
            ),
            self.same_elsewhere(old(state)@, final(state)@),
            changed == (self.values(final(state)@) != self.values(old(state)@)),
    ;

    /// The values of the domain in `state`, each once, in ascending order.
    fn enumerate_domain<T: State>(&self, state: &T) -> (listing: Vec<i32>)
        requires
            self.fits(state@),
        ensures
            listing@ == ascending(self.values(state@), self.lower(), self.width()),
            forall|i: int, j: int| 0 <= i < j < listing@.len() ==> listing@[i] < listing@[j],
            forall|v: i32| listing@.contains(v) <==> self.values(state@).contains(v as int),
    ;
}

} // verus!
