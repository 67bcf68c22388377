use vstd::prelude::*;
use crate::common::bits::{
    bit, lemma_bit_within, lemma_field_bound, lemma_field_rewrite, lemma_some_bit, low_mask,
    low_mask_of,
};
use crate::common::domain::{
    ascending, at_least, at_most, field_values, lemma_ascending_has, lemma_ascending_sorted,
    lemma_ascending_step, lemma_field_values_all,
    lemma_field_values_and, lemma_field_values_bounded, lemma_field_values_differ,
    lemma_field_values_high, lemma_field_values_low, lemma_field_values_none,
    lemma_field_values_not, lemma_field_values_single, lemma_mask_values_first_word, mask_values,
};
use crate::common::state::{
    apart, domain_at, lemma_domain_elsewhere, lemma_domain_round_trip, put_domain, State,
};
use crate::common::state_ref::StateRef;
use crate::common::text::join_ints;
use crate::common::variables::int_domain_var::IntDomainVar;
use crate::common::variables::int_var::IntVar;

verus! {

/// A variable whose domain is a set of at most 32 consecutive integers, held
/// in a state as a bit mask within one word: bit `i` of the mask is set while
/// the value `min + i` is in the domain.
pub struct IntSmallDomainVar {
    state_ref: StateRef,
    min: i32,
    size: u8,
}

/// Whether a variable of these bounds can be stored at `state_ref`: the mask
/// lies within one word and every bound is a 32-bit integer.
pub open spec fn can_define(state_ref: StateRef, min: i32, size: u8) -> bool {
    &&& state_ref.offset + size <= 32
    &&& i32::MIN <= min + size - 1 <= i32::MAX
}

impl IntSmallDomainVar {
    /// Where the mask of this variable is stored.
    pub closed spec fn location(&self) -> StateRef {
        self.state_ref
    }

    /// The mask of this variable in a state of these words.
    pub open spec fn mask(&self, words: Seq<u32>) -> u32 {
        domain_at(words, self.location(), self.width() as u32)
    }

    /// What every variable obtained from `new` satisfies.
    pub open spec fn well_formed(&self) -> bool {
        &&& self.width() <= 32
        &&& self.location().offset + self.width() <= 32
        &&& i32::MIN <= self.lower() + self.width() - 1 <= i32::MAX
        &&& i32::MIN <= self.lower()
    }

    #[verifier::type_invariant]
    spec fn inv(&self) -> bool {
        self.well_formed()
    }

    /// The variable with the range `min, ..., min + size - 1` whose mask is
    /// stored at `state_ref`, if there is one.
    pub fn new(state_ref: StateRef, min: i32, size: u8) -> (var: Option<IntSmallDomainVar>)
        ensures
            var is Some <==> can_define(state_ref, min, size),
            var matches Some(v) ==> {
                &&& v.location() == state_ref
                &&& v.lower() == min
                &&& v.width() == size
                &&& v.well_formed()
            },
    {
        let end: u16 = state_ref.offset as u16 + size as u16;
        let max: i64 = min as i64 + size as i64 - 1;
        if end <= 32 && i32::MIN as i64 <= max && max <= i32::MAX as i64 {
            Some(IntSmallDomainVar { state_ref, min, size })
        } else {
            None
        }
    }

    /// The mask of this variable in `state`.
    pub fn get_domain<T: State>(&self, state: &T) -> (mask: u32)
        requires
            self.fits(state@),
        ensures
            mask == self.mask(state@),
    {
        proof {
            use_type_invariant(self);
        }
        state.get_domain(&self.state_ref, self.size as u32)
    }

    /// Narrows the domain in `state` to the values that `domain` has a bit
    /// for, and says whether any value was removed.
    pub fn set_domain<T: State>(&self, state: &mut T, domain: u32) -> (changed: bool)
        requires
            self.fits(old(state)@),
        ensures
            final(state)@ == put_domain(
                old(state)@,
                self.location(),
                self.width() as u32,
                self.mask(old(state)@) & domain,
            ),
            self.mask(final(state)@) == self.mask(old(state)@) & domain,
            changed == (self.mask(final(state)@) != self.mask(old(state)@)),
            self.fits(final(state)@),
            self.same_elsewhere(old(state)@, final(state)@),
            self.values(final(state)@) == self.values(old(state)@).intersect(
                field_values(domain, self.lower(), self.width()),
            ),
            changed == (self.values(final(state)@) != self.values(old(state)@)),
    {
        proof {
            use_type_invariant(self);
        }
        let old_domain = state.get_domain(&self.state_ref, self.size as u32);
        let new_domain = domain & old_domain;
        proof {
            let size = self.size as u32;
            self.lemma_mask_bound(state@);
            assert(new_domain <= low_mask(size) && new_domain == old_domain & domain)
                by (bit_vector)
                requires
                    new_domain == domain & old_domain,
                    old_domain <= low_mask(size),
            ;
            lemma_domain_round_trip(state@, self.state_ref, size, new_domain);
            lemma_field_rewrite(
                state@[self.state_ref.idx as int],
                self.state_ref.offset as u32,
                size,
            );
            lemma_field_values_and(old_domain, domain, self.lower(), self.width());
            if old_domain != new_domain {
                lemma_field_values_differ(new_domain, old_domain, self.lower(), self.width());
            }
        }
        if old_domain != new_domain {
            state.set_domain(&self.state_ref, self.size as u32, new_domain);
            true
        } else {
            assert(state@ =~= put_domain(state@, self.state_ref, self.size as u32, new_domain));
            false
        }
    }

    /// Narrowing a variable, or setting it anew, leaves the domain of every
    /// variable that shares no bit with it, be it in the same word or in
    /// another.
    pub proof fn lemma_apart_unchanged(
        &self,
        other: &IntSmallDomainVar,
        before: Seq<u32>,
        after: Seq<u32>,
    )
        requires
            self.well_formed(),
            other.well_formed(),
            self.fits(before),
            other.fits(before),
            apart(
                self.location(),
                self.width() as u32,
                other.location(),
                other.width() as u32,
            ),
            self.same_elsewhere(before, after),
        ensures
            other.fits(after),
            other.mask(after) == other.mask(before),
            other.values(after) == other.values(before),
    {
        let mask = choose|mask: u32|
            mask <= low_mask(self.width() as u32) && after == #[trigger] put_domain(
                before,
                self.location(),
                self.width() as u32,
                mask,
            );
        lemma_domain_elsewhere(
            before,
            self.location(),
            self.width() as u32,
            mask,
            other.location(),
            other.width() as u32,
        );
    }

    /// The mask of a variable has no bit set beyond its width.
    proof fn lemma_mask_bound(&self, words: Seq<u32>)
        ensures
            self.mask(words) <= low_mask(self.width() as u32),
    {
        lemma_field_bound(
            words[self.location().idx as int],
            self.location().offset as u32,
            self.width() as u32,
        );
    }

    /// A state agrees with itself on everything but this variable.
    proof fn lemma_same_elsewhere_refl(&self, words: Seq<u32>)
        requires
            self.well_formed(),
            self.fits(words),
        ensures
            self.same_elsewhere(words, words),
    {
        self.lemma_mask_bound(words);
        lemma_field_rewrite(
            words[self.location().idx as int],
            self.location().offset as u32,
            self.width() as u32,
        );
        assert(words =~= put_domain(
            words,
            self.location(),
            self.width() as u32,
            self.mask(words),
        ));
    }
}

impl IntVar for IntSmallDomainVar {
    closed spec fn lower(&self) -> int {
        self.min as int
    }

    closed spec fn width(&self) -> nat {
        self.size as nat
    }

    open spec fn fits(&self, words: Seq<u32>) -> bool {
        self.location().idx < words.len()
    }

    open spec fn values(&self, words: Seq<u32>) -> Set<int> {
        field_values(self.mask(words), self.lower(), self.width())
    }

    open spec fn same_elsewhere(&self, before: Seq<u32>, after: Seq<u32>) -> bool {
        exists|mask: u32|
            mask <= low_mask(self.width() as u32) && after == #[trigger] put_domain(
                before,
                self.location(),
                self.width() as u32,
                mask,
            )
    }

    proof fn lemma_values_in_range(&self, words: Seq<u32>) {
        lemma_field_values_bounded(self.mask(words), self.lower(), self.width());
    }

    fn min(&self) -> (bound: i32) {
        self.min
    }

    fn size(&self) -> (count: i32) {
        self.size as i32
    }

    fn max(&self) -> (bound: i32) {
        proof {
            use_type_invariant(self);
        }
        (self.min as i64 + self.size as i64 - 1) as i32
    }

    fn get_domain_max<T: State>(&self, state: &T) -> (bound: i32) {
        proof {
            use_type_invariant(self);
        }
        let pos = state.get_domain_max(&self.state_ref, self.size as u32);
        proof {
            let mask = self.mask(state@);
            self.lemma_mask_bound(state@);
            if mask == 0 {
                lemma_field_values_none(self.lower(), self.width());
            }
            lemma_bit_within(mask, self.size as u32, pos as u32);
            assert(self.values(state@).contains(self.min + pos));
        }
        self.min + pos
    }

    fn get_domain_min<T: State>(&self, state: &T) -> (bound: i32) {
        proof {
            use_type_invariant(self);
        }
        let pos = state.get_domain_min(&self.state_ref, self.size as u32);
        proof {
            let mask = self.mask(state@);
            self.lemma_mask_bound(state@);
            if mask == 0 {
                lemma_field_values_none(self.lower(), self.width());
            }
            lemma_bit_within(mask, self.size as u32, pos as u32);
            assert(self.values(state@).contains(self.min + pos));
        }
        self.min + pos
    }

    fn set_max<T: State>(&self, state: &mut T, max: i32) -> (changed: bool) {
        proof {
            use_type_invariant(self);
        }
        let ghost before = state@;
        proof {
            self.lemma_values_in_range(before);
        }
        if max as i64 >= self.min as i64 + self.size as i64 - 1 {
            proof {
                self.lemma_same_elsewhere_refl(before);
                assert(self.values(before) =~= self.values(before).intersect(at_most(max as int)));
            }
            false
        } else if max < self.min {
            let changed = self.set_domain(state, 0);
            proof {
                lemma_field_values_none(self.lower(), self.width());
                assert(self.values(state@) =~= self.values(before).intersect(at_most(max as int)));
            }
            changed
        } else {
            let count = (max - self.min + 1) as u32;
            assert((1u32 << count) >= 1) by (bit_vector)
                requires
                    count < 32,
            ;
            let mask: u32 = (1u32 << count) - 1;
            let changed = self.set_domain(state, mask);
            proof {
                lemma_field_values_low(count, self.lower(), self.width());
                assert(self.values(state@) =~= self.values(before).intersect(at_most(max as int)));
            }
            changed
        }
    }

    fn set_min<T: State>(&self, state: &mut T, min: i32) -> (changed: bool) {
        proof {
            use_type_invariant(self);
        }
        let ghost before = state@;
        proof {
            self.lemma_values_in_range(before);
        }
        if min <= self.min {
            proof {
                self.lemma_same_elsewhere_refl(before);
                assert(self.values(before) =~= self.values(before).intersect(at_least(min as int)));
            }
            false
        } else if min as i64 >= self.min as i64 + self.size as i64 {
            let changed = self.set_domain(state, 0);
            proof {
                lemma_field_values_none(self.lower(), self.width());
                assert(self.values(state@) =~= self.values(before).intersect(at_least(min as int)));
            }
            changed
        } else {
            let count = (min - self.min) as u32;
            assert((1u32 << count) >= 1) by (bit_vector)
                requires
                    count < 32,
            ;
            let mask: u32 = !((1u32 << count) - 1);
            let changed = self.set_domain(state, mask);
            proof {
                lemma_field_values_high(count, self.lower(), self.width());
                assert(self.values(state@) =~= self.values(before).intersect(at_least(min as int)));
            }
            changed
        }
    }
}

impl IntDomainVar for IntSmallDomainVar {
    fn initialise<T: State>(&self, state: &mut T) {
        proof {
            use_type_invariant(self);
            lemma_domain_round_trip(
                state@,
                self.state_ref,
                self.size as u32,
                low_mask(self.size as u32),
            );
            lemma_field_values_all(self.lower(), self.width());
        }
        state.set_domain(&self.state_ref, self.size as u32, low_mask_of(self.size as u32))
    }

    fn is_instantiated<T: State>(&self, state: &T) -> (single: bool) {
        proof {
            use_type_invariant(self);
        }
        let dom = state.get_domain(&self.state_ref, self.size as u32);
        proof {
            self.lemma_mask_bound(state@);
            lemma_field_values_single(dom, self.lower(), self.width());
        }
        dom != 0 && (dom & (dom - 1)) == 0
    }

    fn is_empty<T: State>(&self, state: &T) -> (empty: bool) {
        proof {
            use_type_invariant(self);
        }
        let dom = state.get_domain(&self.state_ref, self.size as u32);
        proof {
            self.lemma_mask_bound(state@);
            if dom == 0 {
                lemma_field_values_none(self.lower(), self.width());
            } else {
                let i = lemma_some_bit(dom);
                lemma_bit_within(dom, self.size as u32, i);
                assert(self.values(state@).contains(self.lower() + i));
            }
        }
        dom == 0
    }

    fn pretty_domain<T: State>(&self, state: &T) -> (text: String) {
        let listing = self.enumerate_domain(state);
        join_ints(&listing)
    }

    fn get_domain<T: State>(&self, state: &T) -> (domain: (Vec<u32>, i32, u32)) {
        proof {
            use_type_invariant(self);
        }
        let mask = self.get_domain(state);
        let words = vec![mask];
        proof {
            self.lemma_mask_bound(state@);
            assert(words@ =~= seq![mask]);
            assert forall|v: int| #[trigger]
                mask_values(words@, self.lower()).contains(v) == self.values(state@).contains(
                    v,
                ) by {
                if self.lower() <= v < self.lower() + 32 {
                    let i = v - self.lower();
                    assert(i / 32 == 0 && i % 32 == i);
                    if bit(mask, i as u32) {
                        lemma_bit_within(mask, self.size as u32, i as u32);
                    }
                }
            }
            assert(mask_values(words@, self.lower()) =~= self.values(state@));
        }
        (words, self.min, self.size as u32)
    }

    fn set_domain<T: State>(&self, state: &mut T, domain: Vec<u32>) -> (changed: bool) {
        proof {
            use_type_invariant(self);
            self.lemma_values_in_range(state@);
            lemma_mask_values_first_word(domain@, self.lower(), self.width());
        }
        let ghost before = state@;
        let changed = self.set_domain(state, domain[0]);
        assert(self.values(state@) =~= self.values(before).intersect(
            mask_values(domain@, self.lower()),
        ));
        changed
    }

    fn domain_minus<T: State>(&self, state: &mut T, domain: Vec<u32>) -> (changed: bool) {
        proof {
            use_type_invariant(self);
            self.lemma_values_in_range(state@);
            lemma_mask_values_first_word(domain@, self.lower(), self.width());
            lemma_field_values_not(domain@[0], self.lower(), self.width());
        }
        let ghost before = state@;
        let changed = self.set_domain(state, !domain[0]);
        assert(self.values(state@) =~= self.values(before).difference(
            mask_values(domain@, self.lower()),
        ));
        changed
    }

    fn enumerate_domain<T: State>(&self, state: &T) -> (listing: Vec<i32>) {
        proof {
            use_type_invariant(self);
        }
        let mut result: Vec<i32> = Vec::new();
        let dom = state.get_domain(&self.state_ref, self.size as u32);
        let ghost values = self.values(state@);
        let mut i: u8 = 0;
        proof {
            assert(ascending(values, self.lower(), 0) =~= Seq::<i32>::empty()) by {
                reveal(Seq::filter);
            }
        }
        while i < self.size
            invariant
                i <= self.size,
                self.well_formed(),
                self.lower() == self.min,
                self.width() == self.size,
                values == field_values(dom, self.lower(), self.width()),
                result@ == ascending(values, self.lower(), i as nat),
            decreases self.size - i,
        {
            proof {
                lemma_ascending_step(values, self.lower(), i as nat);
            }
            if (dom >> (i as u32)) & 1 == 1 {
                result.push(self.min + i as i32);
            }
            i += 1;
        }
        proof {
            lemma_ascending_sorted(values, self.lower(), self.width());
            self.lemma_values_in_range(state@);
            assert forall|v: i32| result@.contains(v) <==> values.contains(v as int) by {
                lemma_ascending_has(values, self.lower(), self.width(), v);
            }
        }
        result
    }
}

} // verus!
