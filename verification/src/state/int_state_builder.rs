use vstd::prelude::*;
use crate::common::state_builder::{
    has_room, placed_first_fit, placed_in_new_words, whole_words, StateBuilder,
};
use crate::common::state_ref::StateRef;
use crate::state::int_state::IntState;

verus! {

/// Lays out states held as vectors of words.
pub struct IntStateBuilder {
    map: Vec<u8>,
}

impl Default for IntStateBuilder {
    fn default() -> (builder: Self)
        ensures
            builder.used() == Seq::<u8>::empty(),
    {
        Self { map: Vec::new() }
    }
}

impl IntStateBuilder {
    /// Allocates a field of `size` bits by first fit. This is the way of
    /// `add_domain` for a field shorter than a word; a field longer than a
    /// word has room in none and gets a new word all the same.
    pub fn add_small_domain(&mut self, size: u8) -> (at: StateRef)
        ensures
            placed_first_fit(old(self).used(), size, at, final(self).used()),
    {
        let n = self.map.len();
        let mut i: usize = 0;
        while i < n
            invariant
                n == self.map@.len(),
                self.map@ == old(self).map@,
                i <= n,
                forall|j: int| 0 <= j < i ==> !has_room(self.map@, size, j),
            decreases n - i,
        {
            let taken = self.map[i];
            if taken <= 32 && size <= 32 - taken {
                self.map[i] = taken + size;
                return StateRef { idx: i, offset: taken };
            }
            i += 1;
        }
        self.map.push(size);
        StateRef { idx: n, offset: 0 }
    }

    /// Allocates a field of `size` bits in new words of its own. This is the
    /// way of `add_domain` for a field of a word or more.
    pub fn add_large_domain(&mut self, size: u16) -> (at: StateRef)
        ensures
            placed_in_new_words(old(self).used(), whole_words(size), at, final(self).used()),
    {
        let full: u16 = size / 32;
        let rest: u8 = (size % 32) as u8;
        let at = StateRef { idx: self.map.len(), offset: 0 };
        let mut i: u16 = 0;
        while i < full
            invariant
                i <= full,
                self.map@ == old(self).map@ + Seq::new(i as nat, |k: int| 32u8),
            decreases full - i,
        {
            self.map.push(32);
            i += 1;
        }
        if rest != 0 {
            self.map.push(rest);
        }
        at
    }
}

impl StateBuilder<IntState> for IntStateBuilder {
    closed spec fn used(&self) -> Seq<u8> {
        self.map@
    }

    fn add_domain(&mut self, size: u16) -> (at: StateRef) {
        if size < 32 {
            self.add_small_domain(size as u8)
        } else {
            self.add_large_domain(size)
        }
    }

    fn add_int(&mut self) -> (at: StateRef) {
        let idx: usize = self.map.len();
        self.map.push(32);
        assert(self.map@ =~= old(self).map@ + seq![32u8]);
        StateRef { idx, offset: 0 }
    }

    fn add_double(&mut self) -> (at: StateRef) {
        let idx: usize = self.map.len();
        self.map.push(32);
        self.map.push(32);
        assert(self.map@ =~= old(self).map@ + seq![32u8, 32u8]);
        StateRef { idx, offset: 0 }
    }

    fn add_float(&mut self) -> (at: StateRef) {
        let idx: usize = self.map.len();
        self.map.push(32);
        assert(self.map@ =~= old(self).map@ + seq![32u8]);
        StateRef { idx, offset: 0 }
    }

    fn add_long(&mut self) -> (at: StateRef) {
        let idx: usize = self.map.len();
        self.map.push(32);
        self.map.push(32);
        assert(self.map@ =~= old(self).map@ + seq![32u8, 32u8]);
        StateRef { idx, offset: 0 }
    }

    fn get_state(&self) -> (state: IntState) {
        IntState { data: vec![0u32; self.map.len()] }
    }

    fn get_size(&self) -> (words: usize) {
        self.map.len()
    }
}

} // verus!
