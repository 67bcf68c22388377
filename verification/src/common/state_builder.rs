use vstd::prelude::*;
use crate::common::state::State;
use crate::common::state_ref::StateRef;

verus! {

/// Whether word `i` of a layout has `size` bits left. A layout gives, for
/// each word in the order of allocation, the number of its bits in use.
pub open spec fn has_room(used: Seq<u8>, size: u8, i: int) -> bool {
    0 <= i < used.len() && used[i] + size <= 32
}

/// First fit: a field of `size` bits goes into the first word of `used` that
/// has room for it, behind the bits in use there; if no word has room, it
/// goes at the start of a new last word. `at` is the place taken and `after`
/// the layout that results.
pub open spec fn placed_first_fit(used: Seq<u8>, size: u8, at: StateRef, after: Seq<u8>) -> bool {
    &&& at.idx <= used.len()
    &&& forall|j: int| 0 <= j < at.idx ==> !has_room(used, size, j)
    &&& if at.idx < used.len() {
        &&& has_room(used, size, at.idx as int)
        &&& at.offset == used[at.idx as int]
        &&& after == used.update(at.idx as int, (used[at.idx as int] + size) as u8)
    } else {
        &&& at.offset == 0
        &&& after == used.push(size)
    }
}

/// The words that a field of `size` bits takes when it is given words of its
/// own: one full word for each 32 bits, then one word for the bits that
/// remain, if any.
pub open spec fn whole_words(size: u16) -> Seq<u8> {
    let full = Seq::new((size / 32) as nat, |i: int| 32u8);
    if size % 32 == 0 {
        full
    } else {
        full.push((size % 32) as u8)
    }
}

/// A field that gets words of its own starts at the first new word. `at` is
/// the place taken and `after` the layout that results.
pub open spec fn placed_in_new_words(
    used: Seq<u8>,
    words: Seq<u8>,
    at: StateRef,
    after: Seq<u8>,
) -> bool {
    &&& at.idx == used.len()
    &&& at.offset == 0
    &&& after == used + words
}

/// Lays out the storage of the variables of a model, before any state is
/// made, and makes states of that layout.
pub trait StateBuilder<T: State> {
    /// For each word allocated so far, in order, the number of its bits in use.
    spec fn used(&self) -> Seq<u8>;

    /// Allocates a bit field of `size` bits: by first fit where `size < 32`,
    /// else in words of its own.
    fn add_domain(&mut self, size: u16) -> (at: StateRef)
        ensures
            size < 32 ==> placed_first_fit(old(self).used(), size as u8, at, final(self).used()),
            size >= 32 ==> placed_in_new_words(
                old(self).used(),
                whole_words(size),
                at,
                final(self).used(),
            ),
    ;

    /// Allocates one new word for a 32-bit integer.
    fn add_int(&mut self) -> (at: StateRef)
        ensures
            placed_in_new_words(old(self).used(), seq![32u8], at, final(self).used()),
    ;

    /// Allocates two new adjacent words for a 64-bit floating-point number.
    fn add_double(&mut self) -> (at: StateRef)
        ensures
            placed_in_new_words(old(self).used(), seq![32u8, 32u8], at, final(self).used()),
    ;

    /// Allocates one new word for a 32-bit floating-point number.
    fn add_float(&mut self) -> (at: StateRef)
        ensures
            placed_in_new_words(old(self).used(), seq![32u8], at, final(self).used()),
    ;

    /// Allocates two new adjacent words for a 64-bit integer.
    fn add_long(&mut self) -> (at: StateRef)
        ensures
            placed_in_new_words(old(self).used(), seq![32u8, 32u8], at, final(self).used()),
    ;

    /// A new state with one word for each word allocated so far, all zero.
    fn get_state(&self) -> (state: T)
        ensures
            state@ == Seq::new(self.used().len(), |i: int| 0u32),
    ;

    /// The number of words allocated so far.
    fn get_size(&self) -> (words: usize)
        ensures
            words == self.used().len(),
    ;
}

} // verus!
