use vstd::prelude::*;
use crate::common::bits::{
    bit, field_of, int_as_word, lemma_field_read_back, lemma_fields_apart,
    lemma_int_word_round_trip, low_mask, with_field, word_as_int,
};
use crate::common::state_ref::StateRef;

verus! {

/// Whether `state_ref` names a word of a state of these words.
pub open spec fn holds_word(words: Seq<u32>, state_ref: StateRef) -> bool {
    state_ref.idx < words.len()
}

/// Whether a field of `size` bits at `state_ref` lies within one word of a
/// state of these words.
pub open spec fn holds_field(words: Seq<u32>, state_ref: StateRef, size: u32) -> bool {
    state_ref.idx < words.len() && state_ref.offset + size <= 32
}

/// The signed integer stored in the word at `state_ref`.
pub open spec fn int_at(words: Seq<u32>, state_ref: StateRef) -> int {
    word_as_int(words[state_ref.idx as int])
}

/// The words after `value` is stored in the word at `state_ref`.
pub open spec fn put_int(words: Seq<u32>, state_ref: StateRef, value: i32) -> Seq<u32> {
    words.update(state_ref.idx as int, int_as_word(value))
}

/// The `size`-bit field stored at `state_ref`.
pub open spec fn domain_at(words: Seq<u32>, state_ref: StateRef, size: u32) -> u32 {
    field_of(words[state_ref.idx as int], state_ref.offset as u32, size)
}

/// The words after the `size`-bit field at `state_ref` is replaced by `value`.
pub open spec fn put_domain(words: Seq<u32>, state_ref: StateRef, size: u32, value: u32) -> Seq<
    u32,
> {
    words.update(
        state_ref.idx as int,
        with_field(words[state_ref.idx as int], state_ref.offset as u32, size, value),
    )
}

/// Whether `pos` is the position of the lowest set bit of the `size`-bit
/// field `field`, or `size` where the field has no bit set.
pub open spec fn is_lowest_bit(field: u32, size: u32, pos: int) -> bool {
    if field == 0 {
        pos == size
    } else {
        &&& 0 <= pos < 32
        &&& bit(field, pos as u32)
        &&& forall|j: u32| j < pos ==> !#[trigger] bit(field, j)
    }
}

/// Whether `pos` is the position of the highest set bit of `field`, or -1
/// where the field has no bit set.
pub open spec fn is_highest_bit(field: u32, pos: int) -> bool {
    if field == 0 {
        pos == -1
    } else {
        &&& 0 <= pos < 32
        &&& bit(field, pos as u32)
        &&& forall|j: u32| pos < j < 32 ==> !#[trigger] bit(field, j)
    }
}

/// A packed state: a fixed number of 32-bit words that hold scalar slots and
/// bit fields. Its view is the sequence of its words.
pub trait State: View<V = Seq<u32>> + Sized {
    /// Overwrites every word of `other` with the words of this state. The
    /// two states share nothing afterwards: a later write to one leaves the
    /// other as it is.
    fn copy_to(&self, other: &mut Self)
        requires
            old(other)@.len() == self@.len(),
        ensures
            final(other)@ == self@,
    ;

    /// Reads the word at `state_ref` as a signed integer with the same bits.
    fn get_int(&self, state_ref: &StateRef) -> (value: i32)
        requires
            holds_word(self@, *state_ref),
        ensures
            value == int_at(self@, *state_ref),
    ;

    /// Stores the bits of `value` in the word at `state_ref`.
    fn set_int(&mut self, state_ref: &StateRef, value: i32)
        requires
            holds_word(old(self)@, *state_ref),
        ensures
            final(self)@ == put_int(old(self)@, *state_ref, value),
    ;

    /// Reads the `size`-bit field at `state_ref`.
    fn get_domain(&self, state_ref: &StateRef, size: u32) -> (field: u32)
        requires
            holds_field(self@, *state_ref, size),
        ensures
            field == domain_at(self@, *state_ref, size),
    ;

    /// The position within the field of its highest set bit; -1 for a field
    /// with no bit set.
    fn get_domain_max(&self, state_ref: &StateRef, size: u32) -> (pos: i32)
        requires
            holds_field(self@, *state_ref, size),
        ensures
            is_highest_bit(domain_at(self@, *state_ref, size), pos as int),
    ;

    /// The position within the field of its lowest set bit; `size` for a
    /// field with no bit set.
    fn get_domain_min(&self, state_ref: &StateRef, size: u32) -> (pos: i32)
        requires
            holds_field(self@, *state_ref, size),
        ensures
            is_lowest_bit(domain_at(self@, *state_ref, size), size, pos as int),
    ;

    /// Replaces the `size`-bit field at `state_ref` by `value` and leaves
    /// every other bit of the state as it was.
    fn set_domain(&mut self, state_ref: &StateRef, size: u32, value: u32)
        requires
            holds_field(old(self)@, *state_ref, size),
            value <= low_mask(size),
        ensures
            final(self)@ == put_domain(old(self)@, *state_ref, size, value),
    ;
}

/// Whether two places do not share a bit: they are in different words, or
/// the fields of `size_a` bits at `a` and of `size_b` bits at `b` do not
/// overlap within their word.
pub open spec fn apart(a: StateRef, size_a: u32, b: StateRef, size_b: u32) -> bool {
    ||| a.idx != b.idx
    ||| a.offset + size_a <= b.offset
    ||| b.offset + size_b <= a.offset
}

/// An integer stored in a word is read back as it was, whatever its sign.
pub proof fn lemma_int_round_trip(words: Seq<u32>, state_ref: StateRef, value: i32)
    requires
        holds_word(words, state_ref),
    ensures
        int_at(put_int(words, state_ref, value), state_ref) == value,
{
    lemma_int_word_round_trip(value);
}

/// A field that is stored is read back as it was.
pub proof fn lemma_domain_round_trip(words: Seq<u32>, state_ref: StateRef, size: u32, value: u32)
    requires
        holds_field(words, state_ref, size),
        value <= low_mask(size),
    ensures
        domain_at(put_domain(words, state_ref, size, value), state_ref, size) == value,
{
    lemma_field_read_back(words[state_ref.idx as int], state_ref.offset as u32, size, value);
}

/// Storing a field changes no field that shares no bit with it, be it in
/// the same word or in another.
pub proof fn lemma_domain_elsewhere(
    words: Seq<u32>,
    state_ref: StateRef,
    size: u32,
    value: u32,
    other: StateRef,
    other_size: u32,
)
    requires
        holds_field(words, state_ref, size),
        holds_field(words, other, other_size),
        value <= low_mask(size),
        apart(state_ref, size, other, other_size),
    ensures
        domain_at(put_domain(words, state_ref, size, value), other, other_size) == domain_at(
            words,
            other,
            other_size,
        ),
{
    if state_ref.idx == other.idx {
        lemma_fields_apart(
            words[state_ref.idx as int],
            state_ref.offset as u32,
            size,
            value,
            other.offset as u32,
            other_size,
        );
    }
}

} // verus!
