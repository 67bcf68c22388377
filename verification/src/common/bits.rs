use vstd::prelude::*;

verus! {

/// The word whose lowest `size` bits are set and no others.
pub open spec fn low_mask(size: u32) -> u32 {
    if size >= 32 {
        0xffff_ffffu32
    } else {
        ((1u32 << size) - 1) as u32
    }
}

/// Whether bit `i` of `w` is set.
pub open spec fn bit(w: u32, i: u32) -> bool {
    (w >> i) & 1u32 == 1u32
}

/// The `size`-bit field of `w` whose lowest bit is bit `offset` of `w`.
pub open spec fn field_of(w: u32, offset: u32, size: u32) -> u32 {
    (w >> offset) & low_mask(size)
}

/// `w` with the `size`-bit field at `offset` replaced by `value`.
pub open spec fn with_field(w: u32, offset: u32, size: u32, value: u32) -> u32 {
    (w & !(low_mask(size) << offset)) | (value << offset)
}

/// The signed integer that has the bit pattern of `w`, in two's complement.
pub open spec fn word_as_int(w: u32) -> int {
    if w < 0x8000_0000u32 {
        w as int
    } else {
        w - 0x1_0000_0000
    }
}

/// The word that has the bit pattern of the signed integer `x`, in two's
/// complement.
pub open spec fn int_as_word(x: i32) -> u32 {
    if x >= 0 {
        x as u32
    } else {
        (x + 0x1_0000_0000) as u32
    }
}

/// Computes the word whose lowest `size` bits are set.
pub(crate) fn low_mask_of(size: u32) -> (mask: u32)
    requires
        size <= 32,
    ensures
        mask == low_mask(size),
{
    if size >= 32 {
        0xffff_ffffu32
    } else {
        assert((1u32 << size) >= 1) by (bit_vector)
            requires
                size < 32,
        ;
        (1u32 << size) - 1
    }
}

/// A value of at most `size` bits that is put into a field is the field
/// afterwards.
pub proof fn lemma_field_read_back(w: u32, offset: u32, size: u32, value: u32)
    by (bit_vector)
    requires
        offset + size <= 32,
        value <= low_mask(size),
    ensures
        field_of(with_field(w, offset, size, value), offset, size) == value,
{
}

/// Putting into a field what it holds leaves the word as it is.
pub proof fn lemma_field_rewrite(w: u32, offset: u32, size: u32)
    by (bit_vector)
    requires
        offset + size <= 32,
    ensures
        with_field(w, offset, size, field_of(w, offset, size)) == w,
{
}

/// Putting a value into one field leaves every field of the word that does
/// not overlap it.
pub proof fn lemma_fields_apart(w: u32, o1: u32, s1: u32, value: u32, o2: u32, s2: u32)
    by (bit_vector)
    requires
        o1 + s1 <= 32,
        o2 + s2 <= 32,
        o1 + s1 <= o2 || o2 + s2 <= o1,
        value <= low_mask(s1),
    ensures
        field_of(with_field(w, o1, s1, value), o2, s2) == field_of(w, o2, s2),
{
}

/// A field of `size` bits has no bit set from bit `size` upwards.
pub proof fn lemma_field_bound(w: u32, offset: u32, size: u32)
    by (bit_vector)
    ensures
        field_of(w, offset, size) <= low_mask(size),
{
}

/// The word with the bit pattern of a signed integer has that integer for
/// its own bit pattern: nothing is lost, whatever the sign.
pub proof fn lemma_int_word_round_trip(x: i32)
    ensures
        word_as_int(int_as_word(x)) == x,
{
}

/// A bit of the bitwise and is set where it is set in both words.
pub proof fn lemma_bit_and(a: u32, b: u32, i: u32)
    by (bit_vector)
    ensures
        bit(a & b, i) == (bit(a, i) && bit(b, i)),
{
}

/// A bit of the complement is set where it is not set in the word.
pub proof fn lemma_bit_not(a: u32, i: u32)
    by (bit_vector)
    requires
        i < 32,
    ensures
        bit(!a, i) == !bit(a, i),
{
}

/// A bit of the bitwise exclusive or is set where the two words differ.
pub proof fn lemma_bit_xor(a: u32, b: u32, i: u32)
    by (bit_vector)
    ensures
        bit(a ^ b, i) == (bit(a, i) != bit(b, i)),
{
}

/// The bits of the mask of the lowest `size` bits are those below `size`.
pub proof fn lemma_low_mask_bits(size: u32, i: u32)
    by (bit_vector)
    requires
        size <= 32,
        i < 32,
    ensures
        bit(low_mask(size), i) == (i < size),
{
}

/// A word with no bit set from bit `size` upwards has its set bits below
/// `size`.
pub proof fn lemma_bit_within(w: u32, size: u32, i: u32)
    by (bit_vector)
    requires
        w <= low_mask(size),
        bit(w, i),
    ensures
        i < size,
        i < 32,
{
}

/// A word that is not zero has a bit set.
pub proof fn lemma_some_bit(w: u32) -> (i: u32)
    requires
        w != 0,
    ensures
        i < 32,
        bit(w, i),
{
    vstd::std_specs::bits::axiom_u32_trailing_zeros(w);
    vstd::std_specs::bits::u32_trailing_zeros(w)
}

/// Whether `w` has exactly one bit set.
pub open spec fn single_bit(w: u32) -> bool {
    w != 0 && w & ((w - 1) as u32) == 0
}

/// A word with exactly one bit set has no two set bits.
pub proof fn lemma_single_bit(w: u32, i: u32, j: u32)
    by (bit_vector)
    requires
        single_bit(w),
        bit(w, i),
        bit(w, j),
    ensures
        i == j,
{
}

/// A word with more than one bit set keeps a set bit when any one bit is
/// cleared.
pub proof fn lemma_second_bit_left(w: u32, i: u32)
    by (bit_vector)
    requires
        w != 0,
        !single_bit(w),
        i < 32,
    ensures
        w & !(1u32 << i) != 0,
{
}

/// A bit that is set after bit `i` was cleared is set in the word, and is
/// not bit `i`.
pub proof fn lemma_second_bit_differs(w: u32, i: u32, j: u32)
    by (bit_vector)
    requires
        i < 32,
        bit(w & !(1u32 << i), j),
    ensures
        bit(w, j),
        j != i,
{
}

} // verus!
