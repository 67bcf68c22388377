use vstd::prelude::*;
use vstd::set_lib::{lemma_int_range, lemma_len_subset, set_int_range};
use crate::common::bits::{
    bit, lemma_bit_and, lemma_bit_not, lemma_bit_within, lemma_bit_xor, lemma_low_mask_bits,
    lemma_second_bit_differs, lemma_second_bit_left, lemma_single_bit, lemma_some_bit, low_mask,
    single_bit,
};

verus! {

/// The values `lower, ..., lower + width - 1`.
pub open spec fn full_range(lower: int, width: nat) -> Set<int> {
    Set::new(|v: int| lower <= v < lower + width)
}

/// The integers from `bound` upwards.
pub open spec fn at_least(bound: int) -> Set<int> {
    Set::new(|v: int| v >= bound)
}

/// The integers up to `bound`.
pub open spec fn at_most(bound: int) -> Set<int> {
    Set::new(|v: int| v <= bound)
}

/// The values that a bit mask of `width` bits stands for, where bit `i`
/// stands for the value `lower + i`.
pub open spec fn field_values(field: u32, lower: int, width: nat) -> Set<int> {
    Set::new(|v: int| lower <= v < lower + width && bit(field, (v - lower) as u32))
}

/// The values that a bit mask of several words stands for, where bit `i` of
/// word `k` stands for the value `lower + 32 * k + i`.
pub open spec fn mask_values(words: Seq<u32>, lower: int) -> Set<int> {
    Set::new(
        |v: int|
            lower <= v < lower + 32 * words.len() && bit(
                words[(v - lower) / 32],
                ((v - lower) % 32) as u32,
            ),
    )
}

/// The number of words of a bit mask for a range of `width` values: one for
/// each 32 values or part of them, and never none.
pub open spec fn mask_words(width: nat) -> nat {
    if width <= 32 {
        1
    } else {
        (width + 31) / 32
    }
}

/// A set of values of a variable of bounds `lower` and `width`, in ascending
/// order.
pub open spec fn ascending(values: Set<int>, lower: int, width: nat) -> Seq<i32> {
    Seq::new(width, |i: int| (lower + i) as i32).filter(|v: i32| values.contains(v as int))
}

/// A mask stands for finitely many values, all within the bounds.
pub proof fn lemma_field_values_bounded(field: u32, lower: int, width: nat)
    ensures
        field_values(field, lower, width).subset_of(full_range(lower, width)),
        field_values(field, lower, width).finite(),
        field_values(field, lower, width).len() <= width,
{
    lemma_int_range(lower, lower + width);
    assert(full_range(lower, width) =~= set_int_range(lower, lower + width));
    lemma_len_subset(field_values(field, lower, width), full_range(lower, width));
}

/// The mask with no bit set stands for no value.
pub proof fn lemma_field_values_none(lower: int, width: nat)
    ensures
        field_values(0, lower, width) =~= Set::<int>::empty(),
{
    assert forall|v: int| !field_values(0, lower, width).contains(v) by {
        if lower <= v < lower + width {
            let i = (v - lower) as u32;
            assert(!bit(0u32, i)) by (bit_vector);
        }
    }
}

/// The mask with all its bits set stands for every value within the bounds.
pub proof fn lemma_field_values_all(lower: int, width: nat)
    requires
        width <= 32,
    ensures
        field_values(low_mask(width as u32), lower, width) =~= full_range(lower, width),
{
    lemma_field_values_low(width as u32, lower, width);
}

/// The bitwise and of two masks stands for the values that both stand for.
pub proof fn lemma_field_values_and(a: u32, b: u32, lower: int, width: nat)
    ensures
        field_values(a & b, lower, width) =~= field_values(a, lower, width).intersect(
            field_values(b, lower, width),
        ),
{
    let both = field_values(a, lower, width).intersect(field_values(b, lower, width));
    assert forall|v: int| #[trigger] field_values(a & b, lower, width).contains(v) == both.contains(
        v,
    ) by {
        lemma_bit_and(a, b, (v - lower) as u32);
    }
}

/// The mask of the lowest `count` bits stands for the lowest `count` values.
pub proof fn lemma_field_values_low(count: u32, lower: int, width: nat)
    requires
        count <= width <= 32,
    ensures
        field_values(low_mask(count), lower, width) =~= full_range(lower, count as nat),
{
    assert forall|v: int| #[trigger]
        field_values(low_mask(count), lower, width).contains(v) == full_range(
            lower,
            count as nat,
        ).contains(v) by {
        if lower <= v < lower + width {
            lemma_low_mask_bits(count, (v - lower) as u32);
        }
    }
}

/// The complement of the mask of the lowest `count` bits stands for all
/// values within the bounds but the lowest `count`.
pub proof fn lemma_field_values_high(count: u32, lower: int, width: nat)
    requires
        count <= width <= 32,
    ensures
        field_values(!low_mask(count), lower, width) =~= full_range(lower, width).intersect(
            at_least(lower + count),
        ),
{
    let high = full_range(lower, width).intersect(at_least(lower + count));
    assert forall|v: int| #[trigger]
        field_values(!low_mask(count), lower, width).contains(v) == high.contains(v) by {
        if lower <= v < lower + width {
            lemma_low_mask_bits(count, (v - lower) as u32);
            lemma_bit_not(low_mask(count), (v - lower) as u32);
        }
    }
}

/// The complement of a mask stands for the values within the bounds that
/// the mask does not stand for.
pub proof fn lemma_field_values_not(field: u32, lower: int, width: nat)
    requires
        width <= 32,
    ensures
        field_values(!field, lower, width) =~= full_range(lower, width).difference(
            field_values(field, lower, width),
        ),
{
    let rest = full_range(lower, width).difference(field_values(field, lower, width));
    assert forall|v: int| #[trigger] field_values(!field, lower, width).contains(v) == rest.contains(
        v,
    ) by {
        if lower <= v < lower + width {
            lemma_bit_not(field, (v - lower) as u32);
        }
    }
}

/// Within the bounds of a variable of at most 32 values, a mask of several
/// words stands for the values that its first word stands for.
pub proof fn lemma_mask_values_first_word(words: Seq<u32>, lower: int, width: nat)
    requires
        width <= 32,
        words.len() > 0,
    ensures
        mask_values(words, lower).intersect(full_range(lower, width)) =~= field_values(
            words[0],
            lower,
            width,
        ),
{
    let within = mask_values(words, lower).intersect(full_range(lower, width));
    assert forall|v: int| #[trigger] within.contains(v) == field_values(
        words[0],
        lower,
        width,
    ).contains(v) by {
        if lower <= v < lower + width {
            assert((v - lower) / 32 == 0);
            assert((v - lower) % 32 == v - lower);
        }
    }
}

/// The first positions of the ascending listing of a set list the part of
/// the set below a bound; one more position adds the value at the bound if
/// the set has it.
pub proof fn lemma_ascending_step(values: Set<int>, lower: int, width: nat)
    requires
        i32::MIN <= lower,
        lower + width <= i32::MAX,
    ensures
        ascending(values, lower, width + 1) == if values.contains(lower + width) {
            ascending(values, lower, width).push((lower + width) as i32)
        } else {
            ascending(values, lower, width)
        },
{
    let first = Seq::new(width, |i: int| (lower + i) as i32);
    let next = Seq::new(width + 1, |i: int| (lower + i) as i32);
    assert(next =~= first.push((lower + width) as i32));
    first.lemma_filter_push((lower + width) as i32, |v: i32| values.contains(v as int));
}

/// The ascending listing of a set is in strictly ascending order, and each
/// of its values lies within the bounds.
pub proof fn lemma_ascending_sorted(values: Set<int>, lower: int, width: nat)
    requires
        i32::MIN <= lower,
        lower + width - 1 <= i32::MAX,
    ensures
        forall|i: int, j: int|
            0 <= i < j < ascending(values, lower, width).len() ==> ascending(
                values,
                lower,
                width,
            )[i] < ascending(values, lower, width)[j],
        forall|i: int|
            0 <= i < ascending(values, lower, width).len() ==> lower <= #[trigger] ascending(
                values,
                lower,
                width,
            )[i] < lower + width,
    decreases width,
{
    if width == 0 {
        assert(ascending(values, lower, 0) =~= Seq::<i32>::empty()) by {
            reveal(Seq::filter);
        }
    } else {
        lemma_ascending_sorted(values, lower, (width - 1) as nat);
        lemma_ascending_step(values, lower, (width - 1) as nat);
    }
}

/// The ascending listing of a set within the bounds has the values of the
/// set and no other.
pub proof fn lemma_ascending_has(values: Set<int>, lower: int, width: nat, v: i32)
    requires
        i32::MIN <= lower,
        lower + width - 1 <= i32::MAX,
        values.subset_of(full_range(lower, width)),
    ensures
        ascending(values, lower, width).contains(v) <==> values.contains(v as int),
{
    let all = Seq::new(width, |i: int| (lower + i) as i32);
    let keep = |x: i32| values.contains(x as int);
    if values.contains(v as int) {
        let i = v - lower;
        assert(all[i] == v);
        all.lemma_filter_contains(keep, i);
    }
    if all.filter(keep).contains(v) {
        let k = choose|k: int| 0 <= k < all.filter(keep).len() && all.filter(keep)[k] == v;
        all.lemma_filter_pred(keep, k);
    }
}

/// Two masks of `width` bits that stand for the same values are the same.
pub proof fn lemma_field_values_differ(a: u32, b: u32, lower: int, width: nat)
    requires
        width <= 32,
        a <= low_mask(width as u32),
        b <= low_mask(width as u32),
        a != b,
    ensures
        field_values(a, lower, width) != field_values(b, lower, width),
{
    assert(a ^ b != 0) by (bit_vector)
        requires
            a != b,
    ;
    let i = lemma_some_bit(a ^ b);
    lemma_bit_xor(a, b, i);
    if bit(a, i) {
        lemma_bit_within(a, width as u32, i);
    } else {
        lemma_bit_within(b, width as u32, i);
    }
    let v = lower + i;
    assert(field_values(a, lower, width).contains(v) != field_values(b, lower, width).contains(v));
}

/// A mask of `width` bits stands for exactly one value if and only if
/// exactly one of its bits is set.
pub proof fn lemma_field_values_single(field: u32, lower: int, width: nat)
    requires
        width <= 32,
        field <= low_mask(width as u32),
    ensures
        single_bit(field) <==> field_values(field, lower, width).len() == 1,
{
    let values = field_values(field, lower, width);
    lemma_field_values_bounded(field, lower, width);
    if field == 0 {
        lemma_field_values_none(lower, width);
    } else {
        let i = lemma_some_bit(field);
        lemma_bit_within(field, width as u32, i);
        assert(values.contains(lower + i));
        if single_bit(field) {
            assert forall|v: int| values.contains(v) implies v == lower + i by {
                lemma_single_bit(field, i, (v - lower) as u32);
            }
            assert(values =~= set![lower + i]);
        } else {
            lemma_second_bit_left(field, i);
            let rest = field & !(1u32 << i);
            let j = lemma_some_bit(rest);
            lemma_second_bit_differs(field, i, j);
            lemma_bit_within(field, width as u32, j);
            assert(values.contains(lower + j));
            assert(values.remove(lower + i).contains(lower + j));
            assert(values.remove(lower + i).len() >= 1) by {
                if values.remove(lower + i).len() == 0 {
                    assert(values.remove(lower + i) =~= Set::<int>::empty());
                }
            }
        }
    }
}

} // verus!
