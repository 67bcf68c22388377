use vstd::prelude::*;
use crate::common::domain::{
    ascending, at_least, at_most, full_range, lemma_ascending_has, mask_values,
};

verus! {

/// One narrowing of the domain of a variable: the operation of the variable
/// that is called, with its argument.
pub enum Narrowing {
    /// `set_min`: removal of the values below a bound.
    SetMin(i32),
    /// `set_max`: removal of the values above a bound.
    SetMax(i32),
    /// `set_domain`: removal of the values that a bit mask has no bit set for.
    SetDomain(Seq<u32>),
    /// `domain_minus`: removal of the values that a bit mask has a bit set
    /// for.
    DomainMinus(Seq<u32>),
}

/// The domain that one narrowing leaves of `values`, for a variable whose
/// declared range starts at `lower`: what the operation ensures of the
/// values of the variable in the state that it leaves.
pub open spec fn narrowed(values: Set<int>, lower: int, step: Narrowing) -> Set<int> {
    match step {
        Narrowing::SetMin(min) => values.intersect(at_least(min as int)),
        Narrowing::SetMax(max) => values.intersect(at_most(max as int)),
        Narrowing::SetDomain(mask) => values.intersect(mask_values(mask, lower)),
        Narrowing::DomainMinus(mask) => values.difference(mask_values(mask, lower)),
    }
}

/// The domain that a sequence of narrowings, applied in order, leaves of
/// `values`.
pub open spec fn narrowed_by_all(values: Set<int>, lower: int, steps: Seq<Narrowing>) -> Set<int>
    decreases steps.len(),
{
    if steps.len() == 0 {
        values
    } else {
        narrowed(narrowed_by_all(values, lower, steps.drop_last()), lower, steps.last())
    }
}

/// Narrowing only removes values: after any sequence of narrowings the
/// domain is a subset of what it was before.
pub proof fn lemma_narrowing_only_removes(values: Set<int>, lower: int, steps: Seq<Narrowing>)
    ensures
        narrowed_by_all(values, lower, steps).subset_of(values),
    decreases steps.len(),
{
    if steps.len() > 0 {
        lemma_narrowing_only_removes(values, lower, steps.drop_last());
    }
}

/// After any sequence of narrowings, every value that the ascending listing
/// of the domain has was in the listing before.
pub proof fn lemma_narrowing_shrinks_listing(
    values: Set<int>,
    lower: int,
    width: nat,
    steps: Seq<Narrowing>,
)
    requires
        i32::MIN <= lower,
        lower + width - 1 <= i32::MAX,
        values.subset_of(full_range(lower, width)),
    ensures
        forall|v: i32|
            ascending(narrowed_by_all(values, lower, steps), lower, width).contains(v)
                ==> #[trigger] ascending(values, lower, width).contains(v),
{
    let after = narrowed_by_all(values, lower, steps);
    lemma_narrowing_only_removes(values, lower, steps);
    assert forall|v: i32| ascending(after, lower, width).contains(v) implies #[trigger] ascending(
        values,
        lower,
        width,
    ).contains(v) by {
        lemma_ascending_has(after, lower, width, v);
        lemma_ascending_has(values, lower, width, v);
    }
}

} // verus!
