use vstd::prelude::*;

verus! {

/// The address of a variable's storage inside a packed state: a word, and the
/// position of the lowest bit of the variable's field within that word.
///
/// A scalar slot takes a whole word and has `offset == 0`.
#[derive(Clone, Copy, Debug, PartialEq, Eq, Structural)]
pub struct StateRef {
    pub idx: usize,
    pub offset: u8,
}

} // verus!
