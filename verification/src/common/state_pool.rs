use vstd::prelude::*;
use crate::common::state::State;

verus! {

/// A cache of state buffers for search that branches by copying the state.
/// The cache has no bound: it holds every buffer handed back until a copy
/// takes it out again.
pub trait StatePool<T: State> {
    /// The words of the buffers held for reuse, the one handed back last at
    /// the end.
    spec fn free(&self) -> Seq<Seq<u32>>;

    /// A state with the words of `state`, in the buffer handed back last if
    /// there is one. Whatever that buffer held is gone from the result; a
    /// buffer of another size than `state` is dropped and replaced by a new
    /// one.
    fn copy(&mut self, state: &T) -> (copy: T)
        ensures
            copy@ == state@,
            final(self).free() == if old(self).free().len() == 0 {
                old(self).free()
            } else {
                old(self).free().drop_last()
            },
    ;

    /// Hands `state` back for reuse by a later `copy`.
    fn return_state(&mut self, state: T)
        ensures
            final(self).free() == old(self).free().push(state@),
    ;
}

} // verus!
