use vstd::prelude::*;
use crate::common::state::State;
use crate::common::state_pool::StatePool;
use crate::state::int_state::IntState;

verus! {

/// A pool of states held as vectors of words.
pub struct IntStatePool {
    data: Vec<IntState>,
}

impl IntStatePool {
    /// A pool that holds no buffer.
    pub fn new() -> (pool: IntStatePool)
        ensures
            pool.free() == Seq::<Seq<u32>>::empty(),
    {
        IntStatePool { data: Vec::new() }
    }
}

impl StatePool<IntState> for IntStatePool {
    closed spec fn free(&self) -> Seq<Seq<u32>> {
        self.data@.map_values(|s: IntState| s@)
    }

    fn copy(&mut self, state: &IntState) -> (copy: IntState) {
        let mut new_state: IntState = match self.data.pop() {
            Some(s) => {
                if s.data.len() == state.data.len() {
                    s
                } else {
                    IntState { data: vec![0u32; state.data.len()] }
                }
            },
            None => IntState { data: vec![0u32; state.data.len()] },
        };
        state.copy_to(&mut new_state);
        new_state
    }

    fn return_state(&mut self, state: IntState) {
        self.data.push(state)
    }
}

} // verus!
