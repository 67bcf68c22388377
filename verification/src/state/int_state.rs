use vstd::prelude::*;
use vstd::std_specs::bits::{axiom_u32_leading_zeros, axiom_u32_trailing_zeros};
use crate::common::bits::{
    bit, field_of, int_as_word, low_mask, low_mask_of, with_field, word_as_int,
};
use crate::common::state::{put_domain, State};
use crate::common::state_ref::StateRef;

verus! {

/// A packed state held as a vector of words.
pub struct IntState {
    pub data: Vec<u32>,
}

impl View for IntState {
    type V = Seq<u32>;

    open spec fn view(&self) -> Seq<u32> {
        self.data@
    }
}

impl State for IntState {
    fn copy_to(&self, other: &mut IntState) {
        let n = self.data.len();
        let mut i: usize = 0;
        while i < n
            invariant
                n == self.data@.len(),
                other.data@.len() == n,
                i <= n,
                forall|j: int| 0 <= j < i ==> other.data@[j] == self.data@[j],
            decreases n - i,
        {
            other.data[i] = self.data[i];
            i += 1;
        }
        assert(other.data@ =~= self.data@);
    }

    fn get_int(&self, state_ref: &StateRef) -> (value: i32) {
        let w = self.data[state_ref.idx];
        assert(w as i32 == word_as_int(w)) by (bit_vector);
        w as i32
    }

    fn set_int(&mut self, state_ref: &StateRef, value: i32) {
        assert(value as u32 == int_as_word(value)) by (bit_vector);
        self.data[state_ref.idx] = value as u32;
    }

    fn get_domain(&self, state_ref: &StateRef, size: u32) -> (field: u32) {
        let w = self.data[state_ref.idx];
        let offset = state_ref.offset as u32;
        if offset >= 32 {
            assert(field_of(w, offset, size) == 0) by (bit_vector)
                requires
                    offset >= 32,
                    offset + size <= 32,
            ;
            0
        } else {
            (w >> offset) & low_mask_of(size)
        }
    }

    fn get_domain_max(&self, state_ref: &StateRef, size: u32) -> (pos: i32) {
        let field = self.get_domain(state_ref, size);
        if field == 0 {
            -1
        } else {
            let zeros = field.leading_zeros();
            proof {
                axiom_u32_leading_zeros(field);
                let top = (31 - zeros) as u32;
                assert((field >> top) & 1u32 != 0u32 ==> bit(field, top)) by (bit_vector);
            }
            31 - zeros as i32
        }
    }

    fn get_domain_min(&self, state_ref: &StateRef, size: u32) -> (pos: i32) {
        let field = self.get_domain(state_ref, size);
        if field == 0 {
            size as i32
        } else {
            let zeros = field.trailing_zeros();
            proof {
                axiom_u32_trailing_zeros(field);
                assert forall|j: u32| j < zeros implies !#[trigger] bit(field, j) by {
                    assert((field >> j) & 1u32 == 0u32);
                }
            }
            zeros as i32
        }
    }

    fn set_domain(&mut self, state_ref: &StateRef, size: u32, value: u32) {
        let w = self.data[state_ref.idx];
        let offset = state_ref.offset as u32;
        if offset >= 32 {
            assert(with_field(w, offset, size, value) == w) by (bit_vector)
                requires
                    offset >= 32,
                    offset + size <= 32,
                    value <= low_mask(size),
            ;
            assert(self.data@ =~= put_domain(old(self).data@, *state_ref, size, value));
        } else {
            self.data[state_ref.idx] = (w & !(low_mask_of(size) << offset)) | (value << offset);
        }
    }
}

} // verus!
