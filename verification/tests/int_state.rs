use solver_state::common::state::State;
use solver_state::common::state_ref::StateRef;
use solver_state::state::int_state::IntState;

#[test]
fn copy_to_works() {
    let sr1: StateRef = StateRef { idx: 0, offset: 0 };
    let sr2: StateRef = StateRef { idx: 1, offset: 0 };
    let state1: IntState = IntState { data: [1, 2].to_vec() };
    let mut state2: IntState = IntState { data: [3, 4].to_vec() };
    assert_eq!(state2.get_int(&sr1), 3);
    assert_eq!(state2.get_int(&sr2), 4);

    state1.copy_to(&mut state2);

    assert_eq!(state2.get_int(&sr1), 1);
    assert_eq!(state2.get_int(&sr2), 2);
}

#[test]
fn get_int_with_state_ref() {
    let sr: StateRef = StateRef { idx: 0, offset: 0 };
    let state: IntState = IntState { data: [1, 2].to_vec() };
    assert_eq!(state.get_int(&sr), 1);
}

#[test]
fn state_set_int_works() {
    let sr: StateRef = StateRef { idx: 0, offset: 0 };
    let mut state: IntState = IntState { data: [1, 2].to_vec() };

    assert_eq!(state.get_int(&sr), 1);
    state.set_int(&sr, 4);
    assert_eq!(state.get_int(&sr), 4);
}

#[test]
fn get_set_domain() {
    let sr1: StateRef = StateRef { idx: 0, offset: 0 };
    let sr2: StateRef = StateRef { idx: 0, offset: 4 };
    let sr3: StateRef = StateRef { idx: 0, offset: 8 };

    let mut state: IntState = IntState { data: [0].to_vec() };

    let val1 = 0b1011;
    let val2 = 0b0101;
    let val3 = 0b0110;

    state.set_domain(&sr1, 4, val1);
    state.set_domain(&sr2, 4, val2);
    state.set_domain(&sr3, 4, val3);

    assert_eq!(state.get_domain(&sr1, 4), val1);
    assert_eq!(state.get_domain(&sr2, 4), val2);
    assert_eq!(state.get_domain(&sr3, 4), val3);

    let val4 = 0b1001;

    state.set_domain(&sr2, 4, val4);

    state.set_domain(&sr1, 4, val1);
    state.set_domain(&sr2, 4, val4);
    state.set_domain(&sr3, 4, val3);
}

#[test]
fn get_domain_min() {
    let sr: StateRef = StateRef { idx: 0, offset: 0 };
    let mut state: IntState = IntState { data: [0b1111].to_vec() };

    assert_eq!(state.get_domain_min(&sr, 4), 0);

    state.set_domain(&sr, 4, 0b1110);

    assert_eq!(state.get_domain_min(&sr, 4), 1);

    state.set_domain(&sr, 4, 0b1100);

    assert_eq!(state.get_domain_min(&sr, 4), 2);

    state.set_domain(&sr, 4, 0b1000);

    assert_eq!(state.get_domain_min(&sr, 4), 3);
}

#[test]
fn get_domain_max() {
    let sr: StateRef = StateRef { idx: 0, offset: 0 };
    let mut state: IntState = IntState { data: [0b1111].to_vec() };

    assert_eq!(state.get_domain_max(&sr, 4), 3);

    state.set_domain(&sr, 4, 0b0111);

    assert_eq!(state.get_domain_max(&sr, 4), 2);

    state.set_domain(&sr, 4, 0b0011);

    assert_eq!(state.get_domain_max(&sr, 4), 1);

    state.set_domain(&sr, 4, 0b0001);

    assert_eq!(state.get_domain_max(&sr, 4), 0);
}

#[test]
fn int_round_trip_keeps_every_bit() {
    let sr: StateRef = StateRef { idx: 1, offset: 0 };
    let mut state: IntState = IntState { data: [7, 0, 9].to_vec() };
    for x in [0, 1, -1, 4, -4, 123_456_789, -123_456_789, i32::MAX, i32::MIN, i32::MIN + 1] {
        state.set_int(&sr, x);
        assert_eq!(state.get_int(&sr), x);
        assert_eq!(state.data[0], 7);
        assert_eq!(state.data[2], 9);
    }
}

#[test]
fn int_is_the_bit_pattern_of_the_word() {
    let sr: StateRef = StateRef { idx: 0, offset: 0 };
    let mut state: IntState = IntState { data: [0xffff_ffff].to_vec() };
    assert_eq!(state.get_int(&sr), -1);
    state.data[0] = 0x8000_0000;
    assert_eq!(state.get_int(&sr), i32::MIN);
    state.data[0] = 0x7fff_ffff;
    assert_eq!(state.get_int(&sr), i32::MAX);
    state.set_int(&sr, -2);
    assert_eq!(state.data[0], 0xffff_fffe);
}

#[test]
fn get_int_ignores_the_offset() {
    let sr: StateRef = StateRef { idx: 0, offset: 5 };
    let mut state: IntState = IntState { data: [0].to_vec() };
    state.set_int(&sr, 77);
    assert_eq!(state.get_int(&sr), 77);
    assert_eq!(state.data[0], 77);
}

#[test]
fn set_domain_leaves_other_bits() {
    let sr: StateRef = StateRef { idx: 1, offset: 8 };
    let mut state: IntState = IntState { data: [0xdead_beef, 0xffff_ffff, 5].to_vec() };
    state.set_domain(&sr, 8, 0b1010_0101);
    assert_eq!(state.data, [0xdead_beef, 0xffff_a5ff, 5].to_vec());
    assert_eq!(state.get_domain(&sr, 8), 0b1010_0101);
    state.set_domain(&sr, 8, 0);
    assert_eq!(state.data[1], 0xffff_00ff);
}

#[test]
fn domain_of_a_whole_word() {
    let sr: StateRef = StateRef { idx: 0, offset: 0 };
    let mut state: IntState = IntState { data: [0].to_vec() };
    state.set_domain(&sr, 32, 0xffff_ffff);
    assert_eq!(state.get_domain(&sr, 32), 0xffff_ffff);
    assert_eq!(state.get_domain_min(&sr, 32), 0);
    assert_eq!(state.get_domain_max(&sr, 32), 31);
    state.set_domain(&sr, 32, 0x8000_0000);
    assert_eq!(state.get_domain_min(&sr, 32), 31);
    assert_eq!(state.get_domain_max(&sr, 32), 31);
}

#[test]
fn domain_at_the_top_of_a_word() {
    let sr: StateRef = StateRef { idx: 0, offset: 28 };
    let mut state: IntState = IntState { data: [0x0fff_ffff].to_vec() };
    assert_eq!(state.get_domain(&sr, 4), 0);
    state.set_domain(&sr, 4, 0b1001);
    assert_eq!(state.data[0], 0x9fff_ffff);
    assert_eq!(state.get_domain(&sr, 4), 0b1001);
    assert_eq!(state.get_domain_min(&sr, 4), 0);
    assert_eq!(state.get_domain_max(&sr, 4), 3);
}

#[test]
fn domain_of_no_bits() {
    let sr: StateRef = StateRef { idx: 0, offset: 32 };
    let mut state: IntState = IntState { data: [0x1234_5678].to_vec() };
    assert_eq!(state.get_domain(&sr, 0), 0);
    state.set_domain(&sr, 0, 0);
    assert_eq!(state.data[0], 0x1234_5678);
    assert_eq!(state.get_domain_min(&sr, 0), 0);
    assert_eq!(state.get_domain_max(&sr, 0), -1);
}

#[test]
fn empty_field_has_no_lowest_or_highest_bit() {
    let sr: StateRef = StateRef { idx: 0, offset: 4 };
    let state: IntState = IntState { data: [0xffff_f00f].to_vec() };
    assert_eq!(state.get_domain(&sr, 8), 0);
    assert_eq!(state.get_domain_min(&sr, 8), 8);
    assert_eq!(state.get_domain_max(&sr, 8), -1);
}

#[test]
fn highest_bit_is_exact_at_powers_of_two() {
    let sr: StateRef = StateRef { idx: 0, offset: 0 };
    let mut state: IntState = IntState { data: [0].to_vec() };
    for k in 0..32 {
        let one: u32 = 1 << k;
        state.set_domain(&sr, 32, one);
        assert_eq!(state.get_domain_max(&sr, 32), k);
        assert_eq!(state.get_domain_min(&sr, 32), k);
        let below: u32 = one - 1;
        state.set_domain(&sr, 32, below);
        assert_eq!(state.get_domain_max(&sr, 32), k - 1);
        let all_up_to: u32 = one | below;
        state.set_domain(&sr, 32, all_up_to);
        assert_eq!(state.get_domain_max(&sr, 32), k);
        assert_eq!(state.get_domain_min(&sr, 32), 0);
    }
}

#[test]
fn copy_to_gives_independent_states() {
    let sr1: StateRef = StateRef { idx: 0, offset: 0 };
    let sr2: StateRef = StateRef { idx: 1, offset: 4 };
    let mut a: IntState = IntState { data: [10, 0xf0].to_vec() };
    let mut b: IntState = IntState { data: [0, 0].to_vec() };
    a.copy_to(&mut b);
    assert_eq!(b.data, [10, 0xf0].to_vec());

    a.set_int(&sr1, -5);
    a.set_domain(&sr2, 4, 0b0001);
    assert_eq!(b.get_int(&sr1), 10);
    assert_eq!(b.get_domain(&sr2, 4), 0b1111);

    b.set_int(&sr1, 99);
    b.set_domain(&sr2, 4, 0b0110);
    assert_eq!(a.get_int(&sr1), -5);
    assert_eq!(a.get_domain(&sr2, 4), 0b0001);
    assert_eq!(b.get_int(&sr1), 99);
    assert_eq!(b.get_domain(&sr2, 4), 0b0110);
}

#[test]
fn copy_to_of_no_words() {
    let a: IntState = IntState { data: Vec::new() };
    let mut b: IntState = IntState { data: Vec::new() };
    a.copy_to(&mut b);
    assert_eq!(b.data.len(), 0);
}
