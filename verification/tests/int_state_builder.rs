use solver_state::common::state_builder::StateBuilder;
use solver_state::common::state_ref::StateRef;
use solver_state::state::int_state_builder::IntStateBuilder;

fn assert_ref_equal(sr: StateRef, idx: usize, offset: u8) {
    match sr {
        StateRef { idx: i, offset: o } => assert_eq!((i, o), (idx, offset)),
    };
}

#[test]
fn add_two_ints() {
    let mut sb: IntStateBuilder = IntStateBuilder::default();
    let sr1 = sb.add_int();
    assert_ref_equal(sr1, 0, 0);
    let sr2 = sb.add_int();
    assert_ref_equal(sr2, 1, 0);
}

#[test]
fn add_three_small_domains() {
    let mut sb: IntStateBuilder = IntStateBuilder::default();
    let sr1 = sb.add_domain(16);
    assert_ref_equal(sr1, 0, 0);
    let sr2 = sb.add_domain(16);
    assert_ref_equal(sr2, 0, 16);
    let sr3 = sb.add_domain(16);
    assert_ref_equal(sr3, 1, 0);
}

#[test]
fn new_builder_has_no_words() {
    let sb: IntStateBuilder = IntStateBuilder::default();
    assert_eq!(sb.get_size(), 0);
    assert_eq!(sb.get_state().data.len(), 0);
}

#[test]
fn first_fit_goes_by_allocation_order() {
    let mut sb: IntStateBuilder = IntStateBuilder::default();
    assert_ref_equal(sb.add_domain(20), 0, 0);
    assert_ref_equal(sb.add_domain(30), 1, 0);
    assert_ref_equal(sb.add_domain(25), 2, 0);
    // word 0 has 12 bits left, word 1 has 2, word 2 has 7
    assert_ref_equal(sb.add_domain(2), 0, 20);
    assert_ref_equal(sb.add_domain(7), 0, 22);
    assert_ref_equal(sb.add_domain(4), 2, 25);
    assert_ref_equal(sb.add_domain(3), 0, 29);
    assert_ref_equal(sb.add_domain(2), 1, 30);
    assert_ref_equal(sb.add_domain(3), 2, 29);
    assert_ref_equal(sb.add_domain(1), 3, 0);
    assert_eq!(sb.get_size(), 4);
}

#[test]
fn small_domain_fills_a_word_exactly() {
    let mut sb: IntStateBuilder = IntStateBuilder::default();
    assert_ref_equal(sb.add_domain(31), 0, 0);
    assert_ref_equal(sb.add_domain(1), 0, 31);
    assert_ref_equal(sb.add_domain(1), 1, 0);
    assert_eq!(sb.get_size(), 2);
}

#[test]
fn scalars_are_never_packed() {
    let mut sb: IntStateBuilder = IntStateBuilder::default();
    assert_ref_equal(sb.add_domain(4), 0, 0);
    assert_ref_equal(sb.add_int(), 1, 0);
    assert_ref_equal(sb.add_float(), 2, 0);
    assert_ref_equal(sb.add_domain(4), 0, 4);
    assert_ref_equal(sb.add_domain(4), 0, 8);
    assert_eq!(sb.get_size(), 3);
}

#[test]
fn double_and_long_take_two_words() {
    let mut sb: IntStateBuilder = IntStateBuilder::default();
    assert_ref_equal(sb.add_double(), 0, 0);
    assert_eq!(sb.get_size(), 2);
    assert_ref_equal(sb.add_long(), 2, 0);
    assert_eq!(sb.get_size(), 4);
    assert_ref_equal(sb.add_int(), 4, 0);
    assert_ref_equal(sb.add_domain(1), 5, 0);
    assert_eq!(sb.get_size(), 6);
}

#[test]
fn large_domain_takes_whole_words_and_a_remainder() {
    let mut sb: IntStateBuilder = IntStateBuilder::default();
    assert_ref_equal(sb.add_domain(10), 0, 0);
    assert_ref_equal(sb.add_domain(70), 1, 0);
    assert_eq!(sb.get_size(), 4);
    // the remainder word has 6 bits in use: 26 are left for first fit
    assert_ref_equal(sb.add_domain(26), 3, 6);
    assert_ref_equal(sb.add_domain(22), 0, 10);
    assert_ref_equal(sb.add_domain(1), 4, 0);
}

#[test]
fn large_domain_of_whole_words_has_no_remainder() {
    let mut sb: IntStateBuilder = IntStateBuilder::default();
    assert_ref_equal(sb.add_domain(32), 0, 0);
    assert_eq!(sb.get_size(), 1);
    assert_ref_equal(sb.add_domain(64), 1, 0);
    assert_eq!(sb.get_size(), 3);
    assert_ref_equal(sb.add_domain(1), 3, 0);
}

#[test]
fn add_small_and_large_domain_directly() {
    let mut sb: IntStateBuilder = IntStateBuilder::default();
    assert_ref_equal(sb.add_small_domain(16), 0, 0);
    assert_ref_equal(sb.add_large_domain(33), 1, 0);
    assert_eq!(sb.get_size(), 3);
    assert_ref_equal(sb.add_small_domain(16), 0, 16);
    assert_ref_equal(sb.add_small_domain(31), 2, 1);
    assert_ref_equal(sb.add_small_domain(31), 3, 0);
}

#[test]
fn get_state_is_zeroed_and_sized() {
    let mut sb: IntStateBuilder = IntStateBuilder::default();
    sb.add_domain(16);
    sb.add_int();
    sb.add_long();
    assert_eq!(sb.get_size(), 4);
    let state = sb.get_state();
    assert_eq!(state.data, [0, 0, 0, 0].to_vec());
    let again = sb.get_state();
    assert_eq!(again.data, [0, 0, 0, 0].to_vec());
}
