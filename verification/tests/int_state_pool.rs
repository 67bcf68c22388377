use solver_state::common::state::State;
use solver_state::common::state_pool::StatePool;
use solver_state::common::state_ref::StateRef;
use solver_state::state::int_state::IntState;
use solver_state::state::int_state_pool::IntStatePool;

#[test]
fn copy_works_when_empty() {
    let sr1: StateRef = StateRef { idx: 0, offset: 0 };
    let sr2: StateRef = StateRef { idx: 1, offset: 0 };
    let s1: IntState = IntState { data: [1, 2].to_vec() };
    let mut pool = IntStatePool::new();
    let s2 = pool.copy(&s1);

    assert_eq!(s2.get_int(&sr1), 1);
    assert_eq!(s2.get_int(&sr2), 2);
}

#[test]
fn copy_works_when_not_empty() {
    let sr1: StateRef = StateRef { idx: 0, offset: 0 };
    let sr2: StateRef = StateRef { idx: 1, offset: 0 };
    let s1: IntState = IntState { data: [1, 2].to_vec() };
    let s2: IntState = IntState { data: [3, 4].to_vec() };
    let mut pool = IntStatePool::new();
    pool.return_state(s1);
    let s3 = pool.copy(&s2);

    assert_eq!(s3.get_int(&sr1), 3);
    assert_eq!(s3.get_int(&sr2), 4);
}

#[test]
fn copy_overwrites_every_stale_word() {
    let stale: IntState = IntState { data: [0xffff_ffff, 0xaaaa_aaaa, 0x5555_5555].to_vec() };
    let source: IntState = IntState { data: [0, 7, 0x8000_0000].to_vec() };
    let mut pool = IntStatePool::new();
    pool.return_state(stale);
    let copy = pool.copy(&source);
    assert_eq!(copy.data, [0, 7, 0x8000_0000].to_vec());
    assert_eq!(source.data, [0, 7, 0x8000_0000].to_vec());
}

#[test]
fn copy_takes_the_buffer_returned_last() {
    let mut pool = IntStatePool::new();
    pool.return_state(IntState { data: [1].to_vec() });
    pool.return_state(IntState { data: [2, 2].to_vec() });
    // the two-word buffer comes out first and matches
    let a = pool.copy(&IntState { data: [8, 9].to_vec() });
    assert_eq!(a.data, [8, 9].to_vec());
    // the one-word buffer comes out next and matches
    let b = pool.copy(&IntState { data: [5].to_vec() });
    assert_eq!(b.data, [5].to_vec());
    // nothing is left
    let c = pool.copy(&IntState { data: [6, 7, 8].to_vec() });
    assert_eq!(c.data, [6, 7, 8].to_vec());
}

#[test]
fn copy_replaces_a_buffer_of_another_size() {
    let mut pool = IntStatePool::new();
    pool.return_state(IntState { data: [1, 1, 1].to_vec() });
    pool.return_state(IntState { data: [2].to_vec() });
    let source: IntState = IntState { data: [4, 5].to_vec() };
    let a = pool.copy(&source);
    assert_eq!(a.data, [4, 5].to_vec());
    let b = pool.copy(&source);
    assert_eq!(b.data, [4, 5].to_vec());
    let c = pool.copy(&source);
    assert_eq!(c.data, [4, 5].to_vec());
}

#[test]
fn copy_is_independent_of_its_source() {
    let sr: StateRef = StateRef { idx: 0, offset: 0 };
    let mut source: IntState = IntState { data: [1, 2].to_vec() };
    let mut pool = IntStatePool::new();
    let mut copy = pool.copy(&source);
    source.set_int(&sr, 10);
    assert_eq!(copy.get_int(&sr), 1);
    copy.set_int(&sr, 20);
    assert_eq!(source.get_int(&sr), 10);
    pool.return_state(copy);
    let again = pool.copy(&source);
    assert_eq!(again.data, [10, 2].to_vec());
}
