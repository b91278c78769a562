use bacteria::rng::{XorShift32, DEFAULT_SEED};
use bacteria::grid::{cardinal_neighbors, moore_neighbors, apply_action, GRID_SIZE};

#[test]
fn zero_seed_is_replaced() {
    assert_eq!(XorShift32::new(0).state, DEFAULT_SEED);
    assert_eq!(XorShift32::new(0).state, 0x1234_5678);
    assert_eq!(XorShift32::new(5).state, 5);
}

#[test]
fn next_u32_follows_xorshift_13_17_5() {
    let mut r = XorShift32::new(1);
    assert_eq!(r.next_u32(), 270369);
    assert_eq!(r.state, 270369);
    assert_eq!(r.next_u32(), 67634689);
    assert_eq!(r.next_u32(), 2647435461);
    assert_eq!(r.next_u32(), 307599695);
}

#[test]
fn default_seed_sequence() {
    let mut r = XorShift32::new(0);
    assert_eq!(r.next_u32(), 2274908837);
    assert_eq!(r.next_u32(), 358294691);
}

#[test]
fn generator_never_reaches_zero() {
    let mut r = XorShift32::new(0x8000_0000);
    for _ in 0..10_000 {
        assert_ne!(r.next_u32(), 0);
    }
}

#[test]
fn cardinal_neighbors_wrap_at_corner() {
    assert_eq!(cardinal_neighbors(0), [992, 32, 1, 31]);
    assert_eq!(cardinal_neighbors(1023), [991, 31, 992, 1022]);
    assert_eq!(cardinal_neighbors(33), [1, 65, 34, 32]);
}

#[test]
fn cardinal_neighbors_are_symmetric_everywhere() {
    for p in 0..GRID_SIZE {
        let n = cardinal_neighbors(p);
        for q in n {
            assert!(q < GRID_SIZE);
            assert_ne!(q, p);
            assert!(cardinal_neighbors(q).contains(&p));
        }
        assert_eq!(cardinal_neighbors(n[0])[1], p);
        assert_eq!(cardinal_neighbors(n[2])[3], p);
    }
}

#[test]
fn moore_neighbors_clockwise_from_north() {
    assert_eq!(moore_neighbors(0), [992, 993, 1, 33, 32, 63, 31, 1023]);
    assert_eq!(moore_neighbors(33), [1, 2, 34, 66, 65, 64, 32, 0]);
}

#[test]
fn actions_move_to_neighbors() {
    assert_eq!(apply_action(33, 0), 33);
    assert_eq!(apply_action(33, 1), 1);
    assert_eq!(apply_action(33, 2), 65);
    assert_eq!(apply_action(33, 3), 34);
    assert_eq!(apply_action(33, 4), 32);
    assert_eq!(apply_action(33, 7), 33);
    assert_eq!(apply_action(0, 1), 992);
}
