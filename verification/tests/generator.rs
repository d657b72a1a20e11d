use blockwars::Rng;

/// The linear congruence the generator promises, restated independently.
fn lcg(x: u32) -> u32 {
    ((1664525u64 * x as u64 + 1013904223u64) % 0x8000_0000u64) as u32
}

#[test]
fn first_draw_formula() {
    let mut rng = Rng::new(1);
    assert_eq!(rng.next(), 1_015_568_748);
}

#[test]
fn follows_the_congruence() {
    let mut rng = Rng::new(42);
    let mut expected: u32 = 42;
    for _ in 0..1000 {
        expected = lcg(expected);
        assert_eq!(rng.next(), expected);
    }
}

#[test]
fn same_seed_same_sequence() {
    let mut a = Rng::new(123456);
    let mut b = Rng::new(123456);
    for _ in 0..200 {
        assert_eq!(a.next(), b.next());
    }
}

#[test]
fn rand_in_range_formula() {
    // From seed 42 the next state is 1_083_814_273, and
    // 1_083_814_273 mod 7 = 3, so the draw from [5, 11] is 8.
    let mut rng = Rng::new(42);
    assert_eq!(rng.rand_in_range(5, 11), 8);
}

#[test]
fn rand_in_range_stays_inside() {
    for seed in 0..50u32 {
        let mut rng = Rng::new(seed);
        for _ in 0..50 {
            let v = rng.rand_in_range(5, 11);
            assert!((5..=11).contains(&v));
            let w = rng.rand_in_range(0, 0);
            assert_eq!(w, 0);
        }
    }
}
