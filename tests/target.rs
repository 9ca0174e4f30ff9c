use beetle_wander::target::{pick_target, random_target, INSET, SCREEN_HEIGHT, SCREEN_WIDTH};
use wyrand::WyRand;

#[test]
fn zero_draws_pick_inset_corner() {
    assert_eq!(pick_target(0, 0), (16, 16));
}

#[test]
fn draws_reduce_modulo_span() {
    assert_eq!(pick_target(100, 40), (100 % 96 + 16, 40 % 32 + 16));
    assert_eq!(pick_target(95, 31), (111, 47));
    assert_eq!(pick_target(96, 32), (16, 16));
    assert_eq!(pick_target(u64::MAX, u64::MAX), ((u64::MAX % 96) as i32 + 16, (u64::MAX % 32) as i32 + 16));
}

#[test]
fn random_targets_stay_in_inset() {
    let mut rng = WyRand::new(12345);
    let mut seen_x = std::collections::HashSet::new();
    for _ in 0..500 {
        let (x, y) = random_target(&mut rng);
        assert!(x >= INSET && x < SCREEN_WIDTH - INSET);
        assert!(y >= INSET && y < SCREEN_HEIGHT - INSET);
        seen_x.insert(x);
    }
    // The generator's draws reach the picker: the targets vary.
    assert!(seen_x.len() > 10);
}

#[test]
fn random_target_matches_two_draws() {
    let mut a = WyRand::new(99);
    let mut b = WyRand::new(99);
    let kx = b.rand();
    let ky = b.rand();
    assert_eq!(random_target(&mut a), pick_target(kx, ky));
}
