use dungeonmaker::draws::Draws;
use dungeonmaker::draws::DRAW_LIMIT;

#[test]
fn scripted_draws_come_in_order_reduced_to_the_bound() {
    let mut draws = Draws::scripted(vec![7, 12, 3, 1_000_000]);
    assert_eq!(draws.remaining(), 4);
    assert_eq!(draws.below(4), 3);
    assert_eq!(draws.below(5), 2);
    assert_eq!(draws.below(100), 3);
    assert_eq!(draws.below(64), 0);
    assert_eq!(draws.remaining(), 0);
}

#[test]
fn exhausted_draws_yield_zero() {
    let mut draws = Draws::scripted(vec![9]);
    assert_eq!(draws.below(1), 0);
    assert_eq!(draws.remaining(), 0);
    assert_eq!(draws.below(10), 0);
    assert_eq!(draws.below(u64::MAX), 0);
    assert_eq!(draws.remaining(), 0);
    let mut empty = Draws::scripted(Vec::new());
    assert_eq!(empty.below(3), 0);
}

#[test]
fn large_bounds_leave_the_draw_as_it_is() {
    let mut draws = Draws::scripted(vec![u32::MAX, 5]);
    assert_eq!(draws.below(u64::MAX), u32::MAX as u64);
    assert_eq!(draws.below(1 << 40), 5);
}

#[test]
fn random_draws_stay_below_the_limit() {
    let mut draws = Draws::random(512);
    assert_eq!(draws.remaining(), 512);
    let mut seen = Vec::new();
    for _ in 0..512 {
        let value = draws.below(u64::MAX);
        assert!(value < DRAW_LIMIT as u64);
        seen.push(value);
    }
    assert_eq!(draws.remaining(), 0);
    assert!(seen.iter().any(|v| *v != seen[0]));
    assert!(seen.iter().any(|v| *v != 0));
    assert_eq!(Draws::random(0).remaining(), 0);
}
