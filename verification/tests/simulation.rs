// End-to-end simulation checks: a fixed-seed population of 2 predators
// and 48 prey is run for many ticks, and after every tick every agent
// must sit inside the domain with its speed in its kind's band.

use boids::boid::BoidType;
use boids::flock::Flock;

// Half-extents of a 1500 x 900 world, in ticks.
const RIGHT: i64 = 750_000;
const TOP: i64 = 450_000;

// A fixed linear-congruential draw, standing in for the random source.
fn fixed_draws(n: usize) -> Vec<i64> {
    let mut state: u64 = 0x2545_F491_4F6C_DD1D;
    let mut draws: Vec<i64> = Vec::new();
    for i in 0..n {
        state = state.wrapping_mul(6364136223846793005).wrapping_add(1442695040888963407);
        let r = (state >> 33) as i64;
        draws.push(match i % 6 {
            0 => r % 500_001 - 250_000,
            1 => r % 400_001 - 200_000,
            _ => r % 1_001 - 500,
        });
    }
    draws
}

#[test]
fn flock_splits_kinds_by_index() {
    let draws = fixed_draws(6 * 50);
    let flock = Flock::new(50, 2, 20_000, &draws);
    assert_eq!(flock.len(), 50);
    for i in 0..50 {
        let b = flock.get(i);
        if i < 2 {
            assert!(matches!(b.nature, BoidType::Predator));
        } else {
            assert!(matches!(b.nature, BoidType::Prey));
        }
    }
}

#[test]
fn flock_takes_its_state_from_the_draws() {
    let draws = fixed_draws(6 * 50);
    let flock = Flock::new(50, 2, 20_000, &draws);
    for i in 0..50 {
        let b = flock.get(i);
        assert_eq!(b.position.x, draws[6 * i]);
        assert_eq!(b.position.y, draws[6 * i + 1]);
        assert_eq!(b.velocity.x, draws[6 * i + 2]);
        assert_eq!(b.velocity.y, draws[6 * i + 3]);
        assert_eq!(b.acceleration.x, draws[6 * i + 4]);
        assert_eq!(b.acceleration.y, draws[6 * i + 5]);
        assert_eq!(b.radius, 20_000);
    }
}

#[test]
fn long_run_keeps_positions_and_speeds_in_bounds() {
    let draws = fixed_draws(6 * 50);
    let mut flock = Flock::new(50, 2, 20_000, &draws);
    for _tick in 0..40 {
        flock.tick(TOP, RIGHT);
        for i in 0..flock.len() {
            let b = flock.get(i);
            assert!(-RIGHT <= b.position.x && b.position.x <= RIGHT);
            assert!(-TOP <= b.position.y && b.position.y <= TOP);
            assert_eq!(b.acceleration.x, 0);
            assert_eq!(b.acceleration.y, 0);
            let n = b.velocity.x * b.velocity.x + b.velocity.y * b.velocity.y;
            let (mx, mn) = match b.nature {
                BoidType::Predator => (3_000i64, 1_000i64),
                BoidType::Prey => (5_000i64, 1_500i64),
            };
            assert!(n <= mx * mx);
            assert!(n == 0 || n >= mn * mn);
        }
    }
}

#[test]
fn a_tick_never_changes_an_agents_kind() {
    // the proximity trigger is computed each tick but deliberately
    // never acted on
    let draws = fixed_draws(6 * 30);
    let mut flock = Flock::new(30, 3, 20_000, &draws);
    let kinds: Vec<BoidType> = (0..30).map(|i| flock.get(i).nature).collect();
    for _tick in 0..10 {
        flock.tick(TOP, RIGHT);
    }
    for i in 0..30 {
        assert_eq!(flock.get(i).nature, kinds[i]);
    }
}

#[test]
fn a_lone_agent_flies_straight_and_wraps() {
    let draws: Vec<i64> = vec![0, 0, 400, 300, 0, 0];
    let mut flock = Flock::new(1, 0, 20_000, &draws);
    flock.tick(TOP, RIGHT);
    let b = flock.get(0);
    // no neighbours: no force; the slow start is lifted into the speed
    // band along the same heading (heading 4:3 doubled to 1600:1200,
    // then renormalised to just above the minimum speed of 1.5)
    assert_eq!(b.position.x, 400);
    assert_eq!(b.position.y, 300);
    assert_eq!(b.velocity.x, 1_208);
    assert_eq!(b.velocity.y, 906);
}
