// Unit checks of the agent: integration, speed clamping, boundary wrap,
// neighbour query and each steering rule, on exact fixed-point values
// (1000 ticks per world unit).

use boids::boid::{Boid, BoidType};
use boids::geom::Vec2;

fn prey_at(x: i64, y: i64) -> Boid {
    Boid::new(x, y, 20_000, BoidType::Prey, 0, 0, 0, 0)
}

fn predator_at(x: i64, y: i64) -> Boid {
    Boid::new(x, y, 20_000, BoidType::Predator, 0, 0, 0, 0)
}

#[test]
fn update_resets_acceleration() {
    let mut b = Boid::new(0, 0, 20_000, BoidType::Prey, 100, -200, 300, -400);
    b.update();
    assert_eq!(b.acceleration.x, 0);
    assert_eq!(b.acceleration.y, 0);
}

#[test]
fn update_zero_velocity_stays_zero() {
    let mut b = prey_at(7_000, -3_000);
    b.update();
    assert_eq!(b.velocity.x, 0);
    assert_eq!(b.velocity.y, 0);
    assert_eq!(b.position.x, 7_000);
    assert_eq!(b.position.y, -3_000);
}

#[test]
fn update_moves_by_old_velocity() {
    let mut b = Boid::new(1_000, 2_000, 20_000, BoidType::Prey, 500, -500, 0, 0);
    b.update();
    // position integrates the pre-update velocity
    assert_eq!(b.position.x, 1_500);
    assert_eq!(b.position.y, 1_500);
}

#[test]
fn update_raises_slow_speed_to_minimum() {
    // speed 0.1 world units, far below the prey minimum of 1.5: the
    // heading is kept and the speed lands just above the minimum
    let mut b = Boid::new(0, 0, 20_000, BoidType::Prey, 100, 0, 0, 0);
    b.update();
    assert_eq!(b.velocity.x, 1_510);
    assert_eq!(b.velocity.y, 0);
}

#[test]
fn update_cuts_fast_speed_to_maximum_prey() {
    let mut b = Boid::new(0, 0, 20_000, BoidType::Prey, 5_000, 5_000, 0, 0);
    b.update();
    assert_eq!(b.velocity.x, 3_535);
    assert_eq!(b.velocity.y, 3_535);
    let n = b.velocity.x * b.velocity.x + b.velocity.y * b.velocity.y;
    assert!(n <= 5_000 * 5_000);
    assert!(n >= 1_500 * 1_500);
}

#[test]
fn update_cuts_fast_speed_to_maximum_predator() {
    let mut b = Boid::new(0, 0, 20_000, BoidType::Predator, 4_000, 0, 0, 0);
    b.update();
    assert_eq!(b.velocity.x, 3_000);
    assert_eq!(b.velocity.y, 0);
}

#[test]
fn update_clamps_acceleration_to_force_cap() {
    // prey force cap is 0.5 world units: an accumulated (1.0, 0) force
    // is cut to (0.5, 0) before it reaches the velocity
    let mut b = Boid::new(0, 0, 20_000, BoidType::Prey, 2_000, 0, 1_000, 0);
    b.update();
    assert_eq!(b.velocity.x, 2_500);
    assert_eq!(b.velocity.y, 0);
}

#[test]
fn speed_band_holds_for_both_kinds() {
    for kind in [BoidType::Prey, BoidType::Predator] {
        let (mx, mn) = match kind {
            BoidType::Prey => (5_000i64, 1_500i64),
            BoidType::Predator => (3_000i64, 1_000i64),
        };
        for (vx, vy, ax, ay) in
            [(1, 1, 0, 0), (-500, 499, 500, -500), (0, 0, 0, 300), (433, -91, -500, 17)]
        {
            let mut b = Boid::new(0, 0, 20_000, kind, vx, vy, ax, ay);
            b.update();
            let n = b.velocity.x * b.velocity.x + b.velocity.y * b.velocity.y;
            assert!(n <= mx * mx);
            assert!(n == 0 || n >= mn * mn);
        }
    }
}

#[test]
fn edge_wraps_exactly_at_the_corner() {
    let mut b = prey_at(5_000, 4_000);
    b.edge(4_000, 5_000);
    assert_eq!(b.position.x, -5_000);
    assert_eq!(b.position.y, -4_000);
}

#[test]
fn edge_keeps_interior_position() {
    let mut b = prey_at(4_999, -3_999);
    b.edge(4_000, 5_000);
    assert_eq!(b.position.x, 4_999);
    assert_eq!(b.position.y, -3_999);
}

#[test]
fn edge_wraps_both_directions() {
    let mut b = prey_at(6_000, -4_500);
    b.edge(4_000, 5_000);
    assert_eq!(b.position.x, -5_000);
    assert_eq!(b.position.y, 4_000);
}

#[test]
fn local_boids_sees_near_prey_not_far_predator() {
    // the scenario of the perception rule: prey at 0 and 50 world
    // units, a predator at 500; the first prey sees only the second
    let pop = vec![prey_at(0, 0), prey_at(50_000, 0), predator_at(500_000, 0)];
    let local = pop[0].local_boids(&pop, 0);
    assert_eq!(local.len(), 1);
    assert_eq!(local[0].position.x, 50_000);
    assert!(matches!(local[0].nature, BoidType::Prey));
}

#[test]
fn local_boids_excludes_the_querying_agent() {
    let pop = vec![prey_at(0, 0), prey_at(10_000, 0)];
    let local = pop[0].local_boids(&pop, 0);
    assert_eq!(local.len(), 1);
    assert_eq!(local[0].position.x, 10_000);
}

#[test]
fn local_boids_predator_reaches_farther() {
    // 250 world units: outside prey perception, inside a predator's
    let pop = vec![predator_at(0, 0), prey_at(250_000, 0)];
    assert_eq!(pop[0].local_boids(&pop, 0).len(), 1);
    let pop2 = vec![prey_at(0, 0), prey_at(250_000, 0)];
    assert_eq!(pop2[0].local_boids(&pop2, 0).len(), 0);
}

#[test]
fn forces_are_zero_without_neighbours() {
    let b = prey_at(0, 0);
    let empty: Vec<Boid> = Vec::new();
    for f in [
        b.alignment(&empty),
        b.cohesion(&empty),
        b.separation(&empty),
        b.avoid_predators(&empty),
        b.catch_prey(&empty),
    ] {
        assert_eq!(f.x, 0);
        assert_eq!(f.y, 0);
    }
    assert!(!b.convert_to_predator(&empty));
}

#[test]
fn alignment_steers_toward_average_heading() {
    let me = Boid::new(0, 0, 20_000, BoidType::Prey, 1_000, 0, 0, 0);
    let others = vec![
        Boid::new(10_000, 0, 20_000, BoidType::Prey, 3_000, 0, 0, 0),
        Boid::new(20_000, 0, 20_000, BoidType::Prey, 2_000, 0, 0, 0),
    ];
    let f = me.alignment(&others);
    // average velocity 2.5 units, own 1, difference 1.5, scaled by 2/5
    assert_eq!(f.x, 600);
    assert_eq!(f.y, 0);
}

#[test]
fn cohesion_steers_toward_centre_of_mass() {
    let me = prey_at(0, 0);
    let others = vec![prey_at(10_000, 0), prey_at(30_000, 0)];
    let f = me.cohesion(&others);
    // centre at 20 units, distance 20, scaled by 1/20
    assert_eq!(f.x, 1_000);
    assert_eq!(f.y, 0);
}

#[test]
fn separation_pushes_away_with_fixed_gain() {
    let me = prey_at(0, 0);
    let f = me.separation(&vec![prey_at(100_000, 0)]);
    // (me - neighbour) / (2 * distance) has length one half, and the
    // rule scales it by 1.5: three quarters of a unit away
    assert_eq!(f.x, -750);
    assert_eq!(f.y, 0);
}

#[test]
fn separation_skips_a_coincident_neighbour() {
    let me = prey_at(0, 0);
    let f = me.separation(&vec![prey_at(0, 0)]);
    assert_eq!(f.x, 0);
    assert_eq!(f.y, 0);
}

#[test]
fn separation_stays_bounded_as_distance_shrinks() {
    let me = prey_at(0, 0);
    for d in [100_000i64, 10_000, 1_000, 500, 3, 1] {
        let f: Vec2 = me.separation(&vec![prey_at(d, 0)]);
        assert!(f.x.abs() <= 750);
        assert!(f.y.abs() <= 750);
    }
}

#[test]
fn avoid_predators_ignores_prey() {
    let me = prey_at(0, 0);
    let others = vec![predator_at(100_000, 0), prey_at(1_000, 0)];
    let f = me.avoid_predators(&others);
    assert_eq!(f.x, -2_500);
    assert_eq!(f.y, 0);
}

#[test]
fn catch_prey_blends_velocity_and_position() {
    let me = predator_at(0, 0);
    let others = vec![Boid::new(1_000, 0, 20_000, BoidType::Prey, 2_000, 0, 0, 0)];
    let f = me.catch_prey(&others);
    assert_eq!(f.x, 3_000);
    assert_eq!(f.y, 0);
}

#[test]
fn catch_prey_is_zero_among_predators_only() {
    let me = predator_at(0, 0);
    let others = vec![predator_at(1_000, 0), predator_at(0, 2_000)];
    let f = me.catch_prey(&others);
    assert_eq!(f.x, 0);
    assert_eq!(f.y, 0);
}

#[test]
fn alignment_truncates_toward_zero() {
    let me = prey_at(0, 0);
    let others = vec![Boid::new(0, 10_000, 20_000, BoidType::Prey, -999, 0, 0, 0)];
    let f = me.alignment(&others);
    // 2 * (-999) / 5 cut toward zero, as machine division does
    assert_eq!(f.x, -399);
    assert_eq!(f.y, 0);
}

#[test]
fn cohesion_pulls_backwards_too() {
    let me = prey_at(10_000, 0);
    let f = me.cohesion(&vec![prey_at(-10_000, 0)]);
    assert_eq!(f.x, -1_000);
    assert_eq!(f.y, 0);
}

#[test]
fn separation_points_away_along_both_axes() {
    let me = prey_at(0, 0);
    let f = me.separation(&vec![prey_at(3_000, 4_000)]);
    // distance 5 units: each component scaled by 1000 / (2 * 5000),
    // then by 3/2
    assert_eq!(f.x, -450);
    assert_eq!(f.y, -600);
}

#[test]
fn catch_prey_averages_over_the_prey_alone() {
    let me = predator_at(0, 0);
    let others = vec![
        Boid::new(10_000, 0, 20_000, BoidType::Prey, 1_000, 0, 0, 0),
        Boid::new(30_000, 0, 20_000, BoidType::Prey, 3_000, 0, 0, 0),
        predator_at(5_000, 5_000),
    ];
    let f = me.catch_prey(&others);
    // the two prey average to velocity 2 and position 20 units; the
    // predator neighbour does not dilute the average
    assert_eq!(f.x, 22_000);
    assert_eq!(f.y, 0);
}

#[test]
fn convert_to_predator_fires_strictly_inside_forty_units() {
    let me = prey_at(0, 0);
    assert!(me.convert_to_predator(&vec![predator_at(39_999, 0)]));
    assert!(!me.convert_to_predator(&vec![predator_at(40_000, 0)]));
    assert!(!me.convert_to_predator(&vec![prey_at(1_000, 0)]));
}
