//! The agent: kinematic state, type-dependent limits, the steering rules,
//! the integration step and the toroidal boundary wrap.
//!
//! Coordinates, velocities and forces are fixed-point: 1000 ticks per
//! world unit.  The per-kind limits are those of the classic two-species
//! flock: prey fly at speed 1.5..5 under forces up to 0.5 and see 100
//! units far; predators fly at 1..3 under forces up to 1 and see 300
//! units far.

use vstd::prelude::*;
use crate::geom::{
    Vec2, div_t, div_trunc, dist_sq, isqrt, lemma_sq_bound, nsq, sq, sqrt_floor,
    vadd,
};
use crate::limit::{
    lemma_comp_bound, limit_force, limit_speed, spec_limit_force, spec_limit_speed,
};

verus! {

/// The two kinds of agent.
#[derive(Clone, Copy, Debug, PartialEq, Eq, Structural)]
pub enum BoidType {
    Predator,
    Prey,
}

/// Cap on the half-extents of the domain, in ticks (100 000 world units).
pub const POS_LIMIT: i64 = 100_000_000;

/// Cap on the magnitude of the initial velocity and acceleration draws,
/// in ticks (half a world unit).
pub const SEED_LIMIT: i64 = 500;

/// The ghost image of an agent: every field as an unbounded integer.
pub struct BoidView {
    pub position: (int, int),
    pub velocity: (int, int),
    pub nature: BoidType,
    pub acceleration: (int, int),
    pub radius: int,
    pub max_velocity: int,
    pub min_velocity: int,
    pub max_force: int,
}

/// One agent of the flock.
#[derive(Clone, Copy, Debug, PartialEq, Eq, Structural)]
pub struct Boid {
    pub position: Vec2,
    pub velocity: Vec2,
    pub nature: BoidType,
    pub acceleration: Vec2,
    pub radius: i64,
    pub max_velocity: i64,
    pub min_velocity: i64,
    pub max_force: i64,
}

impl View for Boid {
    type V = BoidView;

    open spec fn view(&self) -> BoidView {
        BoidView {
            position: self.position@,
            velocity: self.velocity@,
            nature: self.nature,
            acceleration: self.acceleration@,
            radius: self.radius as int,
            max_velocity: self.max_velocity as int,
            min_velocity: self.min_velocity as int,
            max_force: self.max_force as int,
        }
    }
}

/// The squared perception radius of a kind: predators see 300 world
/// units far, prey 100.
pub open spec fn spec_perception_sq(k: BoidType) -> int {
    match k {
        BoidType::Predator => 90_000_000_000,
        BoidType::Prey => 10_000_000_000,
    }
}

/// Both position components within `[-m, m]`.
pub open spec fn pos_bounded(b: BoidView, m: int) -> bool {
    -m <= b.position.0 <= m && -m <= b.position.1 <= m
}

impl Boid {
    /// The type-dependent limits hold the values fixed for the kind.
    pub open spec fn limits_ok(self) -> bool {
        &&& self.radius >= 0
        &&& match self.nature {
            BoidType::Prey => self.max_velocity == 5000 && self.min_velocity == 1500
                && self.max_force == 500,
            BoidType::Predator => self.max_velocity == 3000 && self.min_velocity == 1000
                && self.max_force == 1000,
        }
    }

    /// Well-formed kinematic state: limits match the kind, the velocity
    /// components are within the largest speed cap, and the acceleration
    /// accumulator is within one tick's worth of steering forces.
    pub open spec fn wf(self) -> bool {
        &&& self.limits_ok()
        &&& -5000 <= self@.velocity.0 <= 5000
        &&& -5000 <= self@.velocity.1 <= 5000
        &&& -1_000_000_000 <= self@.acceleration.0 <= 1_000_000_000
        &&& -1_000_000_000 <= self@.acceleration.1 <= 1_000_000_000
    }

    /// Create an agent at a position with a kind, a drawn initial
    /// velocity and a drawn initial acceleration.
    pub fn new(
        pos_x: i64,
        pos_y: i64,
        radius: i64,
        boid_type: BoidType,
        vel_x: i64,
        vel_y: i64,
        acc_x: i64,
        acc_y: i64,
    ) -> (b: Boid)
        requires
            -POS_LIMIT <= pos_x <= POS_LIMIT,
            -POS_LIMIT <= pos_y <= POS_LIMIT,
            0 <= radius,
            -SEED_LIMIT <= vel_x <= SEED_LIMIT,
            -SEED_LIMIT <= vel_y <= SEED_LIMIT,
            -SEED_LIMIT <= acc_x <= SEED_LIMIT,
            -SEED_LIMIT <= acc_y <= SEED_LIMIT,
        ensures
            b.wf(),
            b@.position == (pos_x as int, pos_y as int),
            b@.velocity == (vel_x as int, vel_y as int),
            b@.acceleration == (acc_x as int, acc_y as int),
            b.nature == boid_type,
            b@.radius == radius as int,
    {
        let max_velocity: i64 = match boid_type {
            BoidType::Prey => 5000,
            BoidType::Predator => 3000,
        };
        let min_velocity: i64 = match boid_type {
            BoidType::Prey => 1500,
            BoidType::Predator => 1000,
        };
        let max_force: i64 = match boid_type {
            BoidType::Prey => 500,
            BoidType::Predator => 1000,
        };
        Boid {
            position: Vec2 { x: pos_x, y: pos_y },
            velocity: Vec2 { x: vel_x, y: vel_y },
            nature: boid_type,
            acceleration: Vec2 { x: acc_x, y: acc_y },
            radius,
            max_velocity,
            min_velocity,
            max_force,
        }
    }

    /// One integration step: clamp the accumulated acceleration to the
    /// force cap, move by the old velocity, accelerate, clamp the speed
    /// into the kind's band, and reset the accumulator.
    pub fn update(&mut self)
        requires
            old(self).wf(),
            -150_000_000 <= old(self).position.x <= 150_000_000,
            -150_000_000 <= old(self).position.y <= 150_000_000,
        ensures
            final(self).wf(),
            final(self).nature == old(self).nature,
            final(self)@.radius == old(self)@.radius,
            final(self)@.max_velocity == old(self)@.max_velocity,
            final(self)@.min_velocity == old(self)@.min_velocity,
            final(self)@.max_force == old(self)@.max_force,
            final(self)@.acceleration == (0int, 0int),
            final(self)@.position.0 == old(self)@.position.0 + old(self)@.velocity.0,
            final(self)@.position.1 == old(self)@.position.1 + old(self)@.velocity.1,
            final(self)@.velocity == spec_limit_speed(
                integrated_velocity(*old(self)),
                old(self)@.min_velocity,
                old(self)@.max_velocity,
            ),
            nsq(final(self)@.velocity) <= sq(old(self)@.max_velocity),
            1 <= nsq(integrated_velocity(*old(self))) ==> sq(old(self)@.min_velocity)
                <= nsq(final(self)@.velocity),
            nsq(integrated_velocity(*old(self))) == 0 ==> final(self)@.velocity == (
            0int,
            0int,
            ),
            final(self)@.velocity == (0int, 0int) || sq(old(self)@.min_velocity) <= nsq(
                final(self)@.velocity,
            ),
    {
        let a = limit_force(self.acceleration, self.max_force);
        self.acceleration = a;
        self.position = Vec2 {
            x: self.position.x + self.velocity.x,
            y: self.position.y + self.velocity.y,
        };
        self.velocity = Vec2 {
            x: self.velocity.x + self.acceleration.x,
            y: self.velocity.y + self.acceleration.y,
        };
        self.velocity = limit_speed(self.velocity, self.min_velocity, self.max_velocity);
        self.acceleration = Vec2 { x: 0, y: 0 };
        proof {
            lemma_comp_bound(
                self@.velocity.0,
                self@.velocity.1,
                old(self)@.max_velocity,
            );
            let iv = integrated_velocity(*old(self));
            crate::limit::lemma_sq_abs(iv.0);
            crate::limit::lemma_sq_abs(iv.1);
            if nsq(iv) == 0 {
                lemma_comp_bound(iv.0, iv.1, 0);
            }
        }
    }

    /// Scan the whole population and collect every other agent within
    /// this agent's perception radius, in population order.
    pub fn local_boids(&self, all_boids: &Vec<Boid>, boid_index: usize) -> (r: Vec<Boid>)
        requires
            pos_bounded(self@, 1_000_000_000),
            forall|j: int|
                0 <= j < all_boids@.len() ==> pos_bounded(
                    #[trigger] all_boids@[j]@,
                    1_000_000_000,
                ),
        ensures
            views(r@) == spec_local(self@, views(all_boids@), boid_index as int),
            forall|k: int|
                0 <= k < r@.len() ==> dist_sq(self@.position, #[trigger] r@[k]@.position)
                    <= spec_perception_sq(self.nature),
            forall|k: int|
                0 <= k < r@.len() ==> exists|j: int|
                    0 <= j < all_boids@.len() && j != boid_index && #[trigger] r@[k]
                        == all_boids@[j],
    {
        let perception_sq: i64 = match self.nature {
            BoidType::Predator => 90_000_000_000,
            BoidType::Prey => 10_000_000_000,
        };
        let ghost vs = views(all_boids@);
        let mut result: Vec<Boid> = Vec::new();
        let mut i: usize = 0;
        while i < all_boids.len()
            invariant
                0 <= i <= all_boids@.len(),
                perception_sq == spec_perception_sq(self.nature),
                vs == views(all_boids@),
                pos_bounded(self@, 1_000_000_000),
                forall|j: int|
                    0 <= j < all_boids@.len() ==> pos_bounded(
                        #[trigger] all_boids@[j]@,
                        1_000_000_000,
                    ),
                views(result@) == local_upto(self@, vs, boid_index as int, i as int),
                forall|k: int|
                    0 <= k < result@.len() ==> dist_sq(
                        self@.position,
                        #[trigger] result@[k]@.position,
                    ) <= spec_perception_sq(self.nature),
                forall|k: int|
                    0 <= k < result@.len() ==> exists|j: int|
                        0 <= j < all_boids@.len() && j != boid_index && #[trigger] result@[k]
                            == all_boids@[j],
            decreases all_boids@.len() - i,
        {
            if i != boid_index {
                let b = all_boids[i];
                proof {
                    assert(pos_bounded(all_boids@[i as int]@, 1_000_000_000));
                }
                let dx = self.position.x - b.position.x;
                let dy = self.position.y - b.position.y;
                proof {
                    lemma_sq_bound(dx as int, 2_000_000_000);
                    lemma_sq_bound(dy as int, 2_000_000_000);
                }
                let d2 = dx * dx + dy * dy;
                if d2 <= perception_sq {
                    result.push(b);
                }
            }
            i = i + 1;
            proof {
                assert(views(result@) =~= local_upto(
                    self@,
                    vs,
                    boid_index as int,
                    i as int,
                ));
            }
        }
        proof {
            assert(views(result@) == spec_local(self@, views(all_boids@), boid_index as int));
        }
        result
    }

    /// Steer towards the average heading of the neighbours.
    pub fn alignment(&self, other_boids: &Vec<Boid>) -> (r: Vec2)
        requires
            self.wf(),
            flockmates_ok(other_boids@),
        ensures
            r@ == spec_alignment(self@, views(other_boids@)),
            -4000 <= r.x <= 4000,
            -4000 <= r.y <= 4000,
            other_boids@.len() == 0 ==> r@ == (0int, 0int),
    {
        let len = other_boids.len();
        if len == 0 {
            return Vec2::zero();
        }
        let ghost vs = views(other_boids@);
        let mut svx: i64 = 0;
        let mut svy: i64 = 0;
        let mut i: usize = 0;
        while i < len
            invariant
                0 <= i <= len,
                len == other_boids@.len(),
                len <= 100_000,
                vs == views(other_boids@),
                forall|j: int|
                    0 <= j < other_boids@.len() ==> #[trigger] other_boids@[j].wf()
                        && pos_bounded(other_boids@[j]@, 100_000_000),
                (svx as int, svy as int) == sum_vel(vs.take(i as int)),
                -5000 * (i as int) <= svx <= 5000 * (i as int),
                -5000 * (i as int) <= svy <= 5000 * (i as int),
            decreases len - i,
        {
            let b = other_boids[i];
            proof {
                assert(other_boids@[i as int].wf() && pos_bounded(
                    other_boids@[i as int]@,
                    100_000_000,
                ));
                assert(vs.take(i as int + 1).drop_last() =~= vs.take(i as int));
                assert(vs.take(i as int + 1).last() == vs[i as int]);
            }
            svx = svx + b.velocity.x;
            svy = svy + b.velocity.y;
            i = i + 1;
        }
        proof {
            assert(vs.take(len as int) =~= vs);
        }
        let avx = div_trunc(svx, len as i64);
        let avy = div_trunc(svy, len as i64);
        proof {
            crate::geom::lemma_div_t_bound(svx as int, len as int, 5000);
            crate::geom::lemma_div_t_bound(svy as int, len as int, 5000);
        }
        let dx = avx - self.velocity.x;
        let dy = avy - self.velocity.y;
        let rx = div_trunc(2 * dx, 5);
        let ry = div_trunc(2 * dy, 5);
        proof {
            crate::geom::lemma_div_t_bound(2 * dx as int, 5, 4000);
            crate::geom::lemma_div_t_bound(2 * dy as int, 5, 4000);
        }
        Vec2 { x: rx, y: ry }
    }

    /// Steer towards the local centre of mass of the neighbours.
    pub fn cohesion(&self, other_boids: &Vec<Boid>) -> (r: Vec2)
        requires
            self.wf(),
            pos_bounded(self@, 100_000_000),
            flockmates_ok(other_boids@),
        ensures
            r@ == spec_cohesion(self@, views(other_boids@)),
            -10_000_000 <= r.x <= 10_000_000,
            -10_000_000 <= r.y <= 10_000_000,
            other_boids@.len() == 0 ==> r@ == (0int, 0int),
    {
        let len = other_boids.len();
        if len == 0 {
            return Vec2::zero();
        }
        let ghost vs = views(other_boids@);
        let mut spx: i64 = 0;
        let mut spy: i64 = 0;
        let mut i: usize = 0;
        while i < len
            invariant
                0 <= i <= len,
                len == other_boids@.len(),
                len <= 100_000,
                vs == views(other_boids@),
                forall|j: int|
                    0 <= j < other_boids@.len() ==> #[trigger] other_boids@[j].wf()
                        && pos_bounded(other_boids@[j]@, 100_000_000),
                (spx as int, spy as int) == sum_pos(vs.take(i as int)),
                -100_000_000 * (i as int) <= spx <= 100_000_000 * (i as int),
                -100_000_000 * (i as int) <= spy <= 100_000_000 * (i as int),
            decreases len - i,
        {
            let b = other_boids[i];
            proof {
                assert(other_boids@[i as int].wf() && pos_bounded(
                    other_boids@[i as int]@,
                    100_000_000,
                ));
                assert(vs.take(i as int + 1).drop_last() =~= vs.take(i as int));
                assert(vs.take(i as int + 1).last() == vs[i as int]);
            }
            spx = spx + b.position.x;
            spy = spy + b.position.y;
            i = i + 1;
        }
        proof {
            assert(vs.take(len as int) =~= vs);
        }
        let apx = div_trunc(spx, len as i64);
        let apy = div_trunc(spy, len as i64);
        proof {
            crate::geom::lemma_div_t_bound(spx as int, len as int, 100_000_000);
            crate::geom::lemma_div_t_bound(spy as int, len as int, 100_000_000);
        }
        let dx = apx - self.position.x;
        let dy = apy - self.position.y;
        let rx = div_trunc(dx, 20);
        let ry = div_trunc(dy, 20);
        proof {
            crate::geom::lemma_div_t_bound(dx as int, 20, 10_000_000);
            crate::geom::lemma_div_t_bound(dy as int, 20, 10_000_000);
        }
        Vec2 { x: rx, y: ry }
    }

    /// Short-range repulsion away from every neighbour; a coincident
    /// neighbour is skipped rather than divided by zero.
    pub fn separation(&self, other_boids: &Vec<Boid>) -> (r: Vec2)
        requires
            pos_bounded(self@, 100_000_000),
            flockmates_ok(other_boids@),
        ensures
            r@ == spec_separation(self@, views(other_boids@)),
            -75_000_000 <= r.x <= 75_000_000,
            -75_000_000 <= r.y <= 75_000_000,
            other_boids@.len() == 0 ==> r@ == (0int, 0int),
    {
        let len = other_boids.len();
        if len == 0 {
            return Vec2::zero();
        }
        let ghost vs = views(other_boids@);
        let mut sx: i64 = 0;
        let mut sy: i64 = 0;
        let mut i: usize = 0;
        while i < len
            invariant
                0 <= i <= len,
                len == other_boids@.len(),
                len <= 100_000,
                vs == views(other_boids@),
                pos_bounded(self@, 100_000_000),
                forall|j: int|
                    0 <= j < other_boids@.len() ==> #[trigger] other_boids@[j].wf()
                        && pos_bounded(other_boids@[j]@, 100_000_000),
                (sx as int, sy as int) == sep_sum(self@, vs.take(i as int)),
                -500 * (i as int) <= sx <= 500 * (i as int),
                -500 * (i as int) <= sy <= 500 * (i as int),
            decreases len - i,
        {
            let b = other_boids[i];
            proof {
                assert(other_boids@[i as int].wf() && pos_bounded(
                    other_boids@[i as int]@,
                    100_000_000,
                ));
                assert(vs.take(i as int + 1).drop_last() =~= vs.take(i as int));
                assert(vs.take(i as int + 1).last() == vs[i as int]);
            }
            let dx = self.position.x - b.position.x;
            let dy = self.position.y - b.position.y;
            proof {
                lemma_sq_bound(dx as int, 200_000_000);
                lemma_sq_bound(dy as int, 200_000_000);
            }
            let d2 = dx * dx + dy * dy;
            let d = isqrt(d2);
            if d > 0 {
                proof {
                    assert(-d <= dx <= d && -d <= dy <= d) by (nonlinear_arith)
                        requires
                            (dx as int) * (dx as int) <= d2,
                            (dy as int) * (dy as int) <= d2,
                            d2 < ((d as int) + 1) * ((d as int) + 1),
                            0 <= d,
                    ;
                    crate::geom::lemma_div_t_bound(dx as int * 1000, 2 * d as int, 500);
                    crate::geom::lemma_div_t_bound(dy as int * 1000, 2 * d as int, 500);
                }
                let cx = div_trunc(dx * 1000, 2 * d);
                let cy = div_trunc(dy * 1000, 2 * d);
                sx = sx + cx;
                sy = sy + cy;
            }
            i = i + 1;
        }
        proof {
            assert(vs.take(len as int) =~= vs);
        }
        let rx = div_trunc(3 * sx, 2);
        let ry = div_trunc(3 * sy, 2);
        proof {
            crate::geom::lemma_div_t_bound(3 * sx as int, 2, 75_000_000);
            crate::geom::lemma_div_t_bound(3 * sy as int, 2, 75_000_000);
        }
        Vec2 { x: rx, y: ry }
    }

    /// The separation form restricted to predator neighbours, with a
    /// stronger gain: every agent keeps clear of predators.
    pub fn avoid_predators(&self, other_boids: &Vec<Boid>) -> (r: Vec2)
        requires
            pos_bounded(self@, 100_000_000),
            flockmates_ok(other_boids@),
        ensures
            r@ == spec_avoid_predators(self@, views(other_boids@)),
            -250_000_000 <= r.x <= 250_000_000,
            -250_000_000 <= r.y <= 250_000_000,
            other_boids@.len() == 0 ==> r@ == (0int, 0int),
    {
        let len = other_boids.len();
        if len == 0 {
            return Vec2::zero();
        }
        let ghost vs = views(other_boids@);
        let mut sx: i64 = 0;
        let mut sy: i64 = 0;
        let mut i: usize = 0;
        while i < len
            invariant
                0 <= i <= len,
                len == other_boids@.len(),
                len <= 100_000,
                vs == views(other_boids@),
                pos_bounded(self@, 100_000_000),
                forall|j: int|
                    0 <= j < other_boids@.len() ==> #[trigger] other_boids@[j].wf()
                        && pos_bounded(other_boids@[j]@, 100_000_000),
                (sx as int, sy as int) == avoid_sum(self@, vs.take(i as int)),
                -500 * (i as int) <= sx <= 500 * (i as int),
                -500 * (i as int) <= sy <= 500 * (i as int),
            decreases len - i,
        {
            let b = other_boids[i];
            proof {
                assert(other_boids@[i as int].wf() && pos_bounded(
                    other_boids@[i as int]@,
                    100_000_000,
                ));
                assert(vs.take(i as int + 1).drop_last() =~= vs.take(i as int));
                assert(vs.take(i as int + 1).last() == vs[i as int]);
            }
            if matches!(b.nature, BoidType::Predator) {
                let dx = self.position.x - b.position.x;
                let dy = self.position.y - b.position.y;
                proof {
                    lemma_sq_bound(dx as int, 200_000_000);
                    lemma_sq_bound(dy as int, 200_000_000);
                }
                let d2 = dx * dx + dy * dy;
                let d = isqrt(d2);
                if d > 0 {
                    proof {
                        assert(-d <= dx <= d && -d <= dy <= d) by (nonlinear_arith)
                            requires
                                (dx as int) * (dx as int) <= d2,
                                (dy as int) * (dy as int) <= d2,
                                d2 < ((d as int) + 1) * ((d as int) + 1),
                                0 <= d,
                        ;
                        crate::geom::lemma_div_t_bound(dx as int * 1000, 2 * d as int, 500);
                        crate::geom::lemma_div_t_bound(dy as int * 1000, 2 * d as int, 500);
                    }
                    let cx = div_trunc(dx * 1000, 2 * d);
                    let cy = div_trunc(dy * 1000, 2 * d);
                    sx = sx + cx;
                    sy = sy + cy;
                }
            }
            i = i + 1;
        }
        proof {
            assert(vs.take(len as int) =~= vs);
        }
        Vec2 { x: 5 * sx, y: 5 * sy }
    }

    /// True when some predator neighbour has come within 40 world units.
    pub fn convert_to_predator(&self, other_boids: &Vec<Boid>) -> (r: bool)
        requires
            pos_bounded(self@, 1_000_000_000),
            forall|j: int|
                0 <= j < other_boids@.len() ==> pos_bounded(
                    #[trigger] other_boids@[j]@,
                    1_000_000_000,
                ),
        ensures
            r == spec_convert(self@, views(other_boids@)),
    {
        let ghost vs = views(other_boids@);
        let mut found = false;
        let mut i: usize = 0;
        while i < other_boids.len()
            invariant
                0 <= i <= other_boids@.len(),
                vs == views(other_boids@),
                pos_bounded(self@, 1_000_000_000),
                forall|j: int|
                    0 <= j < other_boids@.len() ==> pos_bounded(
                        #[trigger] other_boids@[j]@,
                        1_000_000_000,
                    ),
                found == exists|j: int|
                    0 <= j < i && vs[j].nature == BoidType::Predator && dist_sq(
                        self@.position,
                        vs[j].position,
                    ) < 1_600_000_000,
            decreases other_boids@.len() - i,
        {
            let b = other_boids[i];
            proof {
                assert(pos_bounded(other_boids@[i as int]@, 1_000_000_000));
                assert(vs[i as int] == other_boids@[i as int]@);
            }
            let dx = self.position.x - b.position.x;
            let dy = self.position.y - b.position.y;
            proof {
                lemma_sq_bound(dx as int, 2_000_000_000);
                lemma_sq_bound(dy as int, 2_000_000_000);
            }
            let d2 = dx * dx + dy * dy;
            let close = matches!(b.nature, BoidType::Predator) && d2 < 1_600_000_000;
            if close {
                found = true;
            }
            proof {
                assert(close == (vs[i as int].nature == BoidType::Predator && dist_sq(
                    self@.position,
                    vs[i as int].position,
                ) < 1_600_000_000));
                assert(found == exists|j: int|
                    0 <= j < i + 1 && vs[j].nature == BoidType::Predator && dist_sq(
                        self@.position,
                        vs[j].position,
                    ) < 1_600_000_000);
            }
            i = i + 1;
        }
        found
    }

    /// Chase the prey among the neighbours: match their average velocity
    /// and seek their average position.
    pub fn catch_prey(&self, other_boids: &Vec<Boid>) -> (r: Vec2)
        requires
            self.wf(),
            pos_bounded(self@, 100_000_000),
            flockmates_ok(other_boids@),
        ensures
            r@ == spec_catch_prey(self@, views(other_boids@)),
            -210_000_000 <= r.x <= 210_000_000,
            -210_000_000 <= r.y <= 210_000_000,
            other_boids@.len() == 0 ==> r@ == (0int, 0int),
    {
        let len = other_boids.len();
        let ghost vs = views(other_boids@);
        let mut svx: i64 = 0;
        let mut svy: i64 = 0;
        let mut spx: i64 = 0;
        let mut spy: i64 = 0;
        let mut prey: usize = 0;
        let mut i: usize = 0;
        while i < len
            invariant
                0 <= i <= len,
                len == other_boids@.len(),
                len <= 100_000,
                vs == views(other_boids@),
                forall|j: int|
                    0 <= j < other_boids@.len() ==> #[trigger] other_boids@[j].wf()
                        && pos_bounded(other_boids@[j]@, 100_000_000),
                (svx as int, svy as int) == sum_prey_vel(vs.take(i as int)),
                (spx as int, spy as int) == sum_prey_pos(vs.take(i as int)),
                prey as int == count_prey(vs.take(i as int)),
                0 <= prey <= i,
                -5000 * (prey as int) <= svx <= 5000 * (prey as int),
                -5000 * (prey as int) <= svy <= 5000 * (prey as int),
                -100_000_000 * (prey as int) <= spx <= 100_000_000 * (prey as int),
                -100_000_000 * (prey as int) <= spy <= 100_000_000 * (prey as int),
            decreases len - i,
        {
            let b = other_boids[i];
            proof {
                assert(other_boids@[i as int].wf() && pos_bounded(
                    other_boids@[i as int]@,
                    100_000_000,
                ));
                assert(vs.take(i as int + 1).drop_last() =~= vs.take(i as int));
                assert(vs.take(i as int + 1).last() == vs[i as int]);
            }
            if matches!(b.nature, BoidType::Prey) {
                svx = svx + b.velocity.x;
                svy = svy + b.velocity.y;
                spx = spx + b.position.x;
                spy = spy + b.position.y;
                prey = prey + 1;
            }
            i = i + 1;
        }
        proof {
            assert(vs.take(len as int) =~= vs);
        }
        if prey == 0 {
            return Vec2::zero();
        }
        let avx = div_trunc(svx, prey as i64);
        let avy = div_trunc(svy, prey as i64);
        let apx = div_trunc(spx, prey as i64);
        let apy = div_trunc(spy, prey as i64);
        proof {
            crate::geom::lemma_div_t_bound(svx as int, prey as int, 5000);
            crate::geom::lemma_div_t_bound(svy as int, prey as int, 5000);
            crate::geom::lemma_div_t_bound(spx as int, prey as int, 100_000_000);
            crate::geom::lemma_div_t_bound(spy as int, prey as int, 100_000_000);
        }
        Vec2 {
            x: avx - self.velocity.x + (apx - self.position.x),
            y: avy - self.velocity.y + (apy - self.position.y),
        }
    }

    /// Teleport across the domain boundary: a coordinate at or past an
    /// edge reappears at the opposite edge.
    pub fn edge(&mut self, top: i64, right: i64)
        requires
            0 <= top <= POS_LIMIT,
            0 <= right <= POS_LIMIT,
            -1_000_000_000 <= old(self).position.x <= 1_000_000_000,
            -1_000_000_000 <= old(self).position.y <= 1_000_000_000,
        ensures
            final(self)@.position.0 == wrap(old(self)@.position.0, right as int),
            final(self)@.position.1 == wrap(old(self)@.position.1, top as int),
            -right <= final(self).position.x <= right,
            -top <= final(self).position.y <= top,
            final(self)@.velocity == old(self)@.velocity,
            final(self)@.acceleration == old(self)@.acceleration,
            final(self).nature == old(self).nature,
            final(self)@.radius == old(self)@.radius,
            final(self)@.max_velocity == old(self)@.max_velocity,
            final(self)@.min_velocity == old(self)@.min_velocity,
            final(self)@.max_force == old(self)@.max_force,
    {
        if self.position.x >= right {
            self.position = Vec2 { x: -right, y: self.position.y };
        } else if self.position.x <= -right {
            self.position = Vec2 { x: right, y: self.position.y };
        }
        if self.position.y >= top {
            self.position = Vec2 { x: self.position.x, y: -top };
        } else if self.position.y <= -top {
            self.position = Vec2 { x: self.position.x, y: top };
        }
    }
}

/// The velocity after the clamped acceleration has been applied.
pub open spec fn integrated_velocity(b: Boid) -> (int, int) {
    let a = spec_limit_force(b@.acceleration, b@.max_force);
    (b@.velocity.0 + a.0, b@.velocity.1 + a.1)
}

/// One coordinate wrapped at `lim`: at or past an edge it teleports to
/// the opposite edge, strictly inside it is untouched.
pub open spec fn wrap(x: int, lim: int) -> int {
    if x >= lim {
        -lim
    } else if x <= -lim {
        lim
    } else {
        x
    }
}

/// The boundary wrap sends a coordinate exactly at the positive edge to
/// the negative edge and leaves a strictly interior coordinate unchanged.
pub proof fn lemma_edge_boundary(x: int, lim: int)
    requires
        0 <= lim,
    ensures
        wrap(lim, lim) == -lim,
        -lim < x < lim ==> wrap(x, lim) == x,
        -lim <= wrap(x, lim) <= lim,
{
}

/// The ghost images of a sequence of agents.
pub open spec fn views(s: Seq<Boid>) -> Seq<BoidView> {
    s.map_values(|b: Boid| b@)
}

/// A neighbour sequence fit to steer against: not too long, every member
/// well formed and within the coordinate cap.
pub open spec fn flockmates_ok(s: Seq<Boid>) -> bool {
    &&& s.len() <= 100_000
    &&& forall|j: int|
        0 <= j < s.len() ==> #[trigger] s[j].wf() && pos_bounded(s[j]@, 100_000_000)
}

/// The neighbours among the first `n` members of `s`: every agent other
/// than the one at `me_idx` whose distance from `me` is within the
/// perception radius of `me`'s kind, in population order.
pub open spec fn local_upto(me: BoidView, s: Seq<BoidView>, me_idx: int, n: int) -> Seq<
    BoidView,
>
    decreases n,
{
    if n <= 0 {
        Seq::empty()
    } else {
        let rest = local_upto(me, s, me_idx, n - 1);
        if n - 1 != me_idx && dist_sq(me.position, s[n - 1].position) <= spec_perception_sq(
            me.nature,
        ) {
            rest.push(s[n - 1])
        } else {
            rest
        }
    }
}

/// The whole neighbour sequence of `me` within the population `s`.
pub open spec fn spec_local(me: BoidView, s: Seq<BoidView>, me_idx: int) -> Seq<BoidView> {
    local_upto(me, s, me_idx, s.len() as int)
}

/// Sum of the neighbours' velocities.
pub open spec fn sum_vel(s: Seq<BoidView>) -> (int, int)
    decreases s.len(),
{
    if s.len() == 0 {
        (0int, 0int)
    } else {
        vadd(sum_vel(s.drop_last()), s.last().velocity)
    }
}

/// Sum of the neighbours' positions.
pub open spec fn sum_pos(s: Seq<BoidView>) -> (int, int)
    decreases s.len(),
{
    if s.len() == 0 {
        (0int, 0int)
    } else {
        vadd(sum_pos(s.drop_last()), s.last().position)
    }
}

/// Average neighbour velocity minus own velocity, scaled by `1 / 2.5`
/// (exactly `2 / 5` in ticks); the zero vector without neighbours.
pub open spec fn spec_alignment(me: BoidView, s: Seq<BoidView>) -> (int, int) {
    if s.len() == 0 {
        (0int, 0int)
    } else {
        let n = s.len() as int;
        let av = (div_t(sum_vel(s).0, n), div_t(sum_vel(s).1, n));
        (div_t(2 * (av.0 - me.velocity.0), 5), div_t(2 * (av.1 - me.velocity.1), 5))
    }
}

/// Average neighbour position minus own position, scaled by `1 / 20`;
/// the zero vector without neighbours.
pub open spec fn spec_cohesion(me: BoidView, s: Seq<BoidView>) -> (int, int) {
    if s.len() == 0 {
        (0int, 0int)
    } else {
        let n = s.len() as int;
        let ap = (div_t(sum_pos(s).0, n), div_t(sum_pos(s).1, n));
        (div_t(ap.0 - me.position.0, 20), div_t(ap.1 - me.position.1, 20))
    }
}

/// Repulsion from one neighbour: the vector from the neighbour to `me`
/// divided by twice the distance, so roughly half a world unit long
/// whatever the distance; a coincident neighbour contributes nothing.
pub open spec fn sep_term(me: BoidView, b: BoidView) -> (int, int) {
    let d2 = dist_sq(me.position, b.position);
    let d = sqrt_floor(d2);
    if d == 0 {
        (0int, 0int)
    } else {
        (
            div_t((me.position.0 - b.position.0) * 1000, 2 * d),
            div_t((me.position.1 - b.position.1) * 1000, 2 * d),
        )
    }
}

/// Sum of the repulsion terms over all neighbours.
pub open spec fn sep_sum(me: BoidView, s: Seq<BoidView>) -> (int, int)
    decreases s.len(),
{
    if s.len() == 0 {
        (0int, 0int)
    } else {
        vadd(sep_sum(me, s.drop_last()), sep_term(me, s.last()))
    }
}

/// Separation: summed repulsion from every neighbour, scaled by `1.5`
/// (exactly `3 / 2`); the zero vector without neighbours.
pub open spec fn spec_separation(me: BoidView, s: Seq<BoidView>) -> (int, int) {
    if s.len() == 0 {
        (0int, 0int)
    } else {
        (div_t(3 * sep_sum(me, s).0, 2), div_t(3 * sep_sum(me, s).1, 2))
    }
}

/// Repulsion from one neighbour if it is a predator, nothing otherwise.
pub open spec fn avoid_term(me: BoidView, b: BoidView) -> (int, int) {
    if b.nature == BoidType::Predator {
        sep_term(me, b)
    } else {
        (0int, 0int)
    }
}

/// Sum of the repulsion terms over the predator neighbours.
pub open spec fn avoid_sum(me: BoidView, s: Seq<BoidView>) -> (int, int)
    decreases s.len(),
{
    if s.len() == 0 {
        (0int, 0int)
    } else {
        vadd(avoid_sum(me, s.drop_last()), avoid_term(me, s.last()))
    }
}

/// Predator avoidance: the separation form restricted to predator
/// neighbours, scaled by `5`; the zero vector without neighbours.
pub open spec fn spec_avoid_predators(me: BoidView, s: Seq<BoidView>) -> (int, int) {
    if s.len() == 0 {
        (0int, 0int)
    } else {
        (5 * avoid_sum(me, s).0, 5 * avoid_sum(me, s).1)
    }
}

/// How many of the neighbours are prey.
pub open spec fn count_prey(s: Seq<BoidView>) -> int
    decreases s.len(),
{
    if s.len() == 0 {
        0int
    } else {
        count_prey(s.drop_last()) + if s.last().nature == BoidType::Prey {
            1int
        } else {
            0int
        }
    }
}

/// Sum of the prey neighbours' velocities.
pub open spec fn sum_prey_vel(s: Seq<BoidView>) -> (int, int)
    decreases s.len(),
{
    if s.len() == 0 {
        (0int, 0int)
    } else {
        vadd(
            sum_prey_vel(s.drop_last()),
            if s.last().nature == BoidType::Prey {
                s.last().velocity
            } else {
                (0int, 0int)
            },
        )
    }
}

/// Sum of the prey neighbours' positions.
pub open spec fn sum_prey_pos(s: Seq<BoidView>) -> (int, int)
    decreases s.len(),
{
    if s.len() == 0 {
        (0int, 0int)
    } else {
        vadd(
            sum_prey_pos(s.drop_last()),
            if s.last().nature == BoidType::Prey {
                s.last().position
            } else {
                (0int, 0int)
            },
        )
    }
}

/// Pursuit: velocity matching plus position seeking towards the average
/// of the prey neighbours; the zero vector when no prey is in sight.
pub open spec fn spec_catch_prey(me: BoidView, s: Seq<BoidView>) -> (int, int) {
    let n = count_prey(s);
    if n == 0 {
        (0int, 0int)
    } else {
        let av = (div_t(sum_prey_vel(s).0, n), div_t(sum_prey_vel(s).1, n));
        let ap = (div_t(sum_prey_pos(s).0, n), div_t(sum_prey_pos(s).1, n));
        (
            av.0 - me.velocity.0 + (ap.0 - me.position.0),
            av.1 - me.velocity.1 + (ap.1 - me.position.1),
        )
    }
}

/// The neighbour sequence drawn from the first `n` agents is no longer
/// than `n`.
pub proof fn lemma_local_len(me: BoidView, s: Seq<BoidView>, me_idx: int, n: int)
    requires
        0 <= n,
    ensures
        local_upto(me, s, me_idx, n).len() <= n,
    decreases n,
{
    if n > 0 {
        lemma_local_len(me, s, me_idx, n - 1);
    }
}

/// Every steering rule returns the zero vector on an empty neighbour
/// sequence.
pub proof fn lemma_forces_empty(me: BoidView)
    ensures
        spec_alignment(me, Seq::empty()) == (0int, 0int),
        spec_cohesion(me, Seq::empty()) == (0int, 0int),
        spec_separation(me, Seq::empty()) == (0int, 0int),
        spec_avoid_predators(me, Seq::empty()) == (0int, 0int),
        spec_catch_prey(me, Seq::empty()) == (0int, 0int),
{
    assert(count_prey(Seq::empty()) == 0);
}

/// A neighbour sequence of predators alone holds no prey.
pub proof fn lemma_count_prey_zero(s: Seq<BoidView>)
    requires
        forall|j: int| 0 <= j < s.len() ==> (#[trigger] s[j].nature) == BoidType::Predator,
    ensures
        count_prey(s) == 0,
    decreases s.len(),
{
    if s.len() > 0 {
        lemma_count_prey_zero(s.drop_last());
        assert(s.last() == s[s.len() - 1]);
    }
}

/// Pursuit over a neighbour sequence that holds only predators is the
/// zero vector.
pub proof fn lemma_catch_prey_all_predators(me: BoidView, s: Seq<BoidView>)
    requires
        forall|j: int| 0 <= j < s.len() ==> (#[trigger] s[j].nature) == BoidType::Predator,
    ensures
        spec_catch_prey(me, s) == (0int, 0int),
{
    lemma_count_prey_zero(s);
}

/// The repulsion from a single neighbour is always within three quarters
/// of a world unit in each component, whatever the distance; in
/// particular it is well defined even for a coincident neighbour.  (Its
/// magnitude does not grow as the distance shrinks: the numerator of the
/// separation rule scales with the distance itself.)
pub proof fn lemma_separation_single_bounded(me: BoidView, b: BoidView)
    ensures
        -750 <= spec_separation(me, seq![b]).0 <= 750,
        -750 <= spec_separation(me, seq![b]).1 <= 750,
{
    let s = seq![b];
    assert(s.drop_last() =~= Seq::<BoidView>::empty());
    assert(s.last() == b);
    assert(sep_sum(me, Seq::empty()) == (0int, 0int));
    assert(sep_sum(me, s).0 == sep_term(me, b).0 && sep_sum(me, s).1 == sep_term(
        me,
        b,
    ).1);
    let d2 = dist_sq(me.position, b.position);
    let pdx = me.position.0 - b.position.0;
    let pdy = me.position.1 - b.position.1;
    crate::limit::lemma_sq_abs(pdx);
    crate::limit::lemma_sq_abs(pdy);
    crate::geom::lemma_sqrt_exists(d2);
    let d = sqrt_floor(d2);
    if d == 0 {
        crate::geom::lemma_div_bounds(0, 2);
        assert(sep_term(me, b) == (0int, 0int));
        assert(spec_separation(me, s) == (div_t(0, 2), div_t(0, 2)));
    } else {
        assert(-d <= pdx <= d && -d <= pdy <= d) by (nonlinear_arith)
            requires
                pdx * pdx <= d2,
                pdy * pdy <= d2,
                d2 < (d + 1) * (d + 1),
                0 <= d,
        ;
        crate::geom::lemma_div_t_bound(pdx * 1000, 2 * d, 500);
        crate::geom::lemma_div_t_bound(pdy * 1000, 2 * d, 500);
        crate::geom::lemma_div_t_bound(3 * sep_term(me, b).0, 2, 750);
        crate::geom::lemma_div_t_bound(3 * sep_term(me, b).1, 2, 750);
    }
}

/// Whether some predator neighbour is within 40 world units.
pub open spec fn spec_convert(me: BoidView, s: Seq<BoidView>) -> bool {
    exists|j: int|
        0 <= j < s.len() && s[j].nature == BoidType::Predator && dist_sq(
            me.position,
            s[j].position,
        ) < 1_600_000_000
}

} // verus!
