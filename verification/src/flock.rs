//! The population and the per-tick simulation step: for every agent in
//! index order, gather its neighbours, accumulate the steering forces of
//! its kind, integrate, and wrap at the domain boundary.  Each agent is
//! mutated in place, so the forces of a later agent see the already
//! updated state of earlier agents, exactly as one pass over the
//! population computes them.

use vstd::prelude::*;
use crate::geom::{Vec2, nsq, sq, vadd};
use crate::limit::{spec_limit_force, spec_limit_speed};
use crate::boid::{
    Boid, BoidType, BoidView, POS_LIMIT, SEED_LIMIT, flockmates_ok, lemma_local_len,
    pos_bounded, spec_alignment, spec_avoid_predators, spec_catch_prey, spec_cohesion,
    spec_local, spec_separation, views, wrap,
};

verus! {

/// An agent fit to enter a tick: well formed, inside the coordinate cap,
/// and with no more than an initial draw accumulated in its acceleration.
pub open spec fn member_ok(b: Boid) -> bool {
    &&& b.wf()
    &&& pos_bounded(b@, POS_LIMIT as int)
    &&& -500 <= b@.acceleration.0 <= 500
    &&& -500 <= b@.acceleration.1 <= 500
}

/// The blend of steering forces a prey accumulates.
pub open spec fn prey_force(me: BoidView, nb: Seq<BoidView>) -> (int, int) {
    let al = spec_alignment(me, nb);
    let co = spec_cohesion(me, nb);
    let se = spec_separation(me, nb);
    let av = spec_avoid_predators(me, nb);
    (al.0 + co.0 + se.0 + av.0, al.1 + co.1 + se.1 + av.1)
}

/// The blend of steering forces a predator accumulates.
pub open spec fn predator_force(me: BoidView, nb: Seq<BoidView>) -> (int, int) {
    let cp = spec_catch_prey(me, nb);
    let av = spec_avoid_predators(me, nb);
    (cp.0 + av.0, cp.1 + av.1)
}

/// The per-kind force blend.
pub open spec fn step_forces(me: BoidView, nb: Seq<BoidView>) -> (int, int) {
    match me.nature {
        BoidType::Prey => prey_force(me, nb),
        BoidType::Predator => predator_force(me, nb),
    }
}

/// The integration step on the ghost image of an agent.
pub open spec fn spec_update(b: BoidView) -> BoidView {
    let a = spec_limit_force(b.acceleration, b.max_force);
    BoidView {
        position: (b.position.0 + b.velocity.0, b.position.1 + b.velocity.1),
        velocity: spec_limit_speed(vadd(b.velocity, a), b.min_velocity, b.max_velocity),
        nature: b.nature,
        acceleration: (0int, 0int),
        radius: b.radius,
        max_velocity: b.max_velocity,
        min_velocity: b.min_velocity,
        max_force: b.max_force,
    }
}

/// The boundary wrap on the ghost image of an agent.
pub open spec fn spec_edge(b: BoidView, top: int, right: int) -> BoidView {
    BoidView {
        position: (wrap(b.position.0, right), wrap(b.position.1, top)),
        velocity: b.velocity,
        nature: b.nature,
        acceleration: b.acceleration,
        radius: b.radius,
        max_velocity: b.max_velocity,
        min_velocity: b.min_velocity,
        max_force: b.max_force,
    }
}

/// What one whole step does to the agent at index `i` of the population
/// `s`: gather neighbours, accumulate the forces of its kind, integrate,
/// and wrap.
pub open spec fn step_at(s: Seq<BoidView>, i: int, top: int, right: int) -> BoidView {
    let me = s[i];
    let nb = spec_local(me, s, i);
    let f = step_forces(me, nb);
    let accd = BoidView {
        position: me.position,
        velocity: me.velocity,
        nature: me.nature,
        acceleration: (me.acceleration.0 + f.0, me.acceleration.1 + f.1),
        radius: me.radius,
        max_velocity: me.max_velocity,
        min_velocity: me.min_velocity,
        max_force: me.max_force,
    };
    spec_edge(spec_update(accd), top, right)
}

/// The population after the agents from index `i` on have each taken
/// their step, in index order, each against the then-current state.
pub open spec fn run_from(s: Seq<BoidView>, i: int, top: int, right: int) -> Seq<BoidView>
    decreases s.len() - i,
{
    if 0 <= i < s.len() {
        run_from(s.update(i, step_at(s, i, top, right)), i + 1, top, right)
    } else {
        s
    }
}

/// The whole population after one tick.
pub open spec fn spec_tick(s: Seq<BoidView>, top: int, right: int) -> Seq<BoidView> {
    run_from(s, 0, top, right)
}

/// What holds of every agent once its step of the tick is done: well
/// formed, inside the domain, accumulator drained, and speed either zero
/// or within the kind's band.
pub open spec fn settled(b: Boid, top: int, right: int) -> bool {
    &&& b.wf()
    &&& -right <= b@.position.0 <= right
    &&& -top <= b@.position.1 <= top
    &&& b@.acceleration == (0int, 0int)
    &&& nsq(b@.velocity) <= sq(b@.max_velocity)
    &&& (b@.velocity == (0int, 0int) || sq(b@.min_velocity) <= nsq(b@.velocity))
}

/// The whole population of agents.
pub struct Flock {
    pub boids: Vec<Boid>,
}

impl Flock {
    /// A population fit to simulate.
    pub open spec fn wf(self) -> bool {
        &&& self.boids@.len() <= 100_000
        &&& forall|j: int| 0 <= j < self.boids@.len() ==> member_ok(#[trigger] self.boids@[j])
    }

    /// Build a population of `population` agents, the first `predators`
    /// of them predators and the rest prey.  The six draws per agent are
    /// its position, initial velocity and initial acceleration, handed in
    /// by the caller so that any random source - or a fixed one - can
    /// seed the flock.
    pub fn new(population: usize, predators: usize, radius: i64, draws: &Vec<i64>) -> (f:
        Flock)
        requires
            predators <= population <= 100_000,
            0 <= radius,
            draws@.len() == 6 * population,
            forall|i: int|
                0 <= i < population ==> -POS_LIMIT <= #[trigger] draws@[6 * i] <= POS_LIMIT
                    && -POS_LIMIT <= draws@[6 * i + 1] <= POS_LIMIT && -SEED_LIMIT <= draws@[6
                    * i + 2] <= SEED_LIMIT && -SEED_LIMIT <= draws@[6 * i + 3] <= SEED_LIMIT
                    && -SEED_LIMIT <= draws@[6 * i + 4] <= SEED_LIMIT && -SEED_LIMIT
                    <= draws@[6 * i + 5] <= SEED_LIMIT,
        ensures
            f.wf(),
            f.boids@.len() == population,
            forall|i: int|
                0 <= i < population ==> (#[trigger] f.boids@[i].nature) == (
                if i < predators {
                    BoidType::Predator
                } else {
                    BoidType::Prey
                }),
            forall|i: int|
                0 <= i < population ==> (#[trigger] f.boids@[i]@.position) == (
                draws@[6 * i] as int,
                draws@[6 * i + 1] as int,
                ) && f.boids@[i]@.velocity == (
                draws@[6 * i + 2] as int,
                draws@[6 * i + 3] as int,
                ) && f.boids@[i]@.acceleration == (
                draws@[6 * i + 4] as int,
                draws@[6 * i + 5] as int,
                ) && f.boids@[i]@.radius == radius as int,
    {
        let mut boids: Vec<Boid> = Vec::new();
        let mut i: usize = 0;
        while i < population
            invariant
                0 <= i <= population,
                predators <= population <= 100_000,
                0 <= radius,
                draws@.len() == 6 * population,
                forall|k: int|
                    0 <= k < population ==> -POS_LIMIT <= #[trigger] draws@[6 * k]
                        <= POS_LIMIT && -POS_LIMIT <= draws@[6 * k + 1] <= POS_LIMIT
                        && -SEED_LIMIT <= draws@[6 * k + 2] <= SEED_LIMIT && -SEED_LIMIT
                        <= draws@[6 * k + 3] <= SEED_LIMIT && -SEED_LIMIT <= draws@[6 * k
                        + 4] <= SEED_LIMIT && -SEED_LIMIT <= draws@[6 * k + 5] <= SEED_LIMIT,
                boids@.len() == i,
                forall|k: int| 0 <= k < i ==> member_ok(#[trigger] boids@[k]),
                forall|k: int|
                    0 <= k < i ==> (#[trigger] boids@[k].nature) == (
                    if k < predators {
                        BoidType::Predator
                    } else {
                        BoidType::Prey
                    }),
                forall|k: int|
                    0 <= k < i ==> (#[trigger] boids@[k]@.position) == (
                    draws@[6 * k] as int,
                    draws@[6 * k + 1] as int,
                    ) && boids@[k]@.velocity == (
                    draws@[6 * k + 2] as int,
                    draws@[6 * k + 3] as int,
                    ) && boids@[k]@.acceleration == (
                    draws@[6 * k + 4] as int,
                    draws@[6 * k + 5] as int,
                    ) && boids@[k]@.radius == radius as int,
            decreases population - i,
        {
            let kind = if i < predators {
                BoidType::Predator
            } else {
                BoidType::Prey
            };
            let b = Boid::new(
                draws[6 * i],
                draws[6 * i + 1],
                radius,
                kind,
                draws[6 * i + 2],
                draws[6 * i + 3],
                draws[6 * i + 4],
                draws[6 * i + 5],
            );
            boids.push(b);
            i = i + 1;
        }
        Flock { boids }
    }

    /// How many agents the flock holds.
    pub fn len(&self) -> (n: usize)
        ensures
            n == self.boids@.len(),
    {
        self.boids.len()
    }

    /// The agent at an index, for a caller that draws the flock.
    pub fn get(&self, i: usize) -> (b: Boid)
        requires
            i < self.boids@.len(),
        ensures
            b == self.boids@[i as int],
    {
        self.boids[i]
    }

    /// One simulation tick over the whole population, wrapping positions
    /// at the domain half-extents `top` and `right`.
    pub fn tick(&mut self, top: i64, right: i64)
        requires
            old(self).wf(),
            0 <= top <= POS_LIMIT,
            0 <= right <= POS_LIMIT,
        ensures
            final(self).wf(),
            final(self).boids@.len() == old(self).boids@.len(),
            views(final(self).boids@) == spec_tick(
                views(old(self).boids@),
                top as int,
                right as int,
            ),
            forall|j: int|
                0 <= j < final(self).boids@.len() ==> settled(
                    #[trigger] final(self).boids@[j],
                    top as int,
                    right as int,
                ),
            forall|j: int|
                0 <= j < final(self).boids@.len() ==> (#[trigger] final(self).boids@[j].nature)
                    == old(self).boids@[j].nature,
    {
        let n = self.boids.len();
        let ghost ob = self.boids@;
        let mut i: usize = 0;
        while i < n
            invariant
                0 <= i <= n,
                n == self.boids@.len(),
                n == ob.len(),
                n <= 100_000,
                0 <= top <= POS_LIMIT,
                0 <= right <= POS_LIMIT,
                run_from(views(self.boids@), i as int, top as int, right as int)
                    == run_from(views(ob), 0, top as int, right as int),
                forall|j: int| i <= j < n ==> (#[trigger] self.boids@[j]) == ob[j],
                forall|j: int| 0 <= j < n ==> member_ok(#[trigger] ob[j]),
                forall|j: int|
                    0 <= j < i ==> settled(#[trigger] self.boids@[j], top as int, right as int)
                        && self.boids@[j].nature == ob[j].nature,
            decreases n - i,
        {
            let ghost pre = self.boids@;
            let ghost vs_pre = views(pre);
            proof {
                assert(forall|j: int|
                    0 <= j < n ==> (#[trigger] pre[j]).wf() && pos_bounded(
                        pre[j]@,
                        100_000_000,
                    ));
            }
            let b = self.boids[i];
            let neighbors = b.local_boids(&self.boids, i);
            proof {
                lemma_local_len(b@, vs_pre, i as int, vs_pre.len() as int);
                assert forall|k: int|
                    0 <= k < neighbors@.len() implies #[trigger] neighbors@[k].wf()
                    && pos_bounded(neighbors@[k]@, 100_000_000) by {
                    let j = choose|j: int|
                        0 <= j < pre.len() && j != i && neighbors@[k] == pre[j];
                    assert(neighbors@[k] == pre[j]);
                }
                assert(flockmates_ok(neighbors@));
                assert(views(neighbors@) == spec_local(vs_pre[i as int], vs_pre, i as int));
            }
            let fx: i64;
            let fy: i64;
            if matches!(b.nature, BoidType::Prey) {
                let al = b.alignment(&neighbors);
                let co = b.cohesion(&neighbors);
                let se = b.separation(&neighbors);
                let av = b.avoid_predators(&neighbors);
                let _watching = b.convert_to_predator(&neighbors);
                fx = al.x + co.x + se.x + av.x;
                fy = al.y + co.y + se.y + av.y;
            } else {
                let cp = b.catch_prey(&neighbors);
                let av = b.avoid_predators(&neighbors);
                fx = cp.x + av.x;
                fy = cp.y + av.y;
            }
            proof {
                assert((fx as int, fy as int) == step_forces(
                    vs_pre[i as int],
                    views(neighbors@),
                ));
            }
            let mut nb = b;
            nb.acceleration = Vec2 {
                x: nb.acceleration.x + fx,
                y: nb.acceleration.y + fy,
            };
            nb.update();
            nb.edge(top, right);
            proof {
                assert(nb@ == step_at(vs_pre, i as int, top as int, right as int));
            }
            self.boids.set(i, nb);
            i = i + 1;
            proof {
                assert(views(self.boids@) =~= vs_pre.update(i as int - 1, nb@));
                assert(run_from(views(self.boids@), i as int, top as int, right as int)
                    == run_from(vs_pre, i as int - 1, top as int, right as int));
            }
        }
        proof {
            assert(views(self.boids@) == run_from(
                views(self.boids@),
                n as int,
                top as int,
                right as int,
            ));
        }
    }
}

} // verus!
