//! The simulation: a population of particles advanced by sub-steps, each of
//! which reads one snapshot of the population and writes the next.

use vstd::prelude::*;
use rand::rngs::ThreadRng;
use crate::affinity::{AffinityTable, MAX_AFFINITY, ParticleKind, coefficient_in, fills_table};
use crate::affinity::KINDS;
use crate::fixed::{ONE, lemma_trunc_div_scaled};
use crate::force::REPULSION_RANGE;
use crate::helpers::{Wrapping, domain_ok, is_draw, min_image, rand_map, wrap_point};
use crate::particle::{MAX_DT, MAX_IMPULSE, Particle, impulse, lemma_no_affinity_no_impulse};
use crate::rng::choose_kind;
use crate::vec2::{Vec2, length_of, scaled, sum_of, vec_of, within};

verus! {

/// Number of sub-steps in one frame.
pub const SIM_ITERS: usize = 10;

/// Largest perturbation of a velocity component per whole unit of time: two
/// and a half whole units.
pub const PARTICLE_BROWNIAN: i64 = 163840;

/// The velocity of the particle `own`, which stands at index `i`, once the
/// neighbours `0..upto` of `snapshot` have acted on it. No particle acts on
/// itself.
pub open spec fn accumulated(
    own: Particle,
    snapshot: Seq<Particle>,
    table: Seq<i64>,
    i: int,
    upto: nat,
    dt: int,
    w: (int, int),
) -> (int, int)
    decreases upto,
{
    if upto == 0 {
        own.vel@
    } else {
        let j = upto - 1;
        let before = accumulated(own, snapshot, table, i, j as nat, dt, w);
        if j == i {
            before
        } else {
            sum_of(
                before,
                impulse(
                    own.pos@,
                    snapshot[j].pos@,
                    coefficient_in(table, own.kind, snapshot[j].kind),
                    dt,
                    w,
                ),
            )
        }
    }
}

/// The particle `own`, which stands at index `i`, after one sub-step: every
/// neighbour of `snapshot` has acted on it, `noise` scaled by `dt` has been
/// added to its velocity, the velocity has moved it, and it is at rest again.
pub open spec fn advanced(
    own: Particle,
    snapshot: Seq<Particle>,
    table: Seq<i64>,
    i: int,
    dt: int,
    w: (int, int),
    noise: (int, int),
) -> Particle {
    let pulled = accumulated(own, snapshot, table, i, snapshot.len(), dt, w);
    let vel = sum_of(pulled, scaled(noise, dt));
    Particle {
        pos: vec_of(wrap_point(sum_of(own.pos@, vel), w)),
        vel: vec_of((0, 0)),
        kind: own.kind,
    }
}

/// The population after one sub-step: each particle advanced from the same
/// snapshot.
pub open spec fn sub_step_spec(
    snapshot: Seq<Particle>,
    table: Seq<i64>,
    dt: int,
    w: (int, int),
    noise: Seq<Vec2>,
) -> Seq<Particle> {
    Seq::new(
        snapshot.len(),
        |i: int| advanced(snapshot[i], snapshot, table, i, dt, w, noise[i]@),
    )
}

/// The population after as many sub-steps as `noises` has entries, the `k`-th
/// of them perturbed by `noises[k]`.
pub open spec fn frame_spec(
    snapshot: Seq<Particle>,
    table: Seq<i64>,
    dt: int,
    w: (int, int),
    noises: Seq<Seq<Vec2>>,
) -> Seq<Particle>
    decreases noises.len(),
{
    if noises.len() == 0 {
        snapshot
    } else {
        sub_step_spec(
            frame_spec(snapshot, table, dt, w, noises.drop_last()),
            table,
            dt,
            w,
            noises.last(),
        )
    }
}

/// Whether `noise` holds one perturbation for each of `n` particles, none of
/// them beyond [`PARTICLE_BROWNIAN`] along either axis.
pub open spec fn is_noise(noise: Seq<Vec2>, n: nat) -> bool {
    &&& noise.len() == n
    &&& forall|i: int| 0 <= i < n ==> within(#[trigger] noise[i]@, PARTICLE_BROWNIAN as int)
}

/// Whether `post` is what a frame of [`SIM_ITERS`] sub-steps can make of
/// `pre`, for some perturbations.
pub open spec fn is_frame(
    pre: Seq<Particle>,
    post: Seq<Particle>,
    table: Seq<i64>,
    dt: int,
    w: (int, int),
) -> bool {
    exists|noises: Seq<Seq<Vec2>>|
        {
            &&& noises.len() == SIM_ITERS
            &&& forall|k: int| 0 <= k < noises.len() ==> is_noise(#[trigger] noises[k], pre.len())
            &&& post == frame_spec(pre, table, dt, w, noises)
        }
}

/// The kinds of the particles, in order.
pub open spec fn kinds_of(particles: Seq<Particle>) -> Seq<ParticleKind> {
    Seq::new(particles.len(), |i: int| particles[i].kind)
}

/// Whether every particle has velocity zero.
pub open spec fn at_rest(particles: Seq<Particle>) -> bool {
    forall|i: int| 0 <= i < particles.len() ==> (#[trigger] particles[i]).vel@ == (0int, 0int)
}

/// Whether every particle lies in the domain `[0, w.0) x [0, w.1)`.
pub open spec fn inside(particles: Seq<Particle>, w: (int, int)) -> bool {
    forall|i: int|
        0 <= i < particles.len() ==> 0 <= (#[trigger] particles[i]).pos.x < w.0 && 0
            <= particles[i].pos.y < w.1
}

/// The step `dt`, cut down to [`MAX_DT`].
pub open spec fn clamped(dt: int) -> int {
    if dt > MAX_DT { MAX_DT as int } else { dt }
}

/// The particle at index `i` of `snapshot`, advanced by one sub-step.
pub fn advance_particle(
    snapshot: &Vec<Particle>,
    table: &AffinityTable,
    i: usize,
    dt: i64,
    wrap: &Vec2,
    noise: Vec2,
) -> (moved: Particle)
    requires
        i < snapshot.len() <= u32::MAX,
        at_rest(snapshot@),
        table.wf(),
        wrap.is_domain(),
        0 <= dt <= MAX_DT,
        within(noise@, PARTICLE_BROWNIAN as int),
    ensures
        moved == advanced(snapshot@[i as int], snapshot@, table@, i as int, dt as int, wrap@, noise@),
        moved.vel@ == (0int, 0int),
        moved.kind == snapshot@[i as int].kind,
        0 <= moved.pos.x < wrap.x,
        0 <= moved.pos.y < wrap.y,
{
    let n = snapshot.len();
    let ghost start = snapshot@[i as int];
    let mut own = snapshot[i];
    let mut j: usize = 0;
    while j < n
        invariant
            j <= n,
            n == snapshot.len(),
            n <= u32::MAX,
            i < n,
            start == snapshot@[i as int],
            table.wf(),
            wrap.is_domain(),
            0 <= dt <= MAX_DT,
            own.pos == start.pos,
            own.kind == start.kind,
            own.vel@ == accumulated(start, snapshot@, table@, i as int, j as nat, dt as int, wrap@),
            within(own.vel@, j * MAX_IMPULSE),
        decreases n - j,
    {
        if j != i {
            own.accumulate_velocity(&snapshot[j], dt, wrap, table);
        }
        j += 1;
    }
    proof {
        lemma_trunc_div_scaled(dt as int, noise@.0, ONE as int);
        lemma_trunc_div_scaled(dt as int, noise@.1, ONE as int);
        vstd::arithmetic::mul::lemma_mul_is_commutative(dt as int, noise@.0);
        vstd::arithmetic::mul::lemma_mul_is_commutative(dt as int, noise@.1);
    }
    let jolt = noise.scale(dt);
    own.vel = Vec2 { x: own.vel.x + jolt.x, y: own.vel.y + jolt.y };
    own.apply_velocity(wrap);
    own
}

/// Whether each component of each perturbation is a draw between minus
/// [`PARTICLE_BROWNIAN`] and [`PARTICLE_BROWNIAN`].
pub open spec fn is_drawn_noise(noise: Seq<Vec2>) -> bool {
    forall|i: int|
        0 <= i < noise.len() ==> is_draw(
            (#[trigger] noise[i]).x as int,
            -PARTICLE_BROWNIAN as int,
            PARTICLE_BROWNIAN as int,
        ) && is_draw(noise[i].y as int, -PARTICLE_BROWNIAN as int, PARTICLE_BROWNIAN as int)
}

/// One perturbation for each of `n` particles, drawn from `rng`: each
/// component between minus [`PARTICLE_BROWNIAN`] and [`PARTICLE_BROWNIAN`].
pub fn draw_noise(rng: &mut ThreadRng, n: usize) -> (noise: Vec<Vec2>)
    ensures
        is_noise(noise@, n as nat),
        is_drawn_noise(noise@),
{
    let mut noise: Vec<Vec2> = Vec::new();
    while noise.len() < n
        invariant
            noise@.len() <= n,
            is_drawn_noise(noise@),
            forall|i: int|
                0 <= i < noise@.len() ==> within(#[trigger] noise@[i]@, PARTICLE_BROWNIAN as int),
        decreases n - noise@.len(),
    {
        let x = rand_map(rng, -PARTICLE_BROWNIAN, PARTICLE_BROWNIAN);
        let y = rand_map(rng, -PARTICLE_BROWNIAN, PARTICLE_BROWNIAN);
        noise.push(Vec2::new(x, y));
    }
    noise
}

/// A frame keeps the number of particles and the kind of each.
pub proof fn lemma_frame_conserves(
    snapshot: Seq<Particle>,
    table: Seq<i64>,
    dt: int,
    w: (int, int),
    noises: Seq<Seq<Vec2>>,
)
    ensures
        frame_spec(snapshot, table, dt, w, noises).len() == snapshot.len(),
        kinds_of(frame_spec(snapshot, table, dt, w, noises)) == kinds_of(snapshot),
    decreases noises.len(),
{
    if noises.len() > 0 {
        lemma_frame_conserves(snapshot, table, dt, w, noises.drop_last());
    }
}

/// Mass is conserved: over any number of frames, whatever the time steps,
/// the domains and the perturbations, the population keeps its size, the
/// kind of each particle, and so the multiset of its kinds.
pub proof fn frames_conserve_kinds(
    states: Seq<Seq<Particle>>,
    table: Seq<i64>,
    dts: Seq<int>,
    domains: Seq<(int, int)>,
)
    requires
        states.len() == dts.len() + 1,
        states.len() == domains.len() + 1,
        forall|k: int|
            0 <= k < dts.len() ==> is_frame(
                #[trigger] states[k],
                states[k + 1],
                table,
                dts[k],
                domains[k],
            ),
    ensures
        states.last().len() == states[0].len(),
        kinds_of(states.last()) == kinds_of(states[0]),
        kinds_of(states.last()).to_multiset() == kinds_of(states[0]).to_multiset(),
    decreases states.len(),
{
    if states.len() > 1 {
        let m = states.len() - 2;
        let noises = choose|noises: Seq<Seq<Vec2>>|
            states[m + 1] == frame_spec(states[m], table, dts[m], domains[m], noises);
        lemma_frame_conserves(states[m], table, dts[m], domains[m], noises);
        let earlier = states.drop_last();
        assert forall|k: int| 0 <= k < dts.drop_last().len() implies is_frame(
            #[trigger] earlier[k],
            earlier[k + 1],
            table,
            dts.drop_last()[k],
            domains.drop_last()[k],
        ) by {}
        frames_conserve_kinds(earlier, table, dts.drop_last(), domains.drop_last());
    }
}

/// The population after the particles `order` have been advanced one after
/// the other, each in its own slot: a particle is read from its slot, its
/// neighbours are read from `snapshot`.
pub open spec fn visited(
    snapshot: Seq<Particle>,
    table: Seq<i64>,
    dt: int,
    w: (int, int),
    noise: Seq<Vec2>,
    order: Seq<int>,
) -> Seq<Particle>
    decreases order.len(),
{
    if order.len() == 0 {
        snapshot
    } else {
        let before = visited(snapshot, table, dt, w, noise, order.drop_last());
        let i = order.last();
        before.update(i, advanced(before[i], snapshot, table, i, dt, w, noise[i]@))
    }
}

/// Whether `order` names each of `n` particles exactly once.
pub open spec fn is_visiting_order(order: Seq<int>, n: nat) -> bool {
    &&& order.no_duplicates()
    &&& forall|k: int| 0 <= k < order.len() ==> 0 <= #[trigger] order[k] < n
    &&& forall|i: int| 0 <= i < n ==> order.contains(i)
}

/// After some particles have been advanced, each once, those are as the
/// sub-step leaves them and the others are as the snapshot has them.
pub proof fn lemma_visited(
    snapshot: Seq<Particle>,
    table: Seq<i64>,
    dt: int,
    w: (int, int),
    noise: Seq<Vec2>,
    order: Seq<int>,
)
    requires
        order.no_duplicates(),
        forall|k: int| 0 <= k < order.len() ==> 0 <= #[trigger] order[k] < snapshot.len(),
    ensures
        visited(snapshot, table, dt, w, noise, order).len() == snapshot.len(),
        forall|i: int|
            0 <= i < snapshot.len() ==> #[trigger] visited(snapshot, table, dt, w, noise, order)[i]
                == if order.contains(i) {
                advanced(snapshot[i], snapshot, table, i, dt, w, noise[i]@)
            } else {
                snapshot[i]
            },
    decreases order.len(),
{
    if order.len() > 0 {
        let earlier = order.drop_last();
        let last = order.last();
        lemma_visited(snapshot, table, dt, w, noise, earlier);
        assert forall|i: int| 0 <= i < snapshot.len() implies (order.contains(i) <==> i == last
            || earlier.contains(i)) by {
            if order.contains(i) {
                let k = choose|k: int| 0 <= k < order.len() && order[k] == i;
                if k < order.len() - 1 {
                    assert(earlier[k] == i);
                }
            }
        }
    }
}

/// Snapshot isolation: in whatever order the particles are advanced, each in
/// its own slot and each once, the population ends as the sub-step leaves it.
pub proof fn visiting_order_is_immaterial(
    snapshot: Seq<Particle>,
    table: Seq<i64>,
    dt: int,
    w: (int, int),
    noise: Seq<Vec2>,
    order: Seq<int>,
)
    requires
        is_visiting_order(order, snapshot.len()),
    ensures
        visited(snapshot, table, dt, w, noise, order) == sub_step_spec(
            snapshot,
            table,
            dt,
            w,
            noise,
        ),
{
    lemma_visited(snapshot, table, dt, w, noise, order);
    assert(visited(snapshot, table, dt, w, noise, order) =~= sub_step_spec(
        snapshot,
        table,
        dt,
        w,
        noise,
    ));
}

/// Whether every coefficient of `table` is zero.
pub open spec fn no_affinity(table: Seq<i64>) -> bool {
    &&& table.len() == KINDS * KINDS
    &&& forall|k: int| 0 <= k < table.len() ==> #[trigger] table[k] == 0
}

/// Whether the particle at index `i` stands at [`REPULSION_RANGE`] or further
/// from each of the others.
pub open spec fn out_of_reach(snapshot: Seq<Particle>, i: int, w: (int, int)) -> bool {
    forall|j: int|
        0 <= j < snapshot.len() && j != i ==> length_of(
            min_image((#[trigger] snapshot[j]).pos@, snapshot[i].pos@, w),
        ) >= REPULSION_RANGE
}

/// Without affinity, neighbours that are all out of reach leave the velocity
/// of a particle as it was.
pub proof fn lemma_nothing_accumulates(
    snapshot: Seq<Particle>,
    table: Seq<i64>,
    i: int,
    upto: nat,
    dt: int,
    w: (int, int),
)
    requires
        0 <= i < snapshot.len(),
        upto <= snapshot.len(),
        no_affinity(table),
        out_of_reach(snapshot, i, w),
    ensures
        accumulated(snapshot[i], snapshot, table, i, upto, dt, w) == snapshot[i].vel@,
    decreases upto,
{
    if upto > 0 {
        let j = upto - 1;
        lemma_nothing_accumulates(snapshot, table, i, j as nat, dt, w);
        if j != i {
            let own = snapshot[i];
            lemma_no_affinity_no_impulse(own.pos@, snapshot[j].pos@, dt, w);
        }
    }
}

/// Stasis: where the affinity table is all zeros and nothing perturbs it, a
/// particle at rest whose neighbours are all at [`REPULSION_RANGE`] or
/// further gathers no velocity, and a sub-step leaves it where it is.
pub proof fn zero_affinity_stasis(
    snapshot: Seq<Particle>,
    table: Seq<i64>,
    i: int,
    dt: int,
    w: (int, int),
)
    requires
        0 <= i < snapshot.len(),
        domain_ok(w),
        no_affinity(table),
        out_of_reach(snapshot, i, w),
        snapshot[i].vel@ == (0int, 0int),
    ensures
        accumulated(snapshot[i], snapshot, table, i, snapshot.len(), dt, w) == (0int, 0int),
        advanced(snapshot[i], snapshot, table, i, dt, w, (0, 0)).pos@ == wrap_point(
            snapshot[i].pos@,
            w,
        ),
        0 <= snapshot[i].pos.x < w.0 && 0 <= snapshot[i].pos.y < w.1 ==> advanced(
            snapshot[i],
            snapshot,
            table,
            i,
            dt,
            w,
            (0, 0),
        ) == snapshot[i],
{
    lemma_nothing_accumulates(snapshot, table, i, snapshot.len(), dt, w);
    if 0 <= snapshot[i].pos.x < w.0 && 0 <= snapshot[i].pos.y < w.1 {
        vstd::arithmetic::div_mod::lemma_small_mod(snapshot[i].pos.x as nat, w.0 as nat);
        vstd::arithmetic::div_mod::lemma_small_mod(snapshot[i].pos.y as nat, w.1 as nat);
    }
}

/// A population of particles and the affinities of their kinds.
pub struct Simulation {
    particles: Vec<Particle>,
    buffer: Vec<Particle>,
    table: AffinityTable,
}

impl View for Simulation {
    type V = Seq<Particle>;

    closed spec fn view(&self) -> Seq<Particle> {
        self.particles@
    }
}

impl Simulation {
    /// The coefficients of the affinity table, row by row.
    pub closed spec fn table_view(&self) -> Seq<i64> {
        self.table@
    }

    /// Whether the write buffer matches the population: as many particles,
    /// and at each index one of the same kind.
    pub closed spec fn buffered(&self) -> bool {
        &&& self.buffer@.len() == self.particles@.len()
        &&& kinds_of(self.buffer@) == kinds_of(self.particles@)
    }

    /// Whether the simulation stands between two sub-steps: the table is
    /// complete, the particles are at rest, and their number fits `u32`.
    pub open spec fn wf(&self) -> bool {
        &&& self.buffered()
        &&& fills_table(self.table_view())
        &&& at_rest(self@)
        &&& self@.len() <= u32::MAX
    }

    /// The simulation of `particles` under `table`, if the particles are at
    /// rest and their number fits `u32`.
    pub fn new(table: AffinityTable, particles: Vec<Particle>) -> (sim: Option<Simulation>)
        requires
            table.wf(),
        ensures
            sim is Some <==> at_rest(particles@) && particles@.len() <= u32::MAX,
            sim is Some ==> sim->0.wf() && sim->0@ == particles@ && sim->0.table_view() == table@,
    {
        if particles.len() > u32::MAX as usize {
            return None;
        }
        let mut i: usize = 0;
        while i < particles.len()
            invariant
                i <= particles.len(),
                forall|k: int| 0 <= k < i ==> (#[trigger] particles@[k]).vel@ == (0int, 0int),
            decreases particles.len() - i,
        {
            if particles[i].vel.x != 0 || particles[i].vel.y != 0 {
                return None;
            }
            i += 1;
        }
        let buffer = particles.clone();
        Some(Simulation { particles, buffer, table })
    }

    /// A simulation of `population` particles, each of a random kind at rest
    /// at a random place of `domain`, under a random affinity table.
    pub fn initialize(population: u32, domain: &Vec2, rng: &mut ThreadRng) -> (sim: Simulation)
        requires
            domain.is_domain(),
        ensures
            sim.wf(),
            sim@.len() == population,
            inside(sim@, domain@),
            forall|i: int|
                0 <= i < sim@.len() ==> is_draw((#[trigger] sim@[i]).pos.x as int, 0, domain.x as int)
                    && is_draw(sim@[i].pos.y as int, 0, domain.y as int),
            forall|i: int|
                0 <= i < sim.table_view().len() ==> is_draw(
                    #[trigger] sim.table_view()[i] as int,
                    -MAX_AFFINITY as int,
                    MAX_AFFINITY as int,
                ),
    {
        let table = AffinityTable::generate(rng);
        let kinds = ParticleKind::all();
        let mut particles: Vec<Particle> = Vec::new();
        let mut i: u32 = 0;
        while i < population
            invariant
                i <= population,
                particles@.len() == i,
                domain.is_domain(),
                at_rest(particles@),
                inside(particles@, domain@),
                forall|k: int|
                    0 <= k < particles@.len() ==> is_draw(
                        (#[trigger] particles@[k]).pos.x as int,
                        0,
                        domain.x as int,
                    ) && is_draw(particles@[k].pos.y as int, 0, domain.y as int),
            decreases population - i,
        {
            let x = rand_map(rng, 0, domain.x);
            let y = rand_map(rng, 0, domain.y);
            let kind = choose_kind(rng, &kinds).unwrap();
            particles.push(Particle::new(x, y, kind));
            i += 1;
        }
        let buffer = particles.clone();
        Simulation { particles, buffer, table }
    }

    /// The particles, in order.
    pub fn particles(&self) -> (all: &Vec<Particle>)
        ensures
            all@ == self@,
    {
        &self.particles
    }

    /// The affinity table.
    pub fn table(&self) -> (table: &AffinityTable)
        ensures
            table@ == self.table_view(),
    {
        &self.table
    }

    /// Advances every particle by one sub-step of length `dt`, the `i`-th
    /// perturbed by `noise[i]`. Every particle is advanced from the
    /// population as it stands on entry.
    pub fn sub_step(&mut self, dt: i64, wrap: &Vec2, noise: &Vec<Vec2>)
        requires
            old(self).wf(),
            wrap.is_domain(),
            0 <= dt <= MAX_DT,
            is_noise(noise@, old(self)@.len()),
        ensures
            final(self).wf(),
            final(self).table_view() == old(self).table_view(),
            final(self)@ == sub_step_spec(
                old(self)@,
                old(self).table_view(),
                dt as int,
                wrap@,
                noise@,
            ),
            kinds_of(final(self)@) == kinds_of(old(self)@),
            inside(final(self)@, wrap@),
    {
        let n = self.particles.len();
        let ghost snapshot = self.particles@;
        let ghost table = self.table@;
        let mut i: usize = 0;
        while i < n
            invariant
                i <= n,
                n == snapshot.len(),
                n <= u32::MAX,
                self.particles@ == snapshot,
                self.table@ == table,
                self.buffer@.len() == n,
                at_rest(snapshot),
                fills_table(table),
                wrap.is_domain(),
                0 <= dt <= MAX_DT,
                is_noise(noise@, n as nat),
                forall|k: int|
                    0 <= k < i ==> #[trigger] self.buffer@[k] == advanced(
                        snapshot[k],
                        snapshot,
                        table,
                        k,
                        dt as int,
                        wrap@,
                        noise@[k]@,
                    ),
            decreases n - i,
        {
            let moved = advance_particle(&self.particles, &self.table, i, dt, wrap, noise[i]);
            self.buffer.set(i, moved);
            i += 1;
        }
        let mut i: usize = 0;
        while i < n
            invariant
                i <= n,
                n == snapshot.len(),
                self.particles@.len() == n,
                self.table@ == table,
                self.buffer@.len() == n,
                forall|k: int|
                    0 <= k < n ==> #[trigger] self.buffer@[k] == advanced(
                        snapshot[k],
                        snapshot,
                        table,
                        k,
                        dt as int,
                        wrap@,
                        noise@[k]@,
                    ),
                forall|k: int| 0 <= k < i ==> #[trigger] self.particles@[k] == self.buffer@[k],
            decreases n - i,
        {
            let moved = self.buffer[i];
            self.particles.set(i, moved);
            i += 1;
        }
        proof {
            let next = sub_step_spec(snapshot, table, dt as int, wrap@, noise@);
            assert(self.particles@ =~= next);
            assert(self.buffer@ =~= next);
        }
    }

    /// Advances the simulation by one frame: [`SIM_ITERS`] sub-steps, each of
    /// length `dt` cut down to [`MAX_DT`], each in the domain `wrap`, with
    /// perturbations drawn from `rng`.
    pub fn step_frame(&mut self, dt: i64, wrap: &Vec2, rng: &mut ThreadRng)
        requires
            old(self).wf(),
            wrap.is_domain(),
            dt >= 0,
        ensures
            final(self).wf(),
            final(self).table_view() == old(self).table_view(),
            is_frame(
                old(self)@,
                final(self)@,
                old(self).table_view(),
                clamped(dt as int),
                wrap@,
            ),
            final(self)@.len() == old(self)@.len(),
            kinds_of(final(self)@) == kinds_of(old(self)@),
            inside(final(self)@, wrap@),
    {
        let dt = if dt > MAX_DT { MAX_DT } else { dt };
        let ghost start = self@;
        let ghost table = self.table_view();
        let ghost mut noises: Seq<Seq<Vec2>> = Seq::empty();
        let mut round: usize = 0;
        while round < SIM_ITERS
            invariant
                round <= SIM_ITERS,
                self.wf(),
                self.table_view() == table,
                wrap.is_domain(),
                0 <= dt <= MAX_DT,
                noises.len() == round,
                forall|k: int| 0 <= k < noises.len() ==> is_noise(#[trigger] noises[k], start.len()),
                self@ == frame_spec(start, table, dt as int, wrap@, noises),
                self@.len() == start.len(),
                kinds_of(self@) == kinds_of(start),
                round > 0 ==> inside(self@, wrap@),
            decreases SIM_ITERS - round,
        {
            let noise = draw_noise(rng, self.particles.len());
            self.sub_step(dt, wrap, &noise);
            proof {
                let earlier = noises;
                noises = noises.push(noise@);
                assert(noises.drop_last() =~= earlier);
            }
            round += 1;
        }
    }
}

} // verus!
