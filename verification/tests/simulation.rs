use particle_sim::affinity::{AffinityTable, ParticleKind, KINDS};
use particle_sim::fixed::ONE;
use particle_sim::particle::{Particle, MAX_DT};
use particle_sim::sim::{advance_particle, draw_noise, Simulation, PARTICLE_BROWNIAN, SIM_ITERS};
use particle_sim::vec2::Vec2;

fn table_of(value: i64) -> AffinityTable {
    AffinityTable::new(vec![value; KINDS * KINDS]).unwrap()
}

fn still(n: usize) -> Vec<Vec2> {
    vec![Vec2::zero(); n]
}

fn kinds(sim: &Simulation) -> Vec<ParticleKind> {
    sim.particles().iter().map(|p| p.kind).collect()
}

#[test]
fn simulation_constants_in_whole_units() {
    assert_eq!(SIM_ITERS, 10);
    assert_eq!(PARTICLE_BROWNIAN, 5 * ONE / 2);
}

#[test]
fn new_keeps_the_particles_it_is_given() {
    let particles = vec![
        Particle::new(ONE, 2 * ONE, ParticleKind::Three),
        Particle::new(3 * ONE, 4 * ONE, ParticleKind::One),
    ];
    let sim = Simulation::new(table_of(ONE), particles.clone()).unwrap();
    assert_eq!(sim.particles(), &particles);
    assert_eq!(sim.table().coefficients(), &vec![ONE; 25]);
    let empty = Simulation::new(table_of(0), vec![]).unwrap();
    assert!(empty.particles().is_empty());
}

#[test]
fn new_refuses_particles_in_motion() {
    let mut moving = Particle::new(ONE, ONE, ParticleKind::One);
    moving.vel = Vec2::new(0, 1);
    let particles = vec![Particle::new(0, 0, ParticleKind::Two), moving];
    assert!(Simulation::new(table_of(0), particles).is_none());
    let mut moving = Particle::new(ONE, ONE, ParticleKind::One);
    moving.vel = Vec2::new(-1, 0);
    assert!(Simulation::new(table_of(0), vec![moving]).is_none());
}

#[test]
fn initialize_scatters_the_population_over_the_domain() {
    let mut rng = rand::thread_rng();
    let domain = Vec2::new(300 * ONE, 200 * ONE);
    let sim = Simulation::initialize(80, &domain, &mut rng);
    assert_eq!(sim.particles().len(), 80);
    let mut seen = std::collections::HashSet::new();
    for p in sim.particles() {
        assert!(0 <= p.pos.x && p.pos.x < domain.x);
        assert!(0 <= p.pos.y && p.pos.y < domain.y);
        assert_eq!(p.vel, Vec2::zero());
        seen.insert(p.kind.index());
    }
    assert!(seen.len() > 1);
    assert_eq!(sim.table().coefficients().len(), 25);
    assert!(Simulation::initialize(0, &domain, &mut rng).particles().is_empty());
}

#[test]
fn two_particles_push_each_other_from_where_they_stood() {
    let domain = Vec2::new(200 * ONE, 200 * ONE);
    let particles = vec![
        Particle::new(100 * ONE, 100 * ONE, ParticleKind::One),
        Particle::new(110 * ONE, 100 * ONE, ParticleKind::Two),
        // Too far from both to matter.
        Particle::new(5 * ONE, 5 * ONE, ParticleKind::Three),
    ];
    let mut sim = Simulation::new(table_of(0), particles).unwrap();
    sim.sub_step(MAX_DT, &domain, &still(3));
    // Each is pushed by what the force is at ten units, the distance before
    // the step: had the second been moved after the first, it would have
    // seen it sixteen units away.
    let after = sim.particles();
    assert_eq!(after[0].pos, Vec2::new(100 * ONE - 409620, 100 * ONE));
    assert_eq!(after[1].pos, Vec2::new(110 * ONE + 409620, 100 * ONE));
    assert_eq!(after[2].pos, Vec2::new(5 * ONE, 5 * ONE));
    for p in after {
        assert_eq!(p.vel, Vec2::zero());
    }
    assert_eq!(kinds(&sim), vec![ParticleKind::One, ParticleKind::Two, ParticleKind::Three]);
}

#[test]
fn the_order_of_the_particles_does_not_change_their_fate() {
    let mut rng = rand::thread_rng();
    let domain = Vec2::new(120 * ONE, 90 * ONE);
    let table = AffinityTable::generate(&mut rng);
    let start = Simulation::initialize(40, &domain, &mut rng);
    let forward: Vec<Particle> = start.particles().clone();
    let backward: Vec<Particle> = forward.iter().rev().copied().collect();
    let noise = draw_noise(&mut rng, 40);
    let noise_backward: Vec<Vec2> = noise.iter().rev().copied().collect();

    let coefficients = table.coefficients().clone();
    let mut a = Simulation::new(AffinityTable::new(coefficients.clone()).unwrap(), forward).unwrap();
    let mut b = Simulation::new(AffinityTable::new(coefficients).unwrap(), backward).unwrap();
    a.sub_step(MAX_DT, &domain, &noise);
    b.sub_step(MAX_DT, &domain, &noise_backward);
    let mirrored: Vec<Particle> = b.particles().iter().rev().copied().collect();
    assert_eq!(a.particles(), &mirrored);
}

#[test]
fn sub_step_advances_each_particle_from_the_snapshot() {
    let mut rng = rand::thread_rng();
    let domain = Vec2::new(150 * ONE, 150 * ONE);
    let mut sim = Simulation::initialize(25, &domain, &mut rng);
    let snapshot = sim.particles().clone();
    let noise = draw_noise(&mut rng, 25);
    let expected: Vec<Particle> = (0..25)
        .map(|i| advance_particle(&snapshot, sim.table(), i, 1000, &domain, noise[i]))
        .collect();
    sim.sub_step(1000, &domain, &noise);
    assert_eq!(sim.particles(), &expected);
}

#[test]
fn advance_particle_adds_up_impulses_and_noise() {
    let domain = Vec2::new(200 * ONE, 200 * ONE);
    let snapshot = vec![
        Particle::new(100 * ONE, 100 * ONE, ParticleKind::One),
        Particle::new(110 * ONE, 100 * ONE, ParticleKind::Two),
        Particle::new(100 * ONE, 90 * ONE, ParticleKind::Five),
        Particle::new(100 * ONE, 100 * ONE, ParticleKind::Four),
    ];
    let table = table_of(2 * ONE);
    // Pushed left by the second, down by the third, not at all by the fourth
    // nor by itself; the noise is scaled by the time step.
    let noise = Vec2::new(PARTICLE_BROWNIAN, -PARTICLE_BROWNIAN);
    let moved = advance_particle(&snapshot, &table, 0, MAX_DT, &domain, noise);
    assert_eq!(
        moved,
        Particle {
            pos: Vec2::new(100 * ONE - 409620 + 8192, 100 * ONE + 409620 - 8192),
            vel: Vec2::zero(),
            kind: ParticleKind::One,
        }
    );
    // Noise alone moves a particle that has no neighbour in reach.
    let alone = vec![Particle::new(ONE, ONE, ParticleKind::One)];
    let moved = advance_particle(&alone, &table, 0, ONE / 32, &domain, Vec2::new(-64 * ONE, 32));
    assert_eq!(moved.pos, Vec2::new(199 * ONE, ONE + 1));
}

#[test]
fn without_affinity_or_noise_distant_particles_stay() {
    let domain = Vec2::new(200 * ONE, 200 * ONE);
    let mut particles = Vec::new();
    for row in 0..4i64 {
        for column in 0..4i64 {
            let kind = ParticleKind::all()[((row + column) % 5) as usize];
            particles.push(Particle::new(column * 50 * ONE, row * 50 * ONE + 7, kind));
        }
    }
    // One pair stands closer than the repulsion range.
    particles.push(Particle::new(25 * ONE, 25 * ONE, ParticleKind::One));
    particles.push(Particle::new(25 * ONE, 30 * ONE, ParticleKind::Two));
    let mut sim = Simulation::new(table_of(0), particles.clone()).unwrap();
    for _ in 0..5 {
        sim.sub_step(MAX_DT, &domain, &still(18));
    }
    assert_eq!(&sim.particles()[..16], &particles[..16]);
    assert!(sim.particles()[16].pos.y < 25 * ONE);
    assert!(sim.particles()[17].pos.y > 30 * ONE);
    assert_eq!(sim.particles()[16].pos.x, 25 * ONE);
}

#[test]
fn step_frame_conserves_the_population() {
    let mut rng = rand::thread_rng();
    let domain = Vec2::new(400 * ONE, 300 * ONE);
    let mut sim = Simulation::initialize(60, &domain, &mut rng);
    let before = kinds(&sim);
    let coefficients = sim.table().coefficients().clone();
    for frame in 0..12 {
        // The window may change between frames, and a slow frame is cut short.
        let domain = Vec2::new((400 - 10 * frame) * ONE, (300 + frame) * ONE);
        sim.step_frame(ONE / 60 + frame * ONE, &domain, &mut rng);
        assert_eq!(kinds(&sim), before);
        assert_eq!(sim.table().coefficients(), &coefficients);
        for p in sim.particles() {
            assert!(0 <= p.pos.x && p.pos.x < domain.x);
            assert!(0 <= p.pos.y && p.pos.y < domain.y);
            assert_eq!(p.vel, Vec2::zero());
        }
    }
}

#[test]
fn step_frame_with_no_time_only_wraps() {
    let mut rng = rand::thread_rng();
    let domain = Vec2::new(100 * ONE, 100 * ONE);
    let particles = vec![
        Particle::new(150 * ONE, -ONE, ParticleKind::One),
        Particle::new(151 * ONE, -ONE, ParticleKind::Two),
    ];
    let mut sim = Simulation::new(table_of(2 * ONE), particles).unwrap();
    sim.step_frame(0, &domain, &mut rng);
    assert_eq!(sim.particles()[0].pos, Vec2::new(50 * ONE, 99 * ONE));
    assert_eq!(sim.particles()[1].pos, Vec2::new(51 * ONE, 99 * ONE));
}

#[test]
fn draw_noise_stays_within_the_brownian_bound() {
    let mut rng = rand::thread_rng();
    let noise = draw_noise(&mut rng, 500);
    assert_eq!(noise.len(), 500);
    let mut distinct = std::collections::HashSet::new();
    for v in &noise {
        assert!(-PARTICLE_BROWNIAN <= v.x && v.x < PARTICLE_BROWNIAN);
        assert!(-PARTICLE_BROWNIAN <= v.y && v.y < PARTICLE_BROWNIAN);
        distinct.insert(v.to_array());
    }
    assert!(distinct.len() > 400);
    assert!(draw_noise(&mut rng, 0).is_empty());
}
