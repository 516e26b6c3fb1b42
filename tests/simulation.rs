use flowfield::field::{wrap_coord, Bounds, DirectionTable, NoiseField, TURN_STEPS};
use flowfield::geometry::{ceil_sqrt_u128, clamp_max, length, renormalize, scale, Vec2, ONE};
use flowfield::particle::{
    generate_particles, particle_at, tick, Particle, Profile, Settings, Simulation,
};

fn unit_table() -> DirectionTable {
    let mut dirs = Vec::new();
    for k in 0..TURN_STEPS {
        let a = (k as f64) / (TURN_STEPS as f64) * std::f64::consts::PI * 2.0;
        dirs.push(Vec2 {
            x: (a.cos() * ONE as f64).round() as i64,
            y: (a.sin() * ONE as f64).round() as i64,
        });
    }
    DirectionTable::new(dirs).expect("a table of rounded unit vectors is valid")
}

fn flat_field(width: usize, height: usize, value: i64) -> NoiseField {
    NoiseField::from_samples(width, height, vec![value; width * height]).unwrap()
}

fn still_settings(max_speed: i64) -> Settings {
    Settings {
        seed: 7,
        particle_count: 1,
        max_speed,
        steer_rate: 0,
        flow_influence: 0,
        max_acceleration: ONE,
        paused: false,
        profile: Profile::VelocitySteering,
    }
}

fn particle(px: i64, py: i64, vx: i64, vy: i64) -> Particle {
    Particle { position: Vec2 { x: px, y: py }, motion: Vec2 { x: vx, y: vy } }
}

#[test]
fn straight_line_without_flow_or_steering() {
    let b = Bounds::new(1200, 800).unwrap();
    let field = flat_field(1200, 800, 123);
    let table = unit_table();
    let mut ps = vec![particle(600 * ONE, 400 * ONE, ONE, 0)];
    tick(&mut ps, &field, &table, &still_settings(ONE), ONE, b);
    assert_eq!(ps[0], particle(601 * ONE, 400 * ONE, ONE, 0));

    let mut ps = vec![particle(600 * ONE, 400 * ONE, ONE, 0)];
    tick(&mut ps, &field, &table, &still_settings(2 * ONE), ONE, b);
    assert_eq!(ps[0], particle(602 * ONE, 400 * ONE, 2 * ONE, 0));
}

#[test]
fn left_edge_wraps_to_right_edge() {
    let b = Bounds::new(1200, 800).unwrap();
    let field = flat_field(1200, 800, 0);
    let table = unit_table();
    let mut ps = vec![particle(ONE / 2, 400 * ONE, -2 * ONE, 0)];
    tick(&mut ps, &field, &table, &still_settings(ONE), ONE, b);
    assert_eq!(ps[0].position, Vec2 { x: 1200 * ONE - ONE / 2, y: 400 * ONE });
    assert_eq!(ps[0].motion, Vec2 { x: -ONE, y: 0 });
}

#[test]
fn bottom_edge_wraps_to_top() {
    let b = Bounds::new(100, 50).unwrap();
    let field = flat_field(100, 50, 0);
    let table = unit_table();
    let mut ps = vec![particle(10 * ONE, 50 * ONE - 1, 0, ONE)];
    tick(&mut ps, &field, &table, &still_settings(ONE), ONE, b);
    assert_eq!(ps[0].position, Vec2 { x: 10 * ONE, y: ONE - 1 });
}

#[test]
fn particles_stay_on_torus_over_many_ticks() {
    let b = Bounds::new(120, 80).unwrap();
    let values: Vec<i64> = (0..(120 * 80)).map(|i| (i * 37 % 1000) as i64).collect();
    let field = NoiseField::from_samples(120, 80, values).unwrap();
    let table = unit_table();
    let mut s = Settings::with_seed(1);
    s.max_speed = 5 * ONE;
    s.steer_rate = 300;
    let mut ps = vec![
        particle(0, 0, 0, 0),
        particle(119 * ONE, 79 * ONE, -ONE, ONE),
        particle(60 * ONE, 40 * ONE, 3 * ONE, -4 * ONE),
    ];
    for _ in 0..200 {
        tick(&mut ps, &field, &table, &s, 7 * ONE, b);
        for p in ps.iter() {
            assert!(0 <= p.position.x && p.position.x < 120 * ONE);
            assert!(0 <= p.position.y && p.position.y < 80 * ONE);
        }
    }
}

#[test]
fn paused_ticks_change_nothing() {
    let b = Bounds::new(120, 80).unwrap();
    let field = flat_field(120, 80, 250);
    let table = unit_table();
    let mut s = Settings::with_seed(3);
    s.paused = true;
    let before = vec![particle(5 * ONE, 6 * ONE, 300, -400), particle(0, 0, 0, 0)];
    let mut ps = before.clone();
    for _ in 0..10 {
        tick(&mut ps, &field, &table, &s, ONE, b);
    }
    assert_eq!(ps, before);
}

#[test]
fn velocity_is_renormalized_to_max_speed() {
    let b = Bounds::new(120, 80).unwrap();
    let field = flat_field(120, 80, 250);
    let table = unit_table();
    let mut s = Settings::with_seed(3);
    s.max_speed = 3 * ONE;
    let mut ps = vec![particle(5 * ONE, 6 * ONE, 0, 0), particle(50 * ONE, 6 * ONE, 700, 700)];
    tick(&mut ps, &field, &table, &s, ONE, b);
    for p in ps.iter() {
        let sq = p.motion.x * p.motion.x + p.motion.y * p.motion.y;
        assert!(sq <= 9 * ONE * ONE);
        assert!(sq >= (3 * ONE - 3) * (3 * ONE - 3));
    }
    // a quarter turn everywhere: full flow influence points straight down the y axis
    assert_eq!(ps[0].motion, Vec2 { x: 0, y: 3 * ONE });
}

#[test]
fn acceleration_is_capped() {
    let b = Bounds::new(120, 80).unwrap();
    let field = flat_field(120, 80, 0);
    let table = unit_table();
    let mut s = Settings::with_seed(3);
    s.profile = Profile::AccelerationAccumulation;
    let mut ps = vec![particle(5 * ONE, 6 * ONE, 0, 0), particle(5 * ONE, 6 * ONE, 990, 0)];
    tick(&mut ps, &field, &table, &s, ONE, b);
    // flow of angle zero, capped at 0.04
    assert_eq!(ps[0].motion, Vec2 { x: 40, y: 0 });
    assert_eq!(ps[0].position, Vec2 { x: 5 * ONE + 40, y: 6 * ONE });
    // 0.99 + 0.04 is capped back to 1
    assert_eq!(ps[1].motion, Vec2 { x: ONE, y: 0 });
    for _ in 0..100 {
        tick(&mut ps, &field, &table, &s, ONE, b);
        for p in ps.iter() {
            assert!(p.motion.x * p.motion.x + p.motion.y * p.motion.y <= ONE * ONE);
        }
    }
}

#[test]
fn regeneration_gives_the_requested_count_at_rest() {
    let b = Bounds::new(120, 80).unwrap();
    let mut sim = Simulation::new(b, flat_field(120, 80, 0), 400);
    assert_eq!(sim.particles.len(), 400);
    sim.regenerate(17);
    assert_eq!(sim.particles.len(), 17);
    for p in sim.particles.iter() {
        assert_eq!(p.motion, Vec2 { x: 0, y: 0 });
        assert!(0 <= p.position.x && p.position.x < 120 * ONE && p.position.x % ONE == 0);
        assert!(0 <= p.position.y && p.position.y < 80 * ONE && p.position.y % ONE == 0);
    }
    sim.regenerate(0);
    assert!(sim.particles.is_empty());
    assert_eq!(generate_particles(3, b).len(), 3);
}

#[test]
fn simulation_tick_follows_the_flow() {
    let b = Bounds::new(20, 20).unwrap();
    let mut sim = Simulation::new(b, flat_field(20, 20, 500), 0);
    sim.particles = vec![particle_at(10, 10, b)];
    let table = unit_table();
    let mut s = still_settings(ONE);
    s.flow_influence = ONE;
    s.steer_rate = ONE;
    sim.tick(&table, &s, ONE);
    // half a turn points along -x
    assert_eq!(sim.particles[0], particle(9 * ONE, 10 * ONE, -ONE, 0));
    sim.replace_field(flat_field(20, 20, 0));
    sim.tick(&table, &s, ONE);
    assert_eq!(sim.particles[0], particle(10 * ONE, 10 * ONE, ONE, 0));
}

#[test]
fn field_lookup_wraps_and_rejects_bad_shapes() {
    let f = NoiseField::from_samples(3, 2, vec![1, 2, 3, 4, 5, 6]).unwrap();
    assert_eq!(f.get(0, 0), 1);
    assert_eq!(f.get(2, 1), 6);
    assert_eq!(f.get(3, 0), 1);
    assert_eq!(f.get(-1, 0), 3);
    assert_eq!(f.get(0, -1), 4);
    assert_eq!(f.get(-1, -1), 6);
    assert!(NoiseField::from_samples(3, 2, vec![1, 2, 3]).is_none());
    assert!(NoiseField::from_samples(0, 2, vec![]).is_none());
    let again = NoiseField::from_samples(3, 2, vec![1, 2, 3, 4, 5, 6]).unwrap();
    for x in -4..8 {
        for y in -4..8 {
            assert_eq!(f.get(x, y), again.get(x, y));
        }
    }
}

#[test]
fn direction_table_checks_its_entries() {
    let table = unit_table();
    let f = NoiseField::from_samples(2, 1, vec![250, -750]).unwrap();
    assert_eq!(table.direction(&f, 0, 0), Vec2 { x: 0, y: ONE });
    assert_eq!(table.direction(&f, 1, 0), Vec2 { x: 0, y: ONE });
    assert_eq!(table.direction(&f, 2, 0), Vec2 { x: 0, y: ONE });
    for k in 0..TURN_STEPS {
        let d = table.directions[k];
        let sq = d.x * d.x + d.y * d.y;
        assert!((sq - ONE * ONE).abs() <= 2 * ONE + 2);
    }
    assert!(DirectionTable::new(vec![Vec2 { x: ONE, y: 0 }; 10]).is_none());
    let mut dirs = table.directions.clone();
    dirs[5] = Vec2 { x: ONE / 2, y: 0 };
    assert!(DirectionTable::new(dirs).is_none());
}

#[test]
fn bounds_and_settings_ranges() {
    assert!(Bounds::new(0, 5).is_none());
    assert!(Bounds::new(5, -1).is_none());
    assert!(Bounds::new(100_001, 5).is_none());
    assert_eq!(Bounds::new(1200, 800), Some(Bounds { width: 1200, height: 800 }));
    let s = Settings::with_seed(9);
    assert!(s.is_valid());
    assert_eq!(s.particle_count, 400);
    assert_eq!(s.steer_rate, 100);
    let mut bad = s;
    bad.steer_rate = ONE + 1;
    assert!(!bad.is_valid());
    bad = s;
    bad.particle_count = 1001;
    assert!(!bad.is_valid());
}

#[test]
fn integer_geometry() {
    assert_eq!(ceil_sqrt_u128(0), 0);
    assert_eq!(ceil_sqrt_u128(1), 1);
    assert_eq!(ceil_sqrt_u128(2), 2);
    assert_eq!(ceil_sqrt_u128(16), 4);
    assert_eq!(ceil_sqrt_u128(17), 5);
    assert_eq!(ceil_sqrt_u128(1_000_000_000_000_000_000), 1_000_000_000);
    assert_eq!(length(Vec2 { x: 3000, y: -4000 }), 5000);
    assert_eq!(renormalize(Vec2 { x: 3, y: -4 }, 1000), Vec2 { x: 600, y: -800 });
    assert_eq!(renormalize(Vec2 { x: 0, y: 0 }, 1000), Vec2 { x: 0, y: 0 });
    assert_eq!(clamp_max(Vec2 { x: 30, y: 40 }, 100), Vec2 { x: 30, y: 40 });
    assert_eq!(clamp_max(Vec2 { x: 300, y: 400 }, 100), Vec2 { x: 60, y: 80 });
    assert_eq!(scale(-7, 1, 2), -3);
    assert_eq!(scale(7, 1, 2), 3);
    assert_eq!(wrap_coord(-1, 10), 9);
    assert_eq!(wrap_coord(10, 10), 0);
    assert_eq!(wrap_coord(-25, 10), 5);
    assert_eq!(wrap_coord(1234, 10), 4);
}
