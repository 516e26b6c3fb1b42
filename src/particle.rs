//! Particles and their per-tick integration: velocity steering or
//! acceleration accumulation, followed by a toroidal wrap.
use vstd::prelude::*;
use crate::geometry::{
    Vec2, ONE, len_sq, bounded_by, scale_spec, scaled_spec, plus_spec, renorm_spec,
    clamp_max_spec, length_spec, lemma_ceil_sqrt_le, length, renormalize, clamp_max, plus, scaled, scale,
};
use crate::field::{
    Bounds, NoiseField, DirectionTable, MAX_EXTENT, near_unit, lemma_near_unit_bounded, wrap_coord,
};

verus! {

/// Largest speed a configuration may ask for: 1000 pixels per time unit.
pub const MAX_SPEED: i64 = 1000 * ONE;

/// Largest time step of one tick: 1000 time units.
pub const MAX_DT: i64 = 1000 * ONE;

/// Largest particle count a configuration may ask for.
pub const MAX_PARTICLES: usize = 1000;

/// Cap on the length of the flow's pull in one accumulation tick (0.04).
pub const FLOW_CAP: i64 = 40;

/// How a particle's motion state follows the flow.
#[derive(Clone, Copy, Debug, PartialEq, Eq, Structural)]
pub enum Profile {
    /// The motion state is a velocity, steered toward the flow and
    /// renormalised to the maximum speed.
    VelocitySteering,
    /// The motion state is an acceleration that gathers the flow's pull,
    /// capped at the maximum acceleration.
    AccelerationAccumulation,
}

/// The tunable parameters of the simulation. Speeds, gains and accelerations
/// are fixed-point with `ONE` to the unit.
#[derive(Clone, Copy, Debug, PartialEq, Eq, Structural)]
pub struct Settings {
    pub seed: u32,
    pub particle_count: usize,
    pub max_speed: i64,
    pub steer_rate: i64,
    pub flow_influence: i64,
    pub max_acceleration: i64,
    pub paused: bool,
    pub profile: Profile,
}

impl Settings {
    /// Every parameter lies in its range.
    pub open spec fn wf(self) -> bool {
        &&& self.particle_count <= MAX_PARTICLES
        &&& 0 <= self.max_speed <= MAX_SPEED
        &&& 0 <= self.steer_rate <= ONE
        &&& 0 <= self.flow_influence <= ONE
        &&& 0 <= self.max_acceleration <= ONE
    }

    /// Whether every parameter lies in its range.
    pub fn is_valid(&self) -> (r: bool)
        ensures
            r == self.wf(),
    {
        self.particle_count <= MAX_PARTICLES && 0 <= self.max_speed && self.max_speed <= MAX_SPEED
            && 0 <= self.steer_rate && self.steer_rate <= ONE && 0 <= self.flow_influence
            && self.flow_influence <= ONE && 0 <= self.max_acceleration && self.max_acceleration
            <= ONE
    }

    /// The starting configuration for `seed`: 400 particles, speed 1, steering
    /// 0.1 (`100`), full flow influence, acceleration cap 1, running, velocity steering.
    pub fn with_seed(seed: u32) -> (r: Settings)
        ensures
            r.wf(),
            r == (Settings {
                seed,
                particle_count: 400,
                max_speed: ONE,
                steer_rate: 100,
                flow_influence: ONE,
                max_acceleration: ONE,
                paused: false,
                profile: Profile::VelocitySteering,
            }),
    {
        Settings {
            seed,
            particle_count: 400,
            max_speed: ONE,
            steer_rate: 100,
            flow_influence: ONE,
            max_acceleration: ONE,
            paused: false,
            profile: Profile::VelocitySteering,
        }
    }
}

/// A particle: its position in the domain and its motion state (a velocity
/// or an acceleration, as the profile reads it).
#[derive(Clone, Copy, Debug, PartialEq, Eq, Structural)]
pub struct Particle {
    pub position: Vec2,
    pub motion: Vec2,
}

/// The position lies in `[0, width) x [0, height)` and the motion state is
/// within the speed limit.
pub open spec fn particle_wf(p: Particle, b: Bounds) -> bool {
    &&& 0 <= p.position.x < b.width * ONE
    &&& 0 <= p.position.y < b.height * ONE
    &&& bounded_by(p.motion, MAX_SPEED as int)
}

/// Every particle of `ps` is well formed in `b`.
pub open spec fn all_wf(ps: Seq<Particle>, b: Bounds) -> bool {
    forall|i: int| 0 <= i < ps.len() ==> particle_wf(#[trigger] ps[i], b)
}

/// The larger of two integers.
pub open spec fn max_int(a: int, b: int) -> int {
    if a >= b { a } else { b }
}

/// Velocity steering before the final renormalisation: the flow blended
/// with inertia, renormalised to `max(speed, 1)`, then blended into the old
/// velocity at the steering rate.
pub open spec fn steer_blend_spec(v: Vec2, dir: Vec2, s: Settings) -> Vec2 {
    let flow = scaled_spec(dir, s.flow_influence as int, ONE as int);
    let inertia = scaled_spec(v, ONE - s.flow_influence, ONE as int);
    let target = renorm_spec(plus_spec(flow, inertia), max_int(length_spec(v), ONE as int));
    plus_spec(
        scaled_spec(v, ONE - s.steer_rate, ONE as int),
        scaled_spec(target, s.steer_rate as int, ONE as int),
    )
}

/// Velocity steering: the blend renormalised to the maximum speed.
pub open spec fn steer_spec(v: Vec2, dir: Vec2, s: Settings) -> Vec2 {
    renorm_spec(steer_blend_spec(v, dir, s), s.max_speed as int)
}

/// Having a direction, a new velocity is renormalised to within 3 units
/// below the maximum speed.
pub open spec fn near_max_speed(v: Vec2, dir: Vec2, s: Settings, r: Vec2) -> bool {
    len_sq(steer_blend_spec(v, dir, s)) != 0 && s.max_speed >= 3 ==> len_sq(r) >= (s.max_speed - 3)
        * (s.max_speed - 3)
}

/// Acceleration accumulation: the flow capped at `FLOW_CAP`, added to the
/// old acceleration, capped at the maximum acceleration.
pub open spec fn accumulate_spec(a: Vec2, dir: Vec2, s: Settings) -> Vec2 {
    clamp_max_spec(plus_spec(a, clamp_max_spec(dir, FLOW_CAP as int)), s.max_acceleration as int)
}

/// The new motion state under the configured profile.
pub open spec fn motion_spec(m: Vec2, dir: Vec2, s: Settings) -> Vec2 {
    match s.profile {
        Profile::VelocitySteering => steer_spec(m, dir, s),
        Profile::AccelerationAccumulation => accumulate_spec(m, dir, s),
    }
}

/// `position + motion * dt`, wrapped onto the torus.
pub open spec fn advance_spec(pos: Vec2, m: Vec2, dt: int, b: Bounds) -> Vec2 {
    Vec2 {
        x: ((pos.x + scale_spec(m.x as int, dt, ONE as int)) % (b.width * ONE)) as i64,
        y: ((pos.y + scale_spec(m.y as int, dt, ONE as int)) % (b.height * ONE)) as i64,
    }
}

/// The flow direction under a particle: the field sampled at the pixel
/// that holds its position.
pub open spec fn flow_at(pos: Vec2, field: NoiseField, table: DirectionTable) -> Vec2 {
    table.direction_of(field.sample(pos.x as int / ONE as int, pos.y as int / ONE as int) as int)
}

/// One particle after one tick of `dt`.
pub open spec fn step_spec(
    p: Particle,
    field: NoiseField,
    table: DirectionTable,
    s: Settings,
    dt: int,
    b: Bounds,
) -> Particle {
    let m = motion_spec(p.motion, flow_at(p.position, field, table), s);
    Particle { position: advance_spec(p.position, m, dt, b), motion: m }
}

/// What one tick makes of a particle set: nothing when paused, else each
/// particle stepped.
pub open spec fn tick_spec(
    ps: Seq<Particle>,
    field: NoiseField,
    table: DirectionTable,
    s: Settings,
    dt: int,
    b: Bounds,
) -> Seq<Particle> {
    if s.paused {
        ps
    } else {
        Seq::new(ps.len(), |i: int| step_spec(ps[i], field, table, s, dt, b))
    }
}

/// The velocity-steering update of `v` toward `dir`.
pub fn steer(v: Vec2, dir: Vec2, s: &Settings) -> (r: Vec2)
    requires
        s.wf(),
        bounded_by(v, MAX_SPEED as int),
        near_unit(dir),
    ensures
        r == steer_spec(v, dir, *s),
        len_sq(r) <= s.max_speed * s.max_speed,
        bounded_by(r, s.max_speed as int),
        near_max_speed(v, dir, *s, r),
{
    proof {
        lemma_near_unit_bounded(dir);
    }
    let flow = scaled(dir, s.flow_influence, ONE);
    let inertia = scaled(v, ONE - s.flow_influence, ONE);
    let speed = length(v);
    proof {
        assert(len_sq(v) <= (2 * MAX_SPEED) * (2 * MAX_SPEED)) by (nonlinear_arith)
            requires
                bounded_by(v, MAX_SPEED as int),
        ;
        lemma_ceil_sqrt_le(len_sq(v), speed as int, 2 * MAX_SPEED);
    }
    let target_len = if speed >= ONE { speed } else { ONE };
    let target = renormalize(plus(flow, inertia), target_len);
    let kept = scaled(v, ONE - s.steer_rate, ONE);
    let turned = scaled(target, s.steer_rate, ONE);
    let blended = plus(kept, turned);
    assert(blended == steer_blend_spec(v, dir, *s));
    renormalize(blended, s.max_speed)
}

/// The acceleration-accumulation update of `a` toward `dir`.
pub fn accumulate(a: Vec2, dir: Vec2, s: &Settings) -> (r: Vec2)
    requires
        s.wf(),
        bounded_by(a, MAX_SPEED as int),
        near_unit(dir),
    ensures
        r == accumulate_spec(a, dir, *s),
        len_sq(r) <= s.max_acceleration * s.max_acceleration,
        bounded_by(r, s.max_acceleration as int),
{
    proof {
        lemma_near_unit_bounded(dir);
    }
    let pull = clamp_max(dir, FLOW_CAP);
    clamp_max(plus(a, pull), s.max_acceleration)
}

/// The next motion state under the configured profile.
pub fn next_motion(m: Vec2, dir: Vec2, s: &Settings) -> (r: Vec2)
    requires
        s.wf(),
        bounded_by(m, MAX_SPEED as int),
        near_unit(dir),
    ensures
        r == motion_spec(m, dir, *s),
        bounded_by(r, MAX_SPEED as int),
        s.profile == Profile::VelocitySteering ==> len_sq(r) <= s.max_speed * s.max_speed
            && near_max_speed(m, dir, *s, r),
        s.profile == Profile::AccelerationAccumulation ==> len_sq(r) <= s.max_acceleration
            * s.max_acceleration,
{
    match s.profile {
        Profile::VelocitySteering => steer(m, dir, s),
        Profile::AccelerationAccumulation => accumulate(m, dir, s),
    }
}

/// `pos + m * dt`, wrapped onto the torus.
pub fn advance(pos: Vec2, m: Vec2, dt: i64, b: Bounds) -> (r: Vec2)
    requires
        b.wf(),
        bounded_by(pos, (MAX_EXTENT * ONE) as int),
        bounded_by(m, MAX_SPEED as int),
        0 <= dt <= MAX_DT,
    ensures
        r == advance_spec(pos, m, dt as int, b),
        0 <= r.x < b.width * ONE,
        0 <= r.y < b.height * ONE,
{
    let dx = scale(m.x, dt, ONE);
    let dy = scale(m.y, dt, ONE);
    Vec2 { x: wrap_coord(pos.x + dx, b.width * ONE), y: wrap_coord(pos.y + dy, b.height * ONE) }
}

/// One particle after one tick of `dt`: its motion state updated toward
/// the flow under it, then its position advanced and wrapped.
pub fn step_particle(
    p: Particle,
    field: &NoiseField,
    table: &DirectionTable,
    s: &Settings,
    dt: i64,
    b: Bounds,
) -> (r: Particle)
    requires
        field.wf(),
        table.wf(),
        s.wf(),
        b.wf(),
        0 <= dt <= MAX_DT,
        particle_wf(p, b),
    ensures
        r == step_spec(p, *field, *table, *s, dt as int, b),
        particle_wf(r, b),
        s.profile == Profile::VelocitySteering ==> len_sq(r.motion) <= s.max_speed * s.max_speed
            && near_max_speed(p.motion, flow_at(p.position, *field, *table), *s, r.motion),
        s.profile == Profile::AccelerationAccumulation ==> len_sq(r.motion) <= s.max_acceleration
            * s.max_acceleration,
{
    let dir = table.direction(field, p.position.x / ONE, p.position.y / ONE);
    let m = next_motion(p.motion, dir, s);
    Particle { position: advance(p.position, m, dt, b), motion: m }
}

/// Advance every particle by one tick of `dt`; while paused, leave them
/// as they are. The whole set is replaced at once.
pub fn tick(
    particles: &mut Vec<Particle>,
    field: &NoiseField,
    table: &DirectionTable,
    s: &Settings,
    dt: i64,
    b: Bounds,
)
    requires
        field.wf(),
        table.wf(),
        s.wf(),
        b.wf(),
        0 <= dt <= MAX_DT,
        all_wf(old(particles)@, b),
    ensures
        final(particles)@ == tick_spec(old(particles)@, *field, *table, *s, dt as int, b),
        all_wf(final(particles)@, b),
        !s.paused && s.profile == Profile::VelocitySteering ==> forall|i: int|
            0 <= i < final(particles)@.len() ==> len_sq(#[trigger] final(particles)@[i].motion)
                <= s.max_speed * s.max_speed && near_max_speed(
                old(particles)@[i].motion,
                flow_at(old(particles)@[i].position, *field, *table),
                *s,
                final(particles)@[i].motion,
            ),
        !s.paused && s.profile == Profile::AccelerationAccumulation ==> forall|i: int|
            0 <= i < final(particles)@.len() ==> len_sq(#[trigger] final(particles)@[i].motion)
                <= ONE * ONE,
{
    if s.paused {
        return;
    }
    let mut next: Vec<Particle> = Vec::new();
    let mut i: usize = 0;
    while i < particles.len()
        invariant
            field.wf(),
            table.wf(),
            s.wf(),
            b.wf(),
            !s.paused,
            0 <= dt <= MAX_DT,
            all_wf(particles@, b),
            i <= particles@.len(),
            next@.len() == i,
            forall|j: int| 0 <= j < i ==> #[trigger] next@[j] == step_spec(particles@[j], *field, *table, *s, dt as int, b),
            all_wf(next@, b),
            s.profile == Profile::VelocitySteering ==> forall|j: int|
                0 <= j < i ==> len_sq(#[trigger] next@[j].motion) <= s.max_speed * s.max_speed
                    && near_max_speed(
                    particles@[j].motion,
                    flow_at(particles@[j].position, *field, *table),
                    *s,
                    next@[j].motion,
                ),
            s.profile == Profile::AccelerationAccumulation ==> forall|j: int|
                0 <= j < i ==> len_sq(#[trigger] next@[j].motion) <= ONE * ONE,
        decreases particles@.len() - i,
    {
        let p = step_particle(particles[i], field, table, s, dt, b);
        proof {
            if s.profile == Profile::AccelerationAccumulation {
                assert(s.max_acceleration * s.max_acceleration <= ONE * ONE) by (nonlinear_arith)
                    requires
                        0 <= s.max_acceleration <= ONE,
                ;
            }
        }
        next.push(p);
        i += 1;
    }
    assert(next@ =~= tick_spec(particles@, *field, *table, *s, dt as int, b));
    *particles = next;
}

/// The particle sits at rest on the corner of a pixel.
pub open spec fn at_rest_on_pixel(p: Particle) -> bool {
    &&& p.motion == Vec2 { x: 0, y: 0 }
    &&& p.position.x % ONE == 0
    &&& p.position.y % ONE == 0
}

/// Relies on nannou's `rand::random_range`: for `min < max`, a value drawn
/// from `[min, max)` by the thread-local generator.
#[verifier::external_body]
fn random_range(min: i64, max: i64) -> (r: i64)
    requires
        min < max,
    ensures
        min <= r < max,
{
    nannou::rand::random_range(min, max)
}

/// A particle at rest on pixel `(x, y)`.
pub fn particle_at(x: i64, y: i64, b: Bounds) -> (r: Particle)
    requires
        b.wf(),
        0 <= x < b.width,
        0 <= y < b.height,
    ensures
        r == (Particle { position: Vec2 { x: (x * ONE) as i64, y: (y * ONE) as i64 }, motion: Vec2 { x: 0, y: 0 } }),
        particle_wf(r, b),
        at_rest_on_pixel(r),
{
    Particle { position: Vec2 { x: x * ONE, y: y * ONE }, motion: Vec2 { x: 0, y: 0 } }
}

/// `count` particles at rest, each on a pixel drawn at random from the
/// domain.
pub fn generate_particles(count: usize, b: Bounds) -> (r: Vec<Particle>)
    requires
        b.wf(),
    ensures
        r@.len() == count,
        all_wf(r@, b),
        forall|i: int| 0 <= i < r@.len() ==> at_rest_on_pixel(#[trigger] r@[i]),
{
    let mut r: Vec<Particle> = Vec::new();
    let mut i: usize = 0;
    while i < count
        invariant
            b.wf(),
            i <= count,
            r@.len() == i,
            all_wf(r@, b),
            forall|j: int| 0 <= j < r@.len() ==> at_rest_on_pixel(#[trigger] r@[j]),
        decreases count - i,
    {
        let x = random_range(0, b.width);
        let y = random_range(0, b.height);
        r.push(particle_at(x, y, b));
        i += 1;
    }
    r
}

/// The simulation's state: its domain, the noise grid the flow is read
/// from, and the current particles.
#[derive(Debug)]
pub struct Simulation {
    pub bounds: Bounds,
    pub field: NoiseField,
    pub particles: Vec<Particle>,
}

impl Simulation {
    pub open spec fn wf(self) -> bool {
        &&& self.bounds.wf()
        &&& self.field.wf()
        &&& all_wf(self.particles@, self.bounds)
    }

    /// A simulation over `bounds` and `field` with `count` fresh particles.
    pub fn new(bounds: Bounds, field: NoiseField, count: usize) -> (r: Simulation)
        requires
            bounds.wf(),
            field.wf(),
        ensures
            r.wf(),
            r.bounds == bounds,
            r.field == field,
            r.particles@.len() == count,
            forall|i: int| 0 <= i < r.particles@.len() ==> at_rest_on_pixel(#[trigger] r.particles@[i]),
    {
        let particles = generate_particles(count, bounds);
        Simulation { bounds, field, particles }
    }

    /// One tick of `dt` under settings `s`.
    pub fn tick(&mut self, table: &DirectionTable, s: &Settings, dt: i64)
        requires
            old(self).wf(),
            table.wf(),
            s.wf(),
            0 <= dt <= MAX_DT,
        ensures
            final(self).wf(),
            final(self).bounds == old(self).bounds,
            final(self).field == old(self).field,
            final(self).particles@ == tick_spec(
                old(self).particles@,
                old(self).field,
                *table,
                *s,
                dt as int,
                old(self).bounds,
            ),
    {
        tick(&mut self.particles, &self.field, table, s, dt, self.bounds);
    }

    /// Replace the particles with `count` fresh ones at rest.
    pub fn regenerate(&mut self, count: usize)
        requires
            old(self).wf(),
        ensures
            final(self).wf(),
            final(self).bounds == old(self).bounds,
            final(self).field == old(self).field,
            final(self).particles@.len() == count,
            forall|i: int|
                0 <= i < final(self).particles@.len() ==> at_rest_on_pixel(
                    #[trigger] final(self).particles@[i],
                ),
    {
        self.particles = generate_particles(count, self.bounds);
    }

    /// Replace the noise grid, keeping the particles.
    pub fn replace_field(&mut self, field: NoiseField)
        requires
            old(self).wf(),
            field.wf(),
        ensures
            final(self).wf(),
            final(self).bounds == old(self).bounds,
            final(self).field == field,
            final(self).particles@ == old(self).particles@,
    {
        self.field = field;
    }
}

} // verus!
