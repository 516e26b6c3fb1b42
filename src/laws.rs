//! Properties that relate several calls: reproducible fields, a lookup that
//! wraps, unit directions, and pausing.
use vstd::prelude::*;
use vstd::arithmetic::div_mod::lemma_mod_add_multiples_vanish;
use crate::field::{NoiseField, DirectionTable, Bounds, TURN_STEPS, near_unit};
use crate::particle::{Settings, tick_spec};
use crate::particle::Particle;

verus! {

/// Two fields built from the same width, height and samples read the same
/// value at every coordinate.
pub proof fn lemma_field_reproducible(f1: NoiseField, f2: NoiseField)
    requires
        f1.wf(),
        f2.wf(),
        f1.width == f2.width,
        f1.height == f2.height,
        f1.values@ == f2.values@,
    ensures
        forall|x: int, y: int| #[trigger] f1.sample(x, y) == f2.sample(x, y),
{
}

/// Reading a field one full width to the right, or one full height down,
/// gives the same value: the lookup is continuous across the wrap.
pub proof fn lemma_sample_wraps(f: NoiseField, x: int, y: int)
    requires
        f.wf(),
    ensures
        f.sample(x + f.width, y) == f.sample(x, y),
        f.sample(x, y + f.height) == f.sample(x, y),
{
    lemma_mod_add_multiples_vanish(x, f.width as int);
    lemma_mod_add_multiples_vanish(y, f.height as int);
    assert(x + f.width == f.width + x);
    assert(y + f.height == f.height + y);
}

/// Every scalar, whatever its value, maps to a direction of unit length
/// (within the table's tolerance).
pub proof fn lemma_direction_is_unit(table: DirectionTable, v: int)
    requires
        table.wf(),
    ensures
        near_unit(table.direction_of(v)),
{
    assert(0 <= v % (TURN_STEPS as int) < TURN_STEPS);
}

/// The particle set after a tick of each step of `dts` in turn.
pub open spec fn ticks_spec(
    ps: Seq<Particle>,
    field: NoiseField,
    table: DirectionTable,
    s: Settings,
    dts: Seq<int>,
    b: Bounds,
) -> Seq<Particle>
    decreases dts.len(),
{
    if dts.len() == 0 {
        ps
    } else {
        ticks_spec(tick_spec(ps, field, table, s, dts[0], b), field, table, s, dts.drop_first(), b)
    }
}

/// Any number of ticks while paused leaves every particle exactly as it was.
pub proof fn lemma_paused_ticks_keep_particles(
    ps: Seq<Particle>,
    field: NoiseField,
    table: DirectionTable,
    s: Settings,
    dts: Seq<int>,
    b: Bounds,
)
    requires
        s.paused,
    ensures
        ticks_spec(ps, field, table, s, dts, b) == ps,
    decreases dts.len(),
{
    if dts.len() > 0 {
        lemma_paused_ticks_keep_particles(ps, field, table, s, dts.drop_first(), b);
    }
}

} // verus!
