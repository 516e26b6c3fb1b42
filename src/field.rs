//! The simulation's domain, the scalar noise grid over it, and the table that
//! turns a noise scalar into a unit direction.
use vstd::prelude::*;
use vstd::arithmetic::div_mod::{lemma_fundamental_div_mod_converse, lemma_fundamental_div_mod, lemma_mod_pos_bound};
use crate::geometry::{Vec2, ONE, len_sq, bounded_by, lemma_short_is_bounded, length_squared};

verus! {

/// Largest width or height of the domain, in pixels.
pub const MAX_EXTENT: i64 = 100_000;

/// Allowed distance of a table entry's squared length from `ONE * ONE`.
pub const UNIT_TOLERANCE: i64 = 2 * ONE + 2;

/// Number of entries of a direction table: one per `1 / ONE` of a turn.
pub const TURN_STEPS: usize = 1000;

/// The toroidal domain: `width` by `height` pixels.
#[derive(Clone, Copy, Debug, PartialEq, Eq, Structural)]
pub struct Bounds {
    pub width: i64,
    pub height: i64,
}

impl Bounds {
    pub open spec fn wf(self) -> bool {
        0 < self.width <= MAX_EXTENT && 0 < self.height <= MAX_EXTENT
    }

    /// The domain, if both sides are positive and at most `MAX_EXTENT`.
    pub fn new(width: i64, height: i64) -> (r: Option<Bounds>)
        ensures
            r.is_some() <==> (0 < width <= MAX_EXTENT && 0 < height <= MAX_EXTENT),
            r matches Some(b) ==> b.wf() && b.width == width && b.height == height,
    {
        if 0 < width && width <= MAX_EXTENT && 0 < height && height <= MAX_EXTENT {
            Some(Bounds { width, height })
        } else {
            None
        }
    }
}

/// `p` taken modulo `extent`, into `[0, extent)`.
pub fn wrap_coord(p: i64, extent: i64) -> (r: i64)
    requires
        extent > 0,
    ensures
        r == p % extent,
        0 <= r < extent,
        0 <= p < extent ==> r == p,
        -extent <= p < 0 ==> r == p + extent,
        extent <= p < 2 * extent ==> r == p - extent,
{
    if p >= 0 {
        proof {
            if p < extent {
                lemma_fundamental_div_mod_converse(p as int, extent as int, 0, p as int);
            } else if p < 2 * extent {
                lemma_fundamental_div_mod_converse(p as int, extent as int, 1, p - extent);
            }
        }
        p % extent
    } else {
        let q: i64 = -(p + 1);
        let m: i64 = q % extent;
        proof {
            let k = q as int / extent as int;
            lemma_fundamental_div_mod(q as int, extent as int);
            lemma_mod_pos_bound(q as int, extent as int);
            assert(p == (-k - 1) * extent + (extent - 1 - m)) by (nonlinear_arith)
                requires
                    q == extent * k + m,
                    q == -(p + 1),
            ;
            lemma_fundamental_div_mod_converse(
                p as int,
                extent as int,
                -k - 1,
                extent - 1 - m,
            );
            if -extent <= p {
                lemma_fundamental_div_mod_converse(p as int, extent as int, -1, p + extent);
            }
        }
        extent - 1 - m
    }
}

/// A scalar noise grid of `width * height` samples, stored row by row. The
/// scalar is fixed-point: `ONE` stands for a full turn.
#[derive(Clone, Debug)]
pub struct NoiseField {
    pub width: usize,
    pub height: usize,
    pub values: Vec<i64>,
}

impl NoiseField {
    pub open spec fn wf(self) -> bool {
        &&& 0 < self.width <= MAX_EXTENT
        &&& 0 < self.height <= MAX_EXTENT
        &&& self.values@.len() == self.width * self.height
    }

    /// The sample at `(x, y)`, each coordinate taken modulo the grid's side.
    pub open spec fn sample(self, x: int, y: int) -> i64 {
        self.values@[(y % (self.height as int)) * self.width + x % (self.width as int)]
    }

    /// The grid of `values` (row by row), if it has exactly `width * height`
    /// samples and both sides are positive and at most `MAX_EXTENT`.
    pub fn from_samples(width: usize, height: usize, values: Vec<i64>) -> (r: Option<NoiseField>)
        ensures
            r.is_some() <==> (0 < width <= MAX_EXTENT && 0 < height <= MAX_EXTENT
                && values@.len() == width * height),
            r matches Some(f) ==> f.wf() && f.width == width && f.height == height
                && f.values@ == values@,
    {
        if width == 0 || width > MAX_EXTENT as usize || height == 0 || height > MAX_EXTENT as usize {
            return None;
        }
        assert(width * height <= MAX_EXTENT * MAX_EXTENT) by (nonlinear_arith)
            requires
                0 < width <= MAX_EXTENT,
                0 < height <= MAX_EXTENT,
        ;
        if values.len() as u64 != (width as u64) * (height as u64) {
            return None;
        }
        Some(NoiseField { width, height, values })
    }

    /// The sample at `(x, y)`; coordinates outside the grid wrap around.
    pub fn get(&self, x: i64, y: i64) -> (r: i64)
        requires
            self.wf(),
        ensures
            r == self.sample(x as int, y as int),
    {
        let cx = wrap_coord(x, self.width as i64) as usize;
        let cy = wrap_coord(y, self.height as i64) as usize;
        assert(0 <= cy * self.width <= cy * self.width + cx < self.width * self.height) by (nonlinear_arith)
            requires
                cx < self.width,
                cy < self.height,
        ;
        let n: usize = self.values.len();
        assert(cy * self.width + cx < n);
        let row: usize = cy * self.width;
        self.values[row + cx]
    }
}

/// Within tolerance of unit length: `|len_sq(v) - ONE^2| <= UNIT_TOLERANCE`.
pub open spec fn near_unit(v: Vec2) -> bool {
    ONE * ONE - UNIT_TOLERANCE <= len_sq(v) <= ONE * ONE + UNIT_TOLERANCE
}

/// A near-unit vector has components within `[-2 * ONE, 2 * ONE]`.
pub proof fn lemma_near_unit_bounded(v: Vec2)
    requires
        near_unit(v),
    ensures
        bounded_by(v, 2 * ONE),
{
    assert(ONE == 1000);
    assert(UNIT_TOLERANCE == 2002);
    assert((2 * ONE) * (2 * ONE) == 4_000_000int);
    assert(len_sq(v) <= 4_000_000int);
    lemma_short_is_bounded(v, 2 * ONE);
}

/// Unit vectors for each step of a turn: entry `k` points at angle
/// `2 * pi * k / TURN_STEPS`.
#[derive(Clone, Debug)]
pub struct DirectionTable {
    pub directions: Vec<Vec2>,
}

impl DirectionTable {
    pub open spec fn wf(self) -> bool {
        &&& self.directions@.len() == TURN_STEPS
        &&& forall|k: int| 0 <= k < TURN_STEPS ==> near_unit(#[trigger] self.directions@[k])
    }

    /// The direction that the scalar `v` stands for.
    pub open spec fn direction_of(self, v: int) -> Vec2 {
        self.directions@[v % (TURN_STEPS as int)]
    }

    /// The table of `directions`, if it has `TURN_STEPS` entries, each
    /// within tolerance of unit length.
    pub fn new(directions: Vec<Vec2>) -> (r: Option<DirectionTable>)
        ensures
            r.is_some() <==> (directions@.len() == TURN_STEPS
                && forall|k: int| 0 <= k < directions@.len() ==> near_unit(#[trigger] directions@[k])),
            r matches Some(t) ==> t.wf() && t.directions@ == directions@,
    {
        if directions.len() != TURN_STEPS {
            return None;
        }
        let mut i: usize = 0;
        while i < directions.len()
            invariant
                i <= directions@.len() == TURN_STEPS,
                forall|k: int| 0 <= k < i ==> near_unit(#[trigger] directions@[k]),
            decreases directions@.len() - i,
        {
            let d = directions[i];
            if !(-2 * ONE <= d.x && d.x <= 2 * ONE && -2 * ONE <= d.y && d.y <= 2 * ONE) {
                proof {
                    if near_unit(d) {
                        lemma_near_unit_bounded(d);
                    }
                }
                return None;
            }
            let n = length_squared(d) as i64;
            if n < ONE * ONE - UNIT_TOLERANCE || n > ONE * ONE + UNIT_TOLERANCE {
                return None;
            }
            i += 1;
        }
        Some(DirectionTable { directions })
    }

    /// The unit direction of the field at `(x, y)`: the noise scalar there,
    /// read as a fraction of a turn.
    pub fn direction(&self, field: &NoiseField, x: i64, y: i64) -> (r: Vec2)
        requires
            self.wf(),
            field.wf(),
        ensures
            r == self.direction_of(field.sample(x as int, y as int) as int),
            near_unit(r),
    {
        let v = field.get(x, y);
        let k = wrap_coord(v, TURN_STEPS as i64) as usize;
        self.directions[k]
    }
}

} // verus!
