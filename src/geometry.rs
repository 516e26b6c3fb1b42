//! Fixed-point planar vectors: lengths, scaling and renormalisation.
use vstd::prelude::*;

verus! {

/// Fixed-point units in one unit (one pixel, a gain of 1, one time unit).
pub const ONE: i64 = 1000;

/// Bound on the magnitude of the components this module computes with, so
/// that squares and products stay within `i64` and a squared length within
/// `SQUARE_LIMIT`.
pub const COMPONENT_LIMIT: i64 = 700_000_000;

/// Bound on the squared length of a vector within `COMPONENT_LIMIT`.
pub const SQUARE_LIMIT: u64 = 1_000_000_000_000_000_000;

/// The square root of `SQUARE_LIMIT`: bound on lengths and scale factors.
pub const ROOT_LIMIT: u64 = 1_000_000_000;

/// Factor by which a vector is enlarged before its length is taken for
/// renormalisation, so that rounding the square root costs no precision.
pub const PRECISION: i64 = 1_000_000_000;

/// Largest argument of `ceil_sqrt_u128`.
pub const WIDE_SQUARE_LIMIT: u128 = 1_000_000_000_000_000_000_000_000_000_000_000_000;

/// Largest result of `ceil_sqrt_u128`, the square root of `WIDE_SQUARE_LIMIT`.
pub const WIDE_ROOT_LIMIT: u128 = 1_000_000_000_000_000_000;

/// A fixed-point planar vector.
#[derive(Clone, Copy, Debug, PartialEq, Eq, Structural)]
pub struct Vec2 {
    pub x: i64,
    pub y: i64,
}

/// Squared Euclidean length of a vector.
pub open spec fn len_sq(v: Vec2) -> int {
    v.x * v.x + v.y * v.y
}

/// Both components lie within `[-limit, limit]`.
pub open spec fn bounded_by(v: Vec2, limit: int) -> bool {
    -limit <= v.x <= limit && -limit <= v.y <= limit
}

/// `r` lies between zero and `a`.
pub open spec fn shrinks(r: int, a: int) -> bool {
    if a >= 0 {
        0 <= r <= a
    } else {
        a <= r <= 0
    }
}

/// The least `r >= 0` with `r * r >= n`.
pub open spec fn is_ceil_sqrt(n: int, r: int) -> bool {
    r >= 0 && r * r >= n && (r == 0 || (r - 1) * (r - 1) < n)
}

/// `a * num / den`, rounded toward zero.
pub open spec fn scale_spec(a: int, num: int, den: int) -> int {
    if a >= 0 {
        a * num / den
    } else {
        -((-a) * num / den)
    }
}

/// The least `r >= 0` with `r * r >= n` (unique by `lemma_ceil_sqrt_unique`).
pub open spec fn ceil_sqrt(n: int) -> int {
    choose|r: int| is_ceil_sqrt(n, r)
}

/// The length of a vector, rounded up.
pub open spec fn length_spec(v: Vec2) -> int {
    ceil_sqrt(len_sq(v))
}

/// A vector pointing as `v` does, rescaled to length `len` (each component
/// rounded toward zero); the zero vector stays zero, having no direction.
/// The length divided by is that of `v * PRECISION`, rounded up.
pub open spec fn renorm_spec(v: Vec2, len: int) -> Vec2 {
    if len_sq(v) == 0 {
        v
    } else {
        let c = ceil_sqrt(len_sq(v) * PRECISION * PRECISION);
        Vec2 {
            x: scale_spec(v.x * PRECISION, len, c) as i64,
            y: scale_spec(v.y * PRECISION, len, c) as i64,
        }
    }
}

/// `v` itself when no longer than `max`, else `v` renormalised to `max`.
pub open spec fn clamp_max_spec(v: Vec2, max: int) -> Vec2 {
    if len_sq(v) <= max * max {
        v
    } else {
        renorm_spec(v, max)
    }
}

/// Componentwise sum.
pub open spec fn plus_spec(a: Vec2, b: Vec2) -> Vec2 {
    Vec2 { x: (a.x + b.x) as i64, y: (a.y + b.y) as i64 }
}

/// Both components multiplied by `num / den`, each rounded toward zero.
pub open spec fn scaled_spec(v: Vec2, num: int, den: int) -> Vec2 {
    Vec2 { x: scale_spec(v.x as int, num, den) as i64, y: scale_spec(v.y as int, num, den) as i64 }
}

/// At most one `r` is the rounded-up square root of `n`.
pub proof fn lemma_ceil_sqrt_unique(n: int, r1: int, r2: int)
    requires
        is_ceil_sqrt(n, r1),
        is_ceil_sqrt(n, r2),
    ensures
        r1 == r2,
{
    if r1 < r2 {
        assert((r2 - 1) * (r2 - 1) >= r1 * r1) by (nonlinear_arith)
            requires
                0 <= r1 <= r2 - 1,
        ;
    } else if r2 < r1 {
        assert((r1 - 1) * (r1 - 1) >= r2 * r2) by (nonlinear_arith)
            requires
                0 <= r2 <= r1 - 1,
        ;
    }
}

/// The rounded-up square root of `n <= m * m` is at most `m`.
pub proof fn lemma_ceil_sqrt_le(n: int, r: int, m: int)
    requires
        is_ceil_sqrt(n, r),
        m >= 0,
        n <= m * m,
    ensures
        r <= m,
{
    if r > m {
        assert((r - 1) * (r - 1) >= m * m) by (nonlinear_arith)
            requires
                r - 1 >= m >= 0,
        ;
    }
}

/// A witness of `is_ceil_sqrt` is `ceil_sqrt`.
pub proof fn lemma_ceil_sqrt_is(n: int, r: int)
    requires
        is_ceil_sqrt(n, r),
    ensures
        ceil_sqrt(n) == r,
{
    let c = ceil_sqrt(n);
    assert(is_ceil_sqrt(n, c));
    lemma_ceil_sqrt_unique(n, c, r);
}

/// Rounded-up integer square root, by bisection.
pub fn ceil_sqrt_u128(n: u128) -> (r: u128)
    requires
        n <= WIDE_SQUARE_LIMIT,
    ensures
        is_ceil_sqrt(n as int, r as int),
        r == ceil_sqrt(n as int),
        r <= WIDE_ROOT_LIMIT,
{
    if n == 0 {
        proof {
            lemma_ceil_sqrt_is(0, 0);
        }
        return 0;
    }
    let mut lo: u128 = 0;
    let mut hi: u128 = WIDE_ROOT_LIMIT;
    assert(hi * hi >= n) by (nonlinear_arith)
        requires
            hi == WIDE_ROOT_LIMIT,
            n <= WIDE_SQUARE_LIMIT,
    ;
    while hi - lo > 1
        invariant
            lo < hi <= WIDE_ROOT_LIMIT,
            lo * lo < n,
            hi * hi >= n,
            n <= WIDE_SQUARE_LIMIT,
        decreases hi - lo,
    {
        let mid: u128 = lo + (hi - lo) / 2;
        assert(mid * mid <= WIDE_SQUARE_LIMIT) by (nonlinear_arith)
            requires
                mid <= WIDE_ROOT_LIMIT,
        ;
        if mid * mid >= n {
            hi = mid;
        } else {
            lo = mid;
        }
    }
    proof {
        lemma_ceil_sqrt_is(n as int, hi as int);
    }
    hi
}

/// `a * num / den` for `|a| <= den`, rounded toward zero: at most `num`
/// in magnitude.
fn scale_wide(a: i128, num: i64, den: i128) -> (r: i64)
    requires
        0 < den <= WIDE_ROOT_LIMIT,
        -den <= a <= den,
        0 <= num <= ROOT_LIMIT,
    ensures
        r == scale_spec(a as int, num as int, den as int),
        -num <= r <= num,
{
    let n: i128 = num as i128;
    if a >= 0 {
        assert(0 <= a * n <= den * n) by (nonlinear_arith)
            requires
                0 <= a <= den,
                0 <= n,
        ;
        assert(den * n <= WIDE_ROOT_LIMIT * ROOT_LIMIT) by (nonlinear_arith)
            requires
                0 < den <= WIDE_ROOT_LIMIT,
                0 <= n <= ROOT_LIMIT,
        ;
        assert((a * n) / (den as int) <= n) by (nonlinear_arith)
            requires
                0 <= a * n <= den * n,
                0 < den,
        ;
        ((a * n) / den) as i64
    } else {
        let b: i128 = -a;
        assert(0 <= b * n <= den * n) by (nonlinear_arith)
            requires
                0 <= b <= den,
                0 <= n,
        ;
        assert(den * n <= WIDE_ROOT_LIMIT * ROOT_LIMIT) by (nonlinear_arith)
            requires
                0 < den <= WIDE_ROOT_LIMIT,
                0 <= n <= ROOT_LIMIT,
        ;
        assert(0 <= (b * n) / (den as int) <= n) by (nonlinear_arith)
            requires
                0 <= b * n <= den * n,
                0 < den,
        ;
        -(((b * n) / den) as i64)
    }
}

/// `a * num / den`, rounded toward zero.
pub fn scale(a: i64, num: i64, den: i64) -> (r: i64)
    requires
        -COMPONENT_LIMIT <= a <= COMPONENT_LIMIT,
        0 <= num <= ROOT_LIMIT,
        0 < den,
    ensures
        r == scale_spec(a as int, num as int, den as int),
        num <= den ==> shrinks(r as int, a as int),
        -COMPONENT_LIMIT * ROOT_LIMIT <= r <= COMPONENT_LIMIT * ROOT_LIMIT,
{
    if a >= 0 {
        assert(num <= den ==> a * num / (den as int) <= a) by (nonlinear_arith)
            requires
                0 <= a,
                0 <= num,
                0 < den,
        ;
        assert(a * num <= COMPONENT_LIMIT * ROOT_LIMIT) by (nonlinear_arith)
            requires
                0 <= a <= COMPONENT_LIMIT,
                0 <= num <= ROOT_LIMIT,
        ;
        assert((a * num) / (den as int) <= a * num) by (nonlinear_arith)
            requires
                0 <= a * num,
                0 < den,
        ;
        a * num / den
    } else {
        let b: i64 = -a;
        assert(b * num <= COMPONENT_LIMIT * ROOT_LIMIT) by (nonlinear_arith)
            requires
                0 <= b <= COMPONENT_LIMIT,
                0 <= num <= ROOT_LIMIT,
        ;
        assert(0 <= (b * num) / (den as int) <= b * num) by (nonlinear_arith)
            requires
                0 <= b * num,
                0 < den,
        ;
        assert(num <= den ==> b * num / (den as int) <= b) by (nonlinear_arith)
            requires
                0 <= b,
                0 <= num,
                0 < den,
        ;
        -(b * num / den)
    }
}

/// A nonnegative value whose square is at most `l * l` is at most `l`.
proof fn lemma_sq_le_bounds(p: int, l: int)
    requires
        l >= 0,
        p * p <= l * l,
    ensures
        -l <= p <= l,
{
    if p > l {
        assert(p * p > l * l) by (nonlinear_arith)
            requires
                p > l >= 0,
        ;
    }
    if p < -l {
        assert(p * p > l * l) by (nonlinear_arith)
            requires
                -p > l >= 0,
        ;
    }
}

/// Scaling `(x, y)` by `l / c` with `c * c >= x^2 + y^2` gives a vector no
/// longer than `l`.
proof fn lemma_renorm_no_longer(x: int, y: int, l: int, c: int)
    requires
        l >= 0,
        c > 0,
        c * c >= x * x + y * y,
    ensures
        ({
            let sx = scale_spec(x, l, c);
            let sy = scale_spec(y, l, c);
            sx * sx + sy * sy <= l * l && -l <= sx <= l && -l <= sy <= l
        }),
{
    let ax = if x >= 0 { x } else { -x };
    let ay = if y >= 0 { y } else { -y };
    let p = ax * l / c;
    let q = ay * l / c;
    assert(0 <= p * c <= ax * l) by (nonlinear_arith)
        requires
            ax >= 0,
            l >= 0,
            c > 0,
            p == ax * l / c,
    ;
    assert(0 <= q * c <= ay * l) by (nonlinear_arith)
        requires
            ay >= 0,
            l >= 0,
            c > 0,
            q == ay * l / c,
    ;
    assert((p * c) * (p * c) <= (ax * l) * (ax * l)) by (nonlinear_arith)
        requires
            0 <= p * c <= ax * l,
    ;
    assert((q * c) * (q * c) <= (ay * l) * (ay * l)) by (nonlinear_arith)
        requires
            0 <= q * c <= ay * l,
    ;
    assert((p * c) * (p * c) == (p * p) * (c * c)) by (nonlinear_arith);
    assert((q * c) * (q * c) == (q * q) * (c * c)) by (nonlinear_arith);
    assert((ax * l) * (ax * l) == (ax * ax) * (l * l)) by (nonlinear_arith);
    assert((ay * l) * (ay * l) == (ay * ay) * (l * l)) by (nonlinear_arith);
    assert(ax * ax == x * x) by (nonlinear_arith)
        requires
            ax == x || ax == -x,
    ;
    assert(ay * ay == y * y) by (nonlinear_arith)
        requires
            ay == y || ay == -y,
    ;
    let pp = p * p;
    let qq = q * q;
    let cc = c * c;
    let ll = l * l;
    let xx = ax * ax;
    let yy = ay * ay;
    assert(ll >= 0 && cc > 0) by (nonlinear_arith)
        requires
            c > 0,
            ll == l * l,
            cc == c * c,
    ;
    assert((pp + qq) * cc <= cc * ll) by (nonlinear_arith)
        requires
            pp * cc <= xx * ll,
            qq * cc <= yy * ll,
            xx + yy <= cc,
            ll >= 0,
    ;
    assert(pp + qq <= ll) by (nonlinear_arith)
        requires
            (pp + qq) * cc <= cc * ll,
            cc > 0,
    ;
    let sx = scale_spec(x, l, c);
    let sy = scale_spec(y, l, c);
    assert(sx * sx == p * p) by (nonlinear_arith)
        requires
            sx == p || sx == -p,
    ;
    assert(sy * sy == q * q) by (nonlinear_arith)
        requires
            sy == q || sy == -q,
    ;
    assert(p * p >= 0 && q * q >= 0) by (nonlinear_arith);
    lemma_sq_le_bounds(sx, l);
    lemma_sq_le_bounds(sy, l);
}

/// Scaling a nonzero `(x, y)` by `l / c`, where `c >= l` is its length
/// rounded up, loses less than 3 of the length `l`.
proof fn lemma_renorm_long_enough(x: int, y: int, l: int, c: int)
    requires
        l >= 3,
        c >= l,
        x * x + y * y > 0,
        is_ceil_sqrt(x * x + y * y, c),
    ensures
        ({
            let sx = scale_spec(x, l, c);
            let sy = scale_spec(y, l, c);
            sx * sx + sy * sy >= (l - 3) * (l - 3)
        }),
{
    let ax = if x >= 0 { x } else { -x };
    let ay = if y >= 0 { y } else { -y };
    let n = x * x + y * y;
    let p = ax * l / c;
    let q = ay * l / c;
    assert(ax * l < (p + 1) * c && p >= 0) by (nonlinear_arith)
        requires
            ax >= 0,
            l >= 0,
            c > 0,
            p == ax * l / c,
    ;
    assert(ay * l < (q + 1) * c && q >= 0) by (nonlinear_arith)
        requires
            ay >= 0,
            l >= 0,
            c > 0,
            q == ay * l / c,
    ;
    assert(ax * ax == x * x) by (nonlinear_arith)
        requires
            ax == x || ax == -x,
    ;
    assert(ay * ay == y * y) by (nonlinear_arith)
        requires
            ay == y || ay == -y,
    ;
    assert((ax * l) * (ax * l) <= ((p + 1) * c) * ((p + 1) * c)) by (nonlinear_arith)
        requires
            0 <= ax * l < (p + 1) * c,
    ;
    assert((ay * l) * (ay * l) <= ((q + 1) * c) * ((q + 1) * c)) by (nonlinear_arith)
        requires
            0 <= ay * l < (q + 1) * c,
    ;
    assert((ax * l) * (ax * l) == (ax * ax) * (l * l)) by (nonlinear_arith);
    assert((ay * l) * (ay * l) == (ay * ay) * (l * l)) by (nonlinear_arith);
    assert(((p + 1) * c) * ((p + 1) * c) == ((p + 1) * (p + 1)) * (c * c)) by (nonlinear_arith);
    assert(((q + 1) * c) * ((q + 1) * c) == ((q + 1) * (q + 1)) * (c * c)) by (nonlinear_arith);
    let big = (p + 1) * (p + 1) + (q + 1) * (q + 1);
    let cc = c * c;
    let ll = l * l;
    assert(n * ll <= big * cc) by (nonlinear_arith)
        requires
            (ax * ax) * ll <= ((p + 1) * (p + 1)) * cc,
            (ay * ay) * ll <= ((q + 1) * (q + 1)) * cc,
            n == ax * ax + ay * ay,
            big == (p + 1) * (p + 1) + (q + 1) * (q + 1),
    ;
    // (c - 1) * l >= (l - 1) * c because c >= l
    assert(((c - 1) * l) * ((c - 1) * l) >= ((l - 1) * c) * ((l - 1) * c)) by (nonlinear_arith)
        requires
            c >= l >= 3,
    ;
    assert(n * ll > ((l - 1) * (l - 1)) * cc) by (nonlinear_arith)
        requires
            n > (c - 1) * (c - 1),
            ((c - 1) * l) * ((c - 1) * l) >= ((l - 1) * c) * ((l - 1) * c),
            ll == l * l,
            cc == c * c,
            l >= 3,
    ;
    assert(big > (l - 1) * (l - 1)) by (nonlinear_arith)
        requires
            n * ll <= big * cc,
            n * ll > ((l - 1) * (l - 1)) * cc,
            cc == c * c,
            c > 0,
    ;
    let t = l - 3;
    if p * p + q * q < t * t {
        assert((p + q) * (p + q) <= 2 * (p * p + q * q)) by (nonlinear_arith);
        if p + q >= 2 * t + 2 {
            assert((p + q) * (p + q) >= (2 * t + 2) * (2 * t + 2)) by (nonlinear_arith)
                requires
                    p + q >= 2 * t + 2,
                    t >= 0,
            ;
            assert((2 * t + 2) * (2 * t + 2) >= 2 * (t * t)) by (nonlinear_arith)
                requires
                    t >= 0,
            ;
            assert(false);
        }
        assert(big <= (t + 2) * (t + 2)) by (nonlinear_arith)
            requires
                p * p + q * q <= t * t - 1,
                p + q <= 2 * t + 1,
                big == (p + 1) * (p + 1) + (q + 1) * (q + 1),
        ;
    }
    let sx = scale_spec(x, l, c);
    let sy = scale_spec(y, l, c);
    assert(sx * sx == p * p) by (nonlinear_arith)
        requires
            sx == p || sx == -p,
    ;
    assert(sy * sy == q * q) by (nonlinear_arith)
        requires
            sy == q || sy == -q,
    ;
}

/// A vector of squared length at most `l * l` has components within `[-l, l]`.
pub proof fn lemma_short_is_bounded(v: Vec2, l: int)
    requires
        l >= 0,
        len_sq(v) <= l * l,
    ensures
        bounded_by(v, l),
{
    assert(v.x * v.x <= l * l && v.y * v.y <= l * l) by (nonlinear_arith)
        requires
            v.x * v.x + v.y * v.y <= l * l,
    ;
    lemma_sq_le_bounds(v.x as int, l);
    lemma_sq_le_bounds(v.y as int, l);
}

/// Squared length of `v`.
pub fn length_squared(v: Vec2) -> (r: u64)
    requires
        bounded_by(v, COMPONENT_LIMIT as int),
    ensures
        r == len_sq(v),
        r <= SQUARE_LIMIT,
{
    assert(v.x * v.x <= COMPONENT_LIMIT * COMPONENT_LIMIT) by (nonlinear_arith)
        requires
            -COMPONENT_LIMIT <= v.x <= COMPONENT_LIMIT,
    ;
    assert(v.y * v.y <= COMPONENT_LIMIT * COMPONENT_LIMIT) by (nonlinear_arith)
        requires
            -COMPONENT_LIMIT <= v.y <= COMPONENT_LIMIT,
    ;
    assert(v.x * v.x >= 0 && v.y * v.y >= 0) by (nonlinear_arith);
    let sx: i64 = v.x * v.x;
    let sy: i64 = v.y * v.y;
    (sx + sy) as u64
}

/// The length of `v`, rounded up.
pub fn length(v: Vec2) -> (r: i64)
    requires
        bounded_by(v, COMPONENT_LIMIT as int),
    ensures
        r == length_spec(v),
        is_ceil_sqrt(len_sq(v), r as int),
        0 <= r <= ROOT_LIMIT,
{
    let n = length_squared(v);
    let r = ceil_sqrt_u128(n as u128);
    proof {
        lemma_ceil_sqrt_le(n as int, r as int, ROOT_LIMIT as int);
    }
    r as i64
}

/// `v` rescaled to length `len`, pointing the same way; zero stays zero.
pub fn renormalize(v: Vec2, len: i64) -> (r: Vec2)
    requires
        bounded_by(v, COMPONENT_LIMIT as int),
        0 <= len <= ROOT_LIMIT,
    ensures
        r == renorm_spec(v, len as int),
        len_sq(r) <= len * len,
        bounded_by(r, len as int),
        len_sq(v) != 0 && len >= 3 ==> len_sq(r) >= (len - 3) * (len - 3),
{
    let n = length_squared(v);
    if n == 0 {
        assert(v.x == 0 && v.y == 0) by (nonlinear_arith)
            requires
                v.x * v.x + v.y * v.y == 0,
        ;
        assert(len * len >= 0) by (nonlinear_arith);
        return v;
    }
    let wx: i128 = v.x as i128 * PRECISION as i128;
    let wy: i128 = v.y as i128 * PRECISION as i128;
    assert(-COMPONENT_LIMIT * PRECISION <= wx <= COMPONENT_LIMIT * PRECISION) by (nonlinear_arith)
        requires
            -COMPONENT_LIMIT <= v.x <= COMPONENT_LIMIT,
            wx == v.x * PRECISION,
    ;
    assert(-COMPONENT_LIMIT * PRECISION <= wy <= COMPONENT_LIMIT * PRECISION) by (nonlinear_arith)
        requires
            -COMPONENT_LIMIT <= v.y <= COMPONENT_LIMIT,
            wy == v.y * PRECISION,
    ;
    assert(0 <= wx * wx <= (COMPONENT_LIMIT * PRECISION) * (COMPONENT_LIMIT * PRECISION)) by (nonlinear_arith)
        requires
            -COMPONENT_LIMIT * PRECISION <= wx <= COMPONENT_LIMIT * PRECISION,
    ;
    assert(0 <= wy * wy <= (COMPONENT_LIMIT * PRECISION) * (COMPONENT_LIMIT * PRECISION)) by (nonlinear_arith)
        requires
            -COMPONENT_LIMIT * PRECISION <= wy <= COMPONENT_LIMIT * PRECISION,
    ;
    assert(COMPONENT_LIMIT * PRECISION == 700_000_000_000_000_000int);
    assert((COMPONENT_LIMIT * PRECISION) * (COMPONENT_LIMIT * PRECISION)
        == 490_000_000_000_000_000_000_000_000_000_000_000int);
    let wn: u128 = (wx * wx + wy * wy) as u128;
    assert(wn == len_sq(v) * PRECISION * PRECISION) by (nonlinear_arith)
        requires
            wx == v.x * PRECISION,
            wy == v.y * PRECISION,
            wn == wx * wx + wy * wy,
    ;
    let c = ceil_sqrt_u128(wn);
    proof {
        assert(wn >= PRECISION * PRECISION) by (nonlinear_arith)
            requires
                wn == len_sq(v) * PRECISION * PRECISION,
                len_sq(v) >= 1,
        ;
        if c < PRECISION {
            assert(c * c < PRECISION * PRECISION) by (nonlinear_arith)
                requires
                    0 <= c < PRECISION,
            ;
        }
        lemma_sq_le_bounds(wx as int, c as int);
        lemma_sq_le_bounds(wy as int, c as int);
        assert(wx * wx <= c * c && wy * wy <= c * c) by (nonlinear_arith)
            requires
                wx * wx + wy * wy <= c * c,
        ;
    }
    let r = Vec2 { x: scale_wide(wx, len, c as i128), y: scale_wide(wy, len, c as i128) };
    proof {
        lemma_renorm_no_longer(wx as int, wy as int, len as int, c as int);
        if len >= 3 {
            lemma_renorm_long_enough(wx as int, wy as int, len as int, c as int);
        }
    }
    r
}

/// `v` when no longer than `max`, else `v` renormalised to length `max`.
pub fn clamp_max(v: Vec2, max: i64) -> (r: Vec2)
    requires
        bounded_by(v, COMPONENT_LIMIT as int),
        0 <= max <= COMPONENT_LIMIT,
    ensures
        r == clamp_max_spec(v, max as int),
        len_sq(r) <= max * max,
        bounded_by(r, max as int),
{
    let n = length_squared(v);
    assert(0 <= max * max <= COMPONENT_LIMIT * COMPONENT_LIMIT) by (nonlinear_arith)
        requires
            0 <= max <= COMPONENT_LIMIT,
    ;
    let max_sq: u64 = (max * max) as u64;
    if n <= max_sq {
        proof {
            lemma_short_is_bounded(v, max as int);
        }
        v
    } else {
        renormalize(v, max)
    }
}

/// Componentwise sum.
pub fn plus(a: Vec2, b: Vec2) -> (r: Vec2)
    requires
        bounded_by(a, COMPONENT_LIMIT as int),
        bounded_by(b, COMPONENT_LIMIT as int),
    ensures
        r == plus_spec(a, b),
{
    Vec2 { x: a.x + b.x, y: a.y + b.y }
}

/// Both components multiplied by `num / den`, rounded toward zero.
pub fn scaled(v: Vec2, num: i64, den: i64) -> (r: Vec2)
    requires
        bounded_by(v, COMPONENT_LIMIT as int),
        0 <= num <= ROOT_LIMIT,
        0 < den,
    ensures
        r == scaled_spec(v, num as int, den as int),
        num <= den ==> shrinks(r.x as int, v.x as int) && shrinks(r.y as int, v.y as int),
{
    Vec2 { x: scale(v.x, num, den), y: scale(v.y, num, den) }
}

} // verus!
