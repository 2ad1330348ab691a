use vstd::prelude::*;

verus! {

/// Largest arena side length the simulation accepts.
pub const ARENA_LIMIT: i64 = 1_000_000_000;
/// Largest body radius the simulation accepts.
pub const RADIUS_LIMIT: i64 = 1_000_000;
/// Largest per-frame time step the simulation accepts.
pub const DELTA_LIMIT: i64 = 1_000_000;
/// Highlight timer value written when a collision is detected.
pub const FLASH_DURATION: i64 = 100;
/// The steering-force strength the frame pipeline uses for followers (the
/// hook itself takes strength as a parameter, up to `FORCE_LIMIT`).
pub const SEEK_STRENGTH: i64 = 90;
/// Bodies whose coordinates exceed this bound are skipped by the resolver.
pub const POS_GUARD: i64 = 1_100_000_000;
/// Bodies whose velocity components exceed this bound receive no impulse.
pub const VEL_GUARD: i64 = 1_000_000_000;
/// Coordinate bound that a frame re-establishes: `POS_GUARD + 2 * RADIUS_LIMIT`.
pub const POS_LIMIT: i64 = 1_102_000_000;
/// Velocity bound that a frame re-establishes: `5 * VEL_GUARD`.
pub const VEL_LIMIT: i64 = 5_000_000_000;
/// Largest accumulated-force component the simulation accepts.
pub const FORCE_LIMIT: i64 = 1_000_000;

/// A two-dimensional vector over integer world coordinates.
#[derive(Clone, Copy, PartialEq, Eq, Structural, Debug)]
pub struct Vec2i {
    pub x: i64,
    pub y: i64,
}

pub fn vec2(x: i64, y: i64) -> (v: Vec2i)
    ensures
        v.x == x,
        v.y == y,
{
    Vec2i { x, y }
}

pub open spec fn abs_i(a: int) -> int {
    if a >= 0 {
        a
    } else {
        -a
    }
}

/// Quotient rounded toward zero, for a positive divisor.
pub open spec fn tdiv(a: int, b: int) -> int {
    if a >= 0 {
        a / b
    } else {
        -((-a) / b)
    }
}

/// `r` is the integer square root of `n`.
pub open spec fn is_sqrt(n: int, r: int) -> bool {
    0 <= r && r * r <= n && n < (r + 1) * (r + 1)
}

/// The integer square root (well defined for `n >= 0` by the two lemmas below).
pub open spec fn sqrt_of(n: int) -> int {
    choose|r: int| is_sqrt(n, r)
}

pub proof fn lemma_sqrt_exists(n: nat)
    ensures
        exists|r: int| is_sqrt(n as int, r),
    decreases n,
{
    if n == 0 {
        assert(is_sqrt(0, 0));
    } else {
        lemma_sqrt_exists((n - 1) as nat);
        let r = choose|r: int| #[trigger] is_sqrt(n as int - 1, r);
        if n < (r + 1) * (r + 1) {
            assert(is_sqrt(n as int, r));
        } else {
            assert((r + 1) * (r + 1) < (r + 2) * (r + 2)) by (nonlinear_arith)
                requires
                    r >= 0,
            ;
            assert(is_sqrt(n as int, r + 1));
        }
    }
}

pub proof fn lemma_sqrt_unique(n: int, r1: int, r2: int)
    by (nonlinear_arith)
    requires
        is_sqrt(n, r1),
        is_sqrt(n, r2),
    ensures
        r1 == r2,
{
}

pub proof fn lemma_sqrt_of(n: int)
    requires
        n >= 0,
    ensures
        is_sqrt(n, sqrt_of(n)),
{
    lemma_sqrt_exists(n as nat);
}

/// A value whose square is at most `n` is at most the square root of `n`.
pub proof fn lemma_sqrt_lower(n: int, r: int, a: int)
    by (nonlinear_arith)
    requires
        is_sqrt(n, r),
        a >= 0,
        a * a <= n,
    ensures
        a <= r,
{
}

/// The square root of `n` is below any `b` whose square exceeds `n`.
pub proof fn lemma_sqrt_upper(n: int, r: int, b: int)
    by (nonlinear_arith)
    requires
        is_sqrt(n, r),
        b >= 0,
        n < b * b,
    ensures
        r < b,
{
}

/// A quotient `tdiv(a, d)` with `|a| <= d * m` has magnitude at most `m`.
pub proof fn lemma_tdiv_bounded(a: int, d: int, m: int)
    by (nonlinear_arith)
    requires
        d > 0,
        m >= 0,
        abs_i(a) <= d * m,
    ensures
        abs_i(tdiv(a, d)) <= m,
{
}

/// A quotient of non-negative operands is non-negative.
pub proof fn lemma_tdiv_nonneg(a: int, d: int)
    by (nonlinear_arith)
    requires
        a >= 0,
        d > 0,
    ensures
        tdiv(a, d) >= 0,
{
}

/// Scaling `m >= 0` by a ratio `u / d` with `|u| <= d` cannot grow it.
pub proof fn lemma_scaled_bound(u: int, m: int, d: int)
    requires
        d > 0,
        m >= 0,
        abs_i(u) <= d,
    ensures
        abs_i(u * m) <= d * m,
        abs_i(tdiv(u * m, d)) <= m,
{
    assert(abs_i(u * m) <= d * m) by (nonlinear_arith)
        requires
            d > 0,
            m >= 0,
            abs_i(u) <= d,
    ;
    lemma_tdiv_bounded(u * m, d, m);
}

/// Ceiling division for a non-negative numerator and positive divisor.
pub open spec fn cdivp(a: int, b: int) -> int {
    (a + b - 1) / b
}

/// The ceiling of `m * r / d` with `0 < r <= d` stays within `[0, m]`, and is
/// at least one as soon as `m` is: rounding the ratio up never overshoots the
/// whole, and never rounds a positive amount away entirely.
pub proof fn lemma_cdivp_bounds(m: int, r: int, d: int)
    by (nonlinear_arith)
    requires
        0 <= m,
        0 < r <= d,
    ensures
        0 <= cdivp(m * r, d) <= m,
        m >= 1 ==> cdivp(m * r, d) >= 1,
{
}

/// Ceiling division of an exact multiple recovers the factor.
pub proof fn lemma_cdivp_exact(a: int, d: int)
    by (nonlinear_arith)
    requires
        d > 0,
        a >= 0,
    ensures
        cdivp(a * d, d) == a,
{
}

/// A quotient toward zero keeps the numerator's sign.
pub proof fn lemma_tdiv_sign(a: int, d: int)
    by (nonlinear_arith)
    requires
        d > 0,
    ensures
        a >= 0 ==> tdiv(a, d) >= 0,
        a <= 0 ==> tdiv(a, d) <= 0,
{
}

/// Dividing an exact multiple recovers the factor.
pub proof fn lemma_tdiv_exact(a: int, d: int)
    by (nonlinear_arith)
    requires
        d > 0,
    ensures
        tdiv(a * d, d) == a,
{
}

/// A square is non-negative and equals the square of the magnitude.
pub proof fn lemma_abs_square(a: int)
    by (nonlinear_arith)
    ensures
        a * a >= 0,
        abs_i(a) * abs_i(a) == a * a,
{
}

/// A value whose square is at most `c * c` has magnitude at most `c`.
pub proof fn lemma_abs_le_of_sq(a: int, c: int)
    by (nonlinear_arith)
    requires
        c >= 0,
        a * a <= c * c,
    ensures
        abs_i(a) <= c,
{
}

/// Magnitude bound for a product from bounds on its factors.
pub proof fn lemma_mul_bound(a: int, b: int, cap_a: int, cap_b: int)
    by (nonlinear_arith)
    requires
        abs_i(a) <= cap_a,
        abs_i(b) <= cap_b,
    ensures
        abs_i(a * b) <= cap_a * cap_b,
{
}

/// Integer square root, by binary search.
pub fn isqrt_u128(n: u128) -> (r: u64)
    ensures
        is_sqrt(n as int, r as int),
{
    let mut lo: u64 = 0;
    let mut hi: u64 = u64::MAX;
    proof {
        assert((hi as int + 1) * (hi as int + 1) > u128::MAX as int) by (nonlinear_arith)
            requires
                hi == u64::MAX,
        ;
    }
    while lo < hi
        invariant
            lo <= hi,
            (lo as int) * (lo as int) <= n as int,
            (n as int) < (hi as int + 1) * (hi as int + 1),
        decreases hi - lo,
    {
        let mid: u64 = ((lo as u128 + hi as u128 + 1) / 2) as u64;
        assert(lo < mid <= hi);
        proof {
            assert((mid as int) * (mid as int) <= u128::MAX as int) by (nonlinear_arith)
                requires
                    mid <= u64::MAX,
            ;
        }
        if (mid as u128) * (mid as u128) <= n {
            lo = mid;
        } else {
            hi = mid - 1;
        }
    }
    lo
}

/// Quotient rounded toward zero for `i128` operands.
pub fn div_i128(a: i128, d: i128) -> (r: i128)
    requires
        d > 0,
        a != i128::MIN,
    ensures
        r as int == tdiv(a as int, d as int),
        abs_i(r as int) <= abs_i(a as int),
{
    proof {
        assert(abs_i(a as int) / (d as int) <= abs_i(a as int)) by (nonlinear_arith)
            requires
                d > 0,
        ;
    }
    if a >= 0 {
        (((a as u128) / (d as u128)) as i128)
    } else {
        let q: u128 = ((-a) as u128) / (d as u128);
        -(q as i128)
    }
}

} // verus!
