//! Fixed-point scalars.
//!
//! A coordinate, a speed and a scaling factor are whole numbers of units,
//! `SCALE` units making one grid cell. A length is a whole number of fine
//! units, `FINE` of which make a unit: a length is a square root, and the
//! rounding of a root grows with every factor that the length is multiplied
//! by, so lengths keep eight more digits than coordinates. Arithmetic is
//! exact integer arithmetic; only products of two scalars and square roots
//! round, and they round towards zero.

use vstd::prelude::*;

verus! {

/// Units per grid cell.
pub const SCALE: i64 = 1_000_000_000;

/// Half a grid cell, in units.
pub const HALF_CELL: i64 = 500_000_000;

/// Fine units per unit: the grain of lengths.
pub const FINE: u128 = 100_000_000;

/// The square of `FINE`.
pub const FINE_SQUARED: u128 = 10_000_000_000_000_000;

/// The tolerance below which two lengths count as equal: a ten-millionth of a
/// cell, in fine units.
pub const EPSILON: u128 = 10_000_000_000;

/// The largest magnitude of a coordinate that the occupancy test is run on:
/// four thousand million cells. Any two coordinates within it differ by a
/// value that fits an `i64`, and every cell centre of a board lies within it.
pub const COORD_LIMIT: i64 = 4_000_000_000_000_000_000;

/// `r` is the square root of `n`, rounded down.
pub open spec fn is_root(n: nat, r: nat) -> bool {
    r * r <= n < (r + 1) * (r + 1)
}

/// The square root of `n`, rounded down to a whole number.
pub open spec fn isqrt(n: nat) -> nat {
    choose|r: nat| is_root(n, r)
}

/// The square root of `n`, in fine units and rounded down to one.
pub open spec fn fine_root(n: nat) -> nat {
    isqrt(n * FINE_SQUARED as nat)
}

/// Two lengths differ by less than the tolerance.
pub open spec fn near(one: nat, another: nat) -> bool {
    -(EPSILON as int) < one - another < EPSILON as int
}

/// The absolute value.
pub open spec fn magnitude(x: int) -> nat {
    if x >= 0 {
        x as nat
    } else {
        (-x) as nat
    }
}

/// The product of two fixed-point scalars, rounded towards zero.
pub open spec fn product(x: int, k: int) -> int {
    if x * k >= 0 {
        (x * k) / (SCALE as int)
    } else {
        -((-(x * k)) / (SCALE as int))
    }
}

/// Squares grow with their roots.
pub proof fn lemma_square_monotonic(a: nat, b: nat)
    ensures
        a <= b ==> a * a <= b * b,
        a < b ==> a * a < b * b,
        a * a <= b * b ==> a <= b,
        a * a < b * b ==> a < b,
{
    assert(a <= b ==> a * a <= b * b) by (nonlinear_arith);
    assert(a < b ==> a * a < b * b) by (nonlinear_arith);
    assert(b < a ==> b * b < a * a) by (nonlinear_arith);
    assert(b <= a ==> b * b <= a * a) by (nonlinear_arith);
}

/// Every natural number has a rounded-down square root.
pub proof fn lemma_root_exists(n: nat)
    ensures
        is_root(n, isqrt(n)),
    decreases n,
{
    if n == 0 {
        assert(is_root(0, 0)) by (nonlinear_arith);
    } else {
        lemma_root_exists((n - 1) as nat);
        let r = isqrt((n - 1) as nat);
        if (r + 1) * (r + 1) <= n {
            assert((r + 2) * (r + 2) > (r + 1) * (r + 1)) by (nonlinear_arith);
            assert(is_root(n, r + 1));
        } else {
            assert(is_root(n, r));
        }
    }
}

/// The rounded-down square root is the only number between whose square and
/// whose successor's square `n` lies.
pub proof fn lemma_root_unique(n: nat, r: nat)
    requires
        is_root(n, r),
    ensures
        isqrt(n) == r,
{
    let q = isqrt(n);
    lemma_square_monotonic(q, r + 1);
    lemma_square_monotonic(r, q + 1);
}

/// A number whose square does not exceed `n` does not exceed the root of `n`;
/// one whose square exceeds `n` exceeds the root.
pub proof fn lemma_root_bounds(n: nat, m: nat)
    ensures
        m * m <= n ==> m <= isqrt(n),
        n < m * m ==> isqrt(n) < m,
{
    lemma_root_exists(n);
    let r = isqrt(n);
    lemma_square_monotonic(m, r + 1);
    lemma_square_monotonic(r, m);
}

/// A number and its magnitude have the same square.
pub proof fn lemma_square_of_magnitude(x: int)
    ensures
        magnitude(x) * magnitude(x) == x * x,
        0 <= x * x,
{
    assert(magnitude(x) * magnitude(x) == x * x && 0 <= x * x) by (nonlinear_arith)
        requires
            magnitude(x) == x || magnitude(x) == -x,
    ;
}

/// The magnitude of a rounded product is the product of the magnitudes,
/// divided by the scale and rounded down.
pub proof fn lemma_product_magnitude(x: int, k: int)
    ensures
        magnitude(product(x, k)) * SCALE <= magnitude(x) * magnitude(k),
        magnitude(x) * magnitude(k) < (magnitude(product(x, k)) + 1) * SCALE,
        product(x, k) * product(x, k) == magnitude(product(x, k)) * magnitude(product(x, k)),
{
    let p = x * k;
    assert(magnitude(p) == magnitude(x) * magnitude(k)) by (nonlinear_arith)
        requires
            p == x * k,
    ;
    lemma_square_of_magnitude(product(x, k));
}

/// The square root of `n`, rounded down.
pub fn integer_sqrt(n: u128) -> (root: u64)
    ensures
        root == isqrt(n as nat),
{
    let mut low: u128 = 0;
    let mut high: u128 = 0x1_0000_0000_0000_0000;
    while high - low > 1
        invariant
            low < high <= 0x1_0000_0000_0000_0000,
            low * low <= n < high * high,
        decreases high - low,
    {
        let middle: u128 = low + (high - low) / 2;
        assert(middle * middle <= 0xffff_ffff_ffff_ffff * 0xffff_ffff_ffff_ffff) by (nonlinear_arith)
            requires
                0 <= middle <= 0xffff_ffff_ffff_ffff,
        ;
        if middle * middle <= n {
            low = middle;
        } else {
            high = middle;
        }
    }
    proof {
        lemma_root_unique(n as nat, low as nat);
    }
    low as u64
}

/// The square root of `n`, in fine units and rounded down to one.
pub fn fine_sqrt(n: u128) -> (root: u128)
    ensures
        root == fine_root(n as nat),
{
    let whole: u128 = integer_sqrt(n) as u128;
    proof {
        lemma_root_exists(n as nat);
        assert(whole * whole <= n && n - whole * whole <= 2 * whole) by (nonlinear_arith)
            requires
                whole * whole <= n < (whole + 1) * (whole + 1),
        ;
    }
    let rest: u128 = (n - whole * whole) * FINE_SQUARED;
    // twice the whole root, in fine units
    let twice: u128 = 2 * whole * FINE;
    let mut low: u128 = 0;
    let mut high: u128 = FINE;
    proof {
        assert(rest < twice * FINE + FINE * FINE) by (nonlinear_arith)
            requires
                rest == (n - whole * whole) * 10_000_000_000_000_000,
                n - whole * whole <= 2 * whole,
                twice == 2 * whole * 100_000_000,
                FINE == 100_000_000,
        ;
    }
    while high - low > 1
        invariant
            low < high <= FINE,
            twice <= 0x2_0000_0000_0000_0000 * FINE,
            twice * low + low * low <= rest < twice * high + high * high,
        decreases high - low,
    {
        let middle: u128 = low + (high - low) / 2;
        assert(twice * middle + middle * middle <= 0x2_0000_0000_0000_0000 * 100_000_000
            * 100_000_000 + 100_000_000 * 100_000_000) by (nonlinear_arith)
            requires
                0 <= middle <= 100_000_000,
                0 <= twice <= 0x2_0000_0000_0000_0000 * 100_000_000,
        ;
        if twice * middle + middle * middle <= rest {
            low = middle;
        } else {
            high = middle;
        }
    }
    let root: u128 = whole * FINE + low;
    proof {
        let target = n as nat * FINE_SQUARED as nat;
        assert(is_root(target, root as nat)) by (nonlinear_arith)
            requires
                root == whole * 100_000_000 + low,
                twice == 2 * whole * 100_000_000,
                high == low + 1,
                twice * low + low * low <= rest < twice * high + high * high,
                rest == (n - whole * whole) * 10_000_000_000_000_000,
                whole * whole <= n,
                target == n * 10_000_000_000_000_000,
        ;
        lemma_root_unique(target, root as nat);
    }
    root
}

/// Tells whether two lengths are equal up to the tolerance.
pub fn are_equal(one: u128, another: u128) -> (equal: bool)
    ensures
        equal == near(one as nat, another as nat),
{
    if one >= another {
        one - another < EPSILON
    } else {
        another - one < EPSILON
    }
}

} // verus!
