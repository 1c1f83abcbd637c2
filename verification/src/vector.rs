//! Points and displacements of the plane.

use vstd::prelude::*;
use crate::fixed::{
    fine_root, fine_sqrt, is_root, lemma_product_magnitude, lemma_root_exists,
    lemma_root_unique, lemma_square_monotonic, lemma_square_of_magnitude, magnitude, near,
    product, COORD_LIMIT, FINE, FINE_SQUARED, SCALE,
};

verus! {

/// A point or displacement of the plane with whole-number coordinates, in
/// units: what a `Vector` stands for.
pub ghost struct Point {
    pub x: int,
    pub y: int,
}

impl Point {
    /// The displacement from `other` to `self`.
    pub open spec fn minus(self, other: Point) -> Point {
        Point { x: self.x - other.x, y: self.y - other.y }
    }

    /// `self` moved by `other`.
    pub open spec fn plus(self, other: Point) -> Point {
        Point { x: self.x + other.x, y: self.y + other.y }
    }

    /// `self` taken `n` times.
    pub open spec fn times(self, n: int) -> Point {
        Point { x: self.x * n, y: self.y * n }
    }

    /// `self` stretched by the fixed-point factor `k`.
    pub open spec fn scaled(self, k: int) -> Point {
        Point { x: product(self.x, k), y: product(self.y, k) }
    }

    /// The square of the Euclidean length.
    pub open spec fn norm_squared(self) -> nat {
        (self.x * self.x + self.y * self.y) as nat
    }

    /// The Euclidean length, in fine units and rounded down to one.
    pub open spec fn norm(self) -> nat {
        fine_root(self.norm_squared())
    }

    /// The inner product with `other`.
    pub open spec fn dot(self, other: Point) -> int {
        self.x * other.x + self.y * other.y
    }

    /// The cross product with `other`: zero when the two are parallel.
    pub open spec fn cross(self, other: Point) -> int {
        self.x * other.y - self.y * other.x
    }

    /// Both coordinates lie within the coordinate limit.
    pub open spec fn in_range(self) -> bool {
        &&& -COORD_LIMIT <= self.x <= COORD_LIMIT
        &&& -COORD_LIMIT <= self.y <= COORD_LIMIT
    }

    /// Both coordinates fit the machine representation.
    pub open spec fn representable(self) -> bool {
        &&& i64::MIN <= self.x <= i64::MAX
        &&& i64::MIN <= self.y <= i64::MAX
    }
}

/// A point or displacement of the plane. Its coordinates are fixed-point
/// numbers: whole numbers of units, `SCALE` of which make a cell.
#[derive(Copy, Clone, Debug, PartialEq, Eq, Structural)]
pub struct Vector {
    pub x: i64,
    pub y: i64,
}

impl View for Vector {
    type V = Point;

    open spec fn view(&self) -> Point {
        Point { x: self.x as int, y: self.y as int }
    }
}

/// The points that a sequence of vectors stands for.
pub open spec fn points(vectors: Seq<Vector>) -> Seq<Point> {
    vectors.map_values(|v: Vector| v@)
}

/// Every point of the path lies within the coordinate limit.
pub open spec fn all_in_range(path: Seq<Point>) -> bool {
    forall|i: int| 0 <= i < path.len() ==> (#[trigger] path[i]).in_range()
}

/// The product of two fixed-point scalars, rounded towards zero.
fn multiply(x: i64, k: i64) -> (rounded: i64)
    requires
        i64::MIN <= product(x as int, k as int) <= i64::MAX,
    ensures
        rounded == product(x as int, k as int),
{
    assert(-0x8000_0000_0000_0000 * 0x8000_0000_0000_0000 <= x * k <= 0x8000_0000_0000_0000
        * 0x8000_0000_0000_0000) by (nonlinear_arith)
        requires
            -0x8000_0000_0000_0000 <= x <= 0x8000_0000_0000_0000,
            -0x8000_0000_0000_0000 <= k <= 0x8000_0000_0000_0000,
    ;
    let whole: i128 = (x as i128) * (k as i128);
    let quotient: i128 = whole / (SCALE as i128);
    quotient as i64
}

impl Vector {
    /// The vector with the given coordinates, in units.
    pub fn new(x: i64, y: i64) -> (vector: Vector)
        ensures
            vector.x == x,
            vector.y == y,
    {
        Vector { x, y }
    }

    /// Tells whether both coordinates lie within the coordinate limit.
    pub fn is_in_range(&self) -> (within: bool)
        ensures
            within == self@.in_range(),
    {
        -COORD_LIMIT <= self.x && self.x <= COORD_LIMIT && -COORD_LIMIT <= self.y && self.y
            <= COORD_LIMIT
    }

    /// The displacement from `other` to `self`.
    pub fn subtract(&self, other: &Vector) -> (difference: Vector)
        requires
            self@.minus(other@).representable(),
        ensures
            difference@ == self@.minus(other@),
    {
        Vector::new(self.x - other.x, self.y - other.y)
    }

    /// `self` stretched by the fixed-point factor `number`, each coordinate
    /// rounded towards zero.
    pub fn scale_by(&self, number: i64) -> (scaled: Vector)
        requires
            self@.scaled(number as int).representable(),
        ensures
            scaled@ == self@.scaled(number as int),
    {
        Vector::new(multiply(self.x, number), multiply(self.y, number))
    }

    /// The Euclidean length, in fine units and rounded down to one.
    pub fn lenght(&self) -> (length: u128)
        ensures
            length == self@.norm(),
    {
        let x = self.x as i128;
        let y = self.y as i128;
        assert(0 <= x * x <= 0x8000_0000_0000_0000 * 0x8000_0000_0000_0000) by (nonlinear_arith)
            requires
                -0x8000_0000_0000_0000 <= x <= 0x8000_0000_0000_0000,
        ;
        assert(0 <= y * y <= 0x8000_0000_0000_0000 * 0x8000_0000_0000_0000) by (nonlinear_arith)
            requires
                -0x8000_0000_0000_0000 <= y <= 0x8000_0000_0000_0000,
        ;
        fine_sqrt((x * x) as u128 + (y * y) as u128)
    }
}

/// Tells whether every vector lies within the coordinate limit.
pub fn are_in_range(vectors: &[Vector]) -> (within: bool)
    ensures
        within == all_in_range(points(vectors@)),
{
    let mut index: usize = 0;
    while index < vectors.len()
        invariant
            index <= vectors@.len(),
            forall|i: int| 0 <= i < index ==> (#[trigger] points(vectors@)[i]).in_range(),
        decreases vectors@.len() - index,
    {
        if !vectors[index].is_in_range() {
            assert(!points(vectors@)[index as int].in_range());
            return false;
        }
        index += 1;
    }
    true
}

/// A vector subtracted from itself has length zero.
pub proof fn lemma_self_difference_has_no_length(a: Point)
    ensures
        a.minus(a).norm() == 0,
{
    let zero = a.minus(a);
    assert(zero.norm_squared() * FINE_SQUARED == 0) by (nonlinear_arith)
        requires
            zero.x == 0,
            zero.y == 0,
            zero.norm_squared() == (zero.x * zero.x + zero.y * zero.y) as nat,
    ;
    assert(is_root(0, 0)) by (nonlinear_arith);
    lemma_root_unique(0, 0);
}

/// A point that lies at least `m` from the origin, moved towards each axis
/// by less than `s`, still lies at least `m - 2 * s` from the origin.
proof fn lemma_shrunk_corner(a: int, b: int, s: int, m: int, x: int, y: int)
    requires
        0 <= a,
        0 <= b,
        0 < s,
        2 * s <= m,
        m * m <= a * a + b * b,
        0 <= x,
        0 <= y,
        a - s < x,
        b - s < y,
    ensures
        (m - 2 * s) * (m - 2 * s) <= x * x + y * y,
{
    if a <= s {
        // then b is within s of m, and y alone carries the bound
        assert(b >= m - s) by (nonlinear_arith)
            requires
                0 <= a <= s,
                0 <= b,
                0 < s,
                2 * s <= m,
                m * m <= a * a + b * b,
        ;
        assert((m - 2 * s) * (m - 2 * s) <= y * y) by (nonlinear_arith)
            requires
                0 <= m - 2 * s <= y,
        ;
        assert(0 <= x * x) by (nonlinear_arith);
    } else if b <= s {
        assert(a >= m - s) by (nonlinear_arith)
            requires
                0 <= b <= s,
                0 <= a,
                0 < s,
                2 * s <= m,
                m * m <= a * a + b * b,
        ;
        assert((m - 2 * s) * (m - 2 * s) <= x * x) by (nonlinear_arith)
            requires
                0 <= m - 2 * s <= x,
        ;
        assert(0 <= y * y) by (nonlinear_arith);
    } else {
        let aa = a * a;
        let bb = b * b;
        let mm = m * m;
        let ss = s * s;
        let sa = s * a;
        let sb = s * b;
        let sm = s * m;
        let d = aa + bb - mm;
        let r = d + 4 * sm - 2 * ss;
        let t = sa + sb;
        assert(t == s * (a + b) && sa >= 0 && sb >= 0) by (nonlinear_arith)
            requires
                t == sa + sb,
                sa == s * a,
                sb == s * b,
                0 < s,
                0 <= a,
                0 <= b,
        ;
        // (a + b)^2 <= 2 (a^2 + b^2), multiplied by 4 s^2
        assert(4 * (t * t) <= 8 * (ss * (d + mm))) by (nonlinear_arith)
            requires
                t == s * (a + b),
                ss == s * s,
                d + mm == a * a + b * b,
        ;
        // while r^2 exceeds 8 s^2 (d + m^2)
        assert(r * r > 8 * (ss * (d + mm)) && r > 0) by (nonlinear_arith)
            requires
                r == d + 4 * sm - 2 * ss,
                sm == s * m,
                ss == s * s,
                mm == m * m,
                0 <= d,
                0 < s,
                2 * s <= m,
        ;
        assert(2 * t <= r) by (nonlinear_arith)
            requires
                4 * (t * t) < r * r,
                r > 0,
                0 <= t,
        ;
        assert((a - s) * (a - s) == aa - 2 * sa + ss) by (nonlinear_arith)
            requires
                aa == a * a,
                sa == s * a,
                ss == s * s,
        ;
        assert((b - s) * (b - s) == bb - 2 * sb + ss) by (nonlinear_arith)
            requires
                bb == b * b,
                sb == s * b,
                ss == s * s,
        ;
        assert((m - 2 * s) * (m - 2 * s) == mm - 4 * sm + 4 * ss) by (nonlinear_arith)
            requires
                mm == m * m,
                sm == s * m,
                ss == s * s,
        ;
        assert((a - s) * (a - s) + (b - s) * (b - s) >= (m - 2 * s) * (m - 2 * s));
        assert((a - s) * (a - s) <= x * x) by (nonlinear_arith)
            requires
                0 < a - s < x,
        ;
        assert((b - s) * (b - s) <= y * y) by (nonlinear_arith)
            requires
                0 < b - s < y,
        ;
    }
}

/// Scaling a difference of two vectors scales its length, up to the
/// tolerance, whatever the vectors and for every factor that fits the machine
/// representation. In general the length of the scaled difference lies
/// between the product of the factor's magnitude with the length less two
/// units, and that product plus one fine unit for each whole cell of the
/// factor's magnitude and one more.
pub proof fn lemma_scaling_scales_length(a: Point, b: Point, k: int)
    ensures
        ({
            let difference = a.minus(b);
            let scaled = difference.scaled(k).norm();
            let expected = product(magnitude(k) as int, difference.norm() as int);
            &&& expected - 2 * FINE <= scaled <= expected + magnitude(k) / (SCALE as nat) + 1
            &&& i64::MIN <= k <= i64::MAX ==> near(scaled, expected as nat)
        }),
{
    let v = a.minus(b);
    let w = v.scaled(k);
    let s = SCALE as int;
    let f = FINE as int;
    let fs = FINE_SQUARED as int;
    let big_k = magnitude(k) as int;
    // the squared lengths, in fine units
    let n = v.norm_squared() * fs;
    let nw = w.norm_squared() * fs;
    let l = v.norm() as int;
    let lw = w.norm() as int;
    let x = magnitude(w.x) as int;
    let y = magnitude(w.y) as int;
    let ax = magnitude(v.x) * magnitude(k);
    let ay = magnitude(v.y) * magnitude(k);
    let m = big_k * l;
    let e = product(big_k, l);
    lemma_root_exists(v.norm_squared() * FINE_SQUARED as nat);
    lemma_root_exists(w.norm_squared() * FINE_SQUARED as nat);
    lemma_product_magnitude(v.x, k);
    lemma_product_magnitude(v.y, k);
    lemma_square_of_magnitude(v.x);
    lemma_square_of_magnitude(v.y);
    lemma_square_of_magnitude(w.x);
    lemma_square_of_magnitude(w.y);
    assert(nw == (x * x + y * y) * fs);
    assert(fs * (ax * ax + ay * ay) == big_k * big_k * n) by (nonlinear_arith)
        requires
            ax == magnitude(v.x) * big_k,
            ay == magnitude(v.y) * big_k,
            n == (v.x * v.x + v.y * v.y) * fs,
            magnitude(v.x) * magnitude(v.x) == v.x * v.x,
            magnitude(v.y) * magnitude(v.y) == v.y * v.y,
    ;
    assert(0 <= m) by (nonlinear_arith)
        requires
            m == big_k * l,
            0 <= big_k,
            0 <= l,
    ;
    assert(e == m / s);
    // the upper bound
    assert((s * x) * (s * x) + (s * y) * (s * y) <= ax * ax + ay * ay) by (nonlinear_arith)
        requires
            0 <= x * s <= ax,
            0 <= y * s <= ay,
    ;
    assert((s * lw) * (s * lw) <= fs * ((s * x) * (s * x) + (s * y) * (s * y)))
        by (nonlinear_arith)
        requires
            lw * lw <= (x * x + y * y) * fs,
    ;
    assert((s * lw) * (s * lw) <= big_k * big_k * n) by (nonlinear_arith)
        requires
            (s * lw) * (s * lw) <= fs * ((s * x) * (s * x) + (s * y) * (s * y)),
            (s * x) * (s * x) + (s * y) * (s * y) <= ax * ax + ay * ay,
            fs * (ax * ax + ay * ay) == big_k * big_k * n,
            fs > 0,
    ;
    if big_k > 0 {
        assert(big_k * big_k * n < (big_k * (l + 1)) * (big_k * (l + 1))) by (nonlinear_arith)
            requires
                n < (l + 1) * (l + 1),
                0 < big_k,
        ;
        assert(0 <= s * lw) by (nonlinear_arith)
            requires
                0 <= lw,
                s > 0,
        ;
        assert(0 <= big_k * (l + 1)) by (nonlinear_arith)
            requires
                0 <= l,
                0 < big_k,
        ;
        lemma_square_monotonic((s * lw) as nat, (big_k * (l + 1)) as nat);
        assert(big_k * (l + 1) == m + big_k) by (nonlinear_arith)
            requires
                m == big_k * l,
        ;
        assert(lw <= e + big_k / s + 1);
    } else {
        assert(ax == 0 && ay == 0) by (nonlinear_arith)
            requires
                ax == magnitude(v.x) * magnitude(k),
                ay == magnitude(v.y) * magnitude(k),
                magnitude(k) == 0,
        ;
        assert(x == 0 && y == 0);
        assert(nw == 0) by (nonlinear_arith)
            requires
                nw == (x * x + y * y) * fs,
                x == 0,
                y == 0,
        ;
        assert(lw == 0) by (nonlinear_arith)
            requires
                lw * lw <= 0,
        ;
    }
    // the lower bound
    if m >= 2 * (f * s) {
        assert(m * m <= (f * ax) * (f * ax) + (f * ay) * (f * ay)) by (nonlinear_arith)
            requires
                m == big_k * l,
                l * l <= n,
                0 <= big_k,
                fs * (ax * ax + ay * ay) == big_k * big_k * n,
                fs == f * f,
        ;
        assert(0 <= f * ax && 0 <= f * ay && f * ax - f * s < f * (s * x) && f * ay - f * s < f
            * (s * y) && 0 <= f * (s * x) && 0 <= f * (s * y)) by (nonlinear_arith)
            requires
                f > 0,
                s > 0,
                0 <= x,
                0 <= y,
                0 <= ax < (x + 1) * s,
                0 <= ay < (y + 1) * s,
        ;
        lemma_shrunk_corner(f * ax, f * ay, f * s, m, f * (s * x), f * (s * y));
        let sx = s * x;
        let sy = s * y;
        let q = (x * x + y * y) * fs;
        assert((f * sx) * (f * sx) == (f * f) * (sx * sx) && (f * sy) * (f * sy) == (f * f) * (sy
            * sy)) by (nonlinear_arith);
        assert(sx * sx == (s * s) * (x * x) && sy * sy == (s * s) * (y * y)) by (nonlinear_arith)
            requires
                sx == s * x,
                sy == s * y,
        ;
        assert((f * sx) * (f * sx) + (f * sy) * (f * sy) == (s * s) * q) by (nonlinear_arith)
            requires
                (f * sx) * (f * sx) == fs * (sx * sx),
                (f * sy) * (f * sy) == fs * (sy * sy),
                sx * sx == (s * s) * (x * x),
                sy * sy == (s * s) * (y * y),
                q == (x * x + y * y) * fs,
        ;
        assert((s * s) * q < (s * (lw + 1)) * (s * (lw + 1))) by (nonlinear_arith)
            requires
                q < (lw + 1) * (lw + 1),
                s > 0,
        ;
        lemma_square_monotonic((m - 2 * (f * s)) as nat, (s * (lw + 1)) as nat);
        assert(e <= lw + 2 * f);
    }
}

} // verus!
