//! Directed line segments and the test that tells whether a point lies on one.

use vstd::prelude::*;
use crate::fixed::{
    are_equal, is_root, isqrt, lemma_root_bounds, lemma_root_exists, lemma_root_unique,
    lemma_square_monotonic, lemma_square_of_magnitude, magnitude, near, EPSILON, FINE,
    FINE_SQUARED, SCALE,
};
use crate::vector::{Point, Vector};

verus! {

/// The occupancy test: `point` lies on the closed segment from `start` to
/// `end`, which it does when the way from `start` over `point` to `end` is as
/// long as the direct way, up to the tolerance.
pub open spec fn contains(start: Point, end: Point, point: Point) -> bool {
    near(
        end.minus(start).norm(),
        point.minus(start).norm() + end.minus(point).norm(),
    )
}

/// `point` lies on the closed segment from `start` to `end` exactly: the ways
/// from `start` to `point` and from `point` to `end` are parallel and point
/// the same way.
pub open spec fn between(start: Point, end: Point, point: Point) -> bool {
    &&& point.minus(start).cross(end.minus(point)) == 0
    &&& point.minus(start).dot(end.minus(point)) >= 0
}

/// The two points lie a whole number of cells apart along each axis, as the
/// centres of any two cells do.
pub open spec fn whole_cells_apart(one: Point, another: Point) -> bool {
    &&& (one.x - another.x) % (SCALE as int) == 0
    &&& (one.y - another.y) % (SCALE as int) == 0
}

/// The directed line between two points that live elsewhere.
pub struct Segment<'a> {
    pub start: &'a Vector,
    pub end: &'a Vector,
}

impl<'a> Segment<'a> {
    /// The displacement from the start to the end.
    pub open spec fn span(&self) -> Point {
        self.end@.minus(self.start@)
    }

    /// The displacement from the start to the end fits a `Vector`.
    pub open spec fn measurable(&self) -> bool {
        self.span().representable()
    }

    /// The segment from `start` to `end`.
    pub fn new(start: &'a Vector, end: &'a Vector) -> (segment: Segment<'a>)
        ensures
            segment.start == start,
            segment.end == end,
    {
        Segment { start, end }
    }

    /// The displacement from the start to the end.
    pub fn get_vector(&self) -> (vector: Vector)
        requires
            self.measurable(),
        ensures
            vector@ == self.span(),
    {
        self.end.subtract(self.start)
    }

    /// The length of the segment, in fine units and rounded down to one.
    pub fn lenght(&self) -> (length: u128)
        requires
            self.measurable(),
        ensures
            length == self.span().norm(),
    {
        self.get_vector().lenght()
    }

    /// Tells whether `point` lies on the segment: whether the way from the
    /// start over `point` to the end is as long as the segment, up to the
    /// tolerance.
    pub fn is_point_inside(&self, point: &Vector) -> (inside: bool)
        requires
            self.measurable(),
            point@.minus(self.start@).representable(),
            self.end@.minus(point@).representable(),
        ensures
            inside == contains(self.start@, self.end@, point@),
    {
        let first = Segment::new(self.start, point);
        let second = Segment::new(point, self.end);
        proof {
            lemma_length_limit(first.span());
            lemma_length_limit(second.span());
        }
        are_equal(self.lenght(), first.lenght() + second.lenght())
    }
}

/// A displacement that fits a `Vector` is shorter than the hundredth power
/// of two, in fine units.
proof fn lemma_length_limit(span: Point)
    requires
        span.representable(),
    ensures
        span.norm() < 0x1_0000_0000_0000_0000_0000_0000_0,
{
    let x = span.x;
    let y = span.y;
    assert(0 <= x * x <= 0x8000_0000_0000_0000 * 0x8000_0000_0000_0000) by (nonlinear_arith)
        requires
            -0x8000_0000_0000_0000 <= x <= 0x8000_0000_0000_0000,
    ;
    assert(0 <= y * y <= 0x8000_0000_0000_0000 * 0x8000_0000_0000_0000) by (nonlinear_arith)
        requires
            -0x8000_0000_0000_0000 <= y <= 0x8000_0000_0000_0000,
    ;
    assert(0x1_0000_0000_0000_0000_0000_0000_0 * 0x1_0000_0000_0000_0000_0000_0000_0 > 2 * (
    0x8000_0000_0000_0000 * 0x8000_0000_0000_0000) * 10_000_000_000_000_000) by (nonlinear_arith);
    lemma_root_bounds(
        span.norm_squared() * FINE_SQUARED as nat,
        0x1_0000_0000_0000_0000_0000_0000_0,
    );
}

/// The segments between consecutive points of a path, in path order: one
/// fewer than there are points, and none for a path of fewer than two points.
pub fn get_segments_from_vectors<'a>(vectors: &'a [Vector]) -> (segments: Vec<Segment<'a>>)
    ensures
        vectors@.len() < 2 ==> segments@.len() == 0,
        vectors@.len() >= 2 ==> segments@.len() == vectors@.len() - 1,
        forall|i: int|
            0 <= i < segments@.len() ==> *(#[trigger] segments@[i]).start == vectors@[i]
                && *segments@[i].end == vectors@[i + 1],
{
    let mut segments: Vec<Segment<'a>> = Vec::new();
    let mut index: usize = 1;
    while index < vectors.len()
        invariant
            1 <= index,
            index <= vectors@.len() || index == 1,
            segments@.len() == index - 1,
            forall|i: int|
                0 <= i < segments@.len() ==> *(#[trigger] segments@[i]).start == vectors@[i]
                    && *segments@[i].end == vectors@[i + 1],
        decreases vectors@.len() - index,
    {
        segments.push(Segment::new(&vectors[index - 1], &vectors[index]));
        index += 1;
    }
    segments
}

/// How far `value` lies outside the interval between `one` and `another`:
/// zero inside it.
pub open spec fn outside_by(one: int, another: int, value: int) -> nat {
    let low = if one <= another { one } else { another };
    let high = if one <= another { another } else { one };
    if value < low {
        (low - value) as nat
    } else if value > high {
        (value - high) as nat
    } else {
        0
    }
}

/// The square of a lower bound on the way from `start` over `point` to
/// `end`: the length of the direct way, stretched along each axis by twice
/// the distance by which `point` lies outside the bounding box.
pub open spec fn least_detour_squared(start: Point, end: Point, point: Point) -> nat {
    let wide = magnitude(end.x - start.x) + 2 * outside_by(start.x, end.x, point.x);
    let high = magnitude(end.y - start.y) + 2 * outside_by(start.y, end.y, point.y);
    wide * wide + high * high
}

/// The roots of two numbers add up to more than the root of their sum
/// augmented by twice `g`, less two, when the square of `g` does not exceed
/// their product.
proof fn lemma_roots_sum_above(a: nat, b: nat, g: int)
    requires
        g * g <= a * b,
    ensures
        a + b + 2 * g < (isqrt(a) + isqrt(b) + 2) * (isqrt(a) + isqrt(b) + 2),
{
    lemma_root_exists(a);
    lemma_root_exists(b);
    let p = isqrt(a) as int + 1;
    let q = isqrt(b) as int + 1;
    let pq = p * q;
    assert(a * b < pq * pq) by (nonlinear_arith)
        requires
            a < p * p,
            b < q * q,
            0 < p,
            0 < q,
            pq == p * q,
    ;
    assert(0 < pq) by (nonlinear_arith)
        requires
            pq == p * q,
            0 < p,
            0 < q,
    ;
    assert(g < pq) by (nonlinear_arith)
        requires
            g * g < pq * pq,
            0 < pq,
    ;
    assert((p + q) * (p + q) == p * p + q * q + 2 * pq) by (nonlinear_arith)
        requires
            pq == p * q,
    ;
}

/// The roots of two numbers add up to no more than the root of their sum
/// augmented by twice `g`, when the square of `g` is at least their product.
proof fn lemma_roots_sum_below(a: nat, b: nat, g: int)
    requires
        0 <= g,
        a * b <= g * g,
    ensures
        (isqrt(a) + isqrt(b)) * (isqrt(a) + isqrt(b)) <= a + b + 2 * g,
{
    lemma_root_exists(a);
    lemma_root_exists(b);
    let p = isqrt(a) as int;
    let q = isqrt(b) as int;
    let pq = p * q;
    assert(pq * pq <= a * b && 0 <= pq) by (nonlinear_arith)
        requires
            p * p <= a,
            q * q <= b,
            0 <= p,
            0 <= q,
            pq == p * q,
    ;
    assert(pq <= g) by (nonlinear_arith)
        requires
            pq * pq <= g * g,
            0 <= g,
            0 <= pq,
    ;
    assert((p + q) * (p + q) == p * p + q * q + 2 * pq) by (nonlinear_arith)
        requires
            pq == p * q,
    ;
}

/// The squared lengths of two displacements multiply to the sum of the
/// squares of their inner and cross products, and the squared length of
/// their sum exceeds the sum of theirs by twice the inner product.
proof fn lemma_products(a: Point, b: Point)
    ensures
        a.norm_squared() * b.norm_squared() == a.dot(b) * a.dot(b) + a.cross(b) * a.cross(b),
        a.plus(b).norm_squared() == a.norm_squared() + b.norm_squared() + 2 * a.dot(b),
{
    lemma_square_of_magnitude(a.x);
    lemma_square_of_magnitude(a.y);
    lemma_square_of_magnitude(b.x);
    lemma_square_of_magnitude(b.y);
    lemma_square_of_magnitude(a.x + b.x);
    lemma_square_of_magnitude(a.y + b.y);
    let (ax, ay, bx, by) = (a.x, a.y, b.x, b.y);
    let (xx, yy, uu, vv) = (ax * ax, ay * ay, bx * bx, by * by);
    let (xu, yv, xv, yu) = (ax * bx, ay * by, ax * by, ay * bx);
    assert(xu * xu == xx * uu && yv * yv == yy * vv && xv * xv == xx * vv && yu * yu == yy * uu
        && xu * yv == xv * yu) by (nonlinear_arith)
        requires
            xx == ax * ax,
            yy == ay * ay,
            uu == bx * bx,
            vv == by * by,
            xu == ax * bx,
            yv == ay * by,
            xv == ax * by,
            yu == ay * bx,
    ;
    assert((xx + yy) * (uu + vv) == xx * uu + xx * vv + yy * uu + yy * vv) by (nonlinear_arith);
    assert((xu + yv) * (xu + yv) == xu * xu + 2 * (xu * yv) + yv * yv) by (nonlinear_arith);
    assert((xv - yu) * (xv - yu) == xv * xv - 2 * (xv * yu) + yu * yu) by (nonlinear_arith);
    assert((ax + bx) * (ax + bx) + (ay + by) * (ay + by) == (ax * ax + ay * ay) + (bx * bx + by
        * by) + 2 * (ax * bx + ay * by)) by (nonlinear_arith);
}

/// The lengths of two displacements add up to more than the length that
/// squares to the sum of their squares augmented by twice `g`, less two fine
/// units, when the square of `g` does not exceed the product of their squares.
proof fn lemma_norms_sum_above(a: Point, b: Point, g: int)
    requires
        g * g <= a.norm_squared() * b.norm_squared(),
    ensures
        (a.norm_squared() + b.norm_squared() + 2 * g) * FINE_SQUARED < (a.norm() + b.norm() + 2)
            * (a.norm() + b.norm() + 2),
{
    let fs = FINE_SQUARED as int;
    let (p, q) = (a.norm_squared() as int, b.norm_squared() as int);
    assert((g * fs) * (g * fs) <= (p * fs) * (q * fs)) by (nonlinear_arith)
        requires
            g * g <= p * q,
            fs > 0,
    ;
    assert((p + q + 2 * g) * fs == p * fs + q * fs + 2 * (g * fs)) by (nonlinear_arith);
    lemma_roots_sum_above((p * fs) as nat, (q * fs) as nat, g * fs);
}

/// The lengths of two displacements add up to no more than the length that
/// squares to the sum of their squares augmented by twice `g`, when the
/// square of `g` is at least the product of their squares.
proof fn lemma_norms_sum_below(a: Point, b: Point, g: int)
    requires
        0 <= g,
        a.norm_squared() * b.norm_squared() <= g * g,
    ensures
        (a.norm() + b.norm()) * (a.norm() + b.norm()) <= (a.norm_squared() + b.norm_squared() + 2
            * g) * FINE_SQUARED,
{
    let fs = FINE_SQUARED as int;
    let (p, q) = (a.norm_squared() as int, b.norm_squared() as int);
    assert((p * fs) * (q * fs) <= (g * fs) * (g * fs) && 0 <= g * fs) by (nonlinear_arith)
        requires
            p * q <= g * g,
            0 <= g,
            fs > 0,
    ;
    assert((p + q + 2 * g) * fs == p * fs + q * fs + 2 * (g * fs)) by (nonlinear_arith);
    lemma_roots_sum_below((p * fs) as nat, (q * fs) as nat, g * fs);
}

/// The way over a point is never shorter than the direct way, but for the
/// rounding: less than two fine units.
pub proof fn lemma_detour_is_no_shorter(start: Point, end: Point, point: Point)
    ensures
        end.minus(start).norm() < point.minus(start).norm() + end.minus(point).norm() + 2,
{
    let a = point.minus(start);
    let b = end.minus(point);
    let c = end.minus(start);
    lemma_products(a, b);
    lemma_square_of_magnitude(a.cross(b));
    assert(c == a.plus(b));
    lemma_norms_sum_above(a, b, a.dot(b));
    lemma_root_bounds(c.norm_squared() * FINE_SQUARED as nat, a.norm() + b.norm() + 2);
}

/// A point of the closed segment passes the occupancy test.
pub proof fn lemma_point_between_is_inside(start: Point, end: Point, point: Point)
    requires
        between(start, end, point),
    ensures
        contains(start, end, point),
{
    let a = point.minus(start);
    let b = end.minus(point);
    let c = end.minus(start);
    lemma_products(a, b);
    assert(c == a.plus(b));
    lemma_detour_is_no_shorter(start, end, point);
    lemma_norms_sum_below(a, b, a.dot(b));
    lemma_root_bounds(c.norm_squared() * FINE_SQUARED as nat, a.norm() + b.norm());
}

/// Twice a displacement that differs from `c` by at most a unit along each
/// axis is at most two units longer than `c`.
proof fn lemma_half_reach(c: Point, d: Point, a: Point)
    requires
        2 * a.x == c.x + d.x,
        2 * a.y == c.y + d.y,
        -1 <= d.x <= 1,
        -1 <= d.y <= 1,
    ensures
        2 * a.norm() <= c.norm() + 2 * FINE,
{
    let f = FINE as int;
    let fs = FINE_SQUARED as int;
    let rc = c.norm() as int;
    let la = a.norm() as int;
    let t = c.dot(d);
    let big_c = c.norm_squared() as int;
    let big_d = d.norm_squared() as int;
    let big_a = a.norm_squared() as int;
    lemma_root_exists(c.norm_squared() * FINE_SQUARED as nat);
    lemma_root_exists(a.norm_squared() * FINE_SQUARED as nat);
    lemma_products(c, d);
    lemma_square_of_magnitude(c.cross(d));
    lemma_square_of_magnitude(a.x);
    lemma_square_of_magnitude(a.y);
    lemma_square_of_magnitude(c.x);
    lemma_square_of_magnitude(c.y);
    lemma_square_of_magnitude(d.x);
    lemma_square_of_magnitude(d.y);
    assert(0 <= big_d <= 2) by (nonlinear_arith)
        requires
            big_d == d.x * d.x + d.y * d.y,
            -1 <= d.x <= 1,
            -1 <= d.y <= 1,
    ;
    assert(4 * big_a == big_c + big_d + 2 * t) by (nonlinear_arith)
        requires
            2 * a.x == c.x + d.x,
            2 * a.y == c.y + d.y,
            big_a == a.x * a.x + a.y * a.y,
            big_c == c.x * c.x + c.y * c.y,
            big_d == d.x * d.x + d.y * d.y,
            t == c.x * d.x + c.y * d.y,
    ;
    // the inner product, in fine units, is below twice the length of `c`
    let ft = f * t;
    assert(ft * ft < (2 * (rc + 1)) * (2 * (rc + 1))) by (nonlinear_arith)
        requires
            ft == f * t,
            fs == f * f,
            t * t <= big_c * big_d,
            0 <= big_d <= 2,
            0 <= big_c,
            big_c * fs < (rc + 1) * (rc + 1),
            0 <= rc,
    ;
    assert(ft < 2 * (rc + 1)) by (nonlinear_arith)
        requires
            ft * ft < (2 * (rc + 1)) * (2 * (rc + 1)),
            0 <= rc,
    ;
    let reach = rc + 1 + 2 * f;
    assert(4 * (big_a * fs) < reach * reach) by (nonlinear_arith)
        requires
            4 * big_a == big_c + big_d + 2 * t,
            big_c * fs < (rc + 1) * (rc + 1),
            0 <= big_d <= 2,
            ft == f * t,
            fs == f * f,
            ft < 2 * (rc + 1),
            f > 0,
            0 <= rc,
            reach == rc + 1 + 2 * f,
    ;
    assert((2 * la) * (2 * la) < reach * reach) by (nonlinear_arith)
        requires
            la * la <= big_a * fs,
            4 * (big_a * fs) < reach * reach,
    ;
    lemma_square_monotonic((2 * la) as nat, reach as nat);
}

/// The midpoint of a segment passes the occupancy test, also where it is
/// rounded to a whole number of units along either axis.
pub proof fn lemma_midpoint_is_inside(start: Point, end: Point, point: Point)
    requires
        -1 <= 2 * point.x - (start.x + end.x) <= 1,
        -1 <= 2 * point.y - (start.y + end.y) <= 1,
    ensures
        contains(start, end, point),
{
    let a = point.minus(start);
    let b = end.minus(point);
    let c = end.minus(start);
    let d = Point { x: 2 * point.x - (start.x + end.x), y: 2 * point.y - (start.y + end.y) };
    let back = Point { x: -d.x, y: -d.y };
    lemma_half_reach(c, d, a);
    lemma_half_reach(c, back, b);
    lemma_detour_is_no_shorter(start, end, point);
}

/// A point so far outside the bounding box of a segment that even the least
/// detour over it is longer than the segment by more than the tolerance
/// fails the occupancy test.
pub proof fn lemma_point_beyond_box_is_outside(start: Point, end: Point, point: Point)
    requires
        least_detour_squared(start, end, point) * FINE_SQUARED >= (end.minus(start).norm()
            + EPSILON + 1) * (end.minus(start).norm() + EPSILON + 1),
    ensures
        !contains(start, end, point),
{
    let a = point.minus(start);
    let b = end.minus(point);
    let c = end.minus(start);
    let u = Point { x: magnitude(a.x) as int, y: magnitude(a.y) as int };
    let w = Point { x: magnitude(b.x) as int, y: magnitude(b.y) as int };
    let g = u.dot(w);
    lemma_square_of_magnitude(a.x);
    lemma_square_of_magnitude(a.y);
    lemma_square_of_magnitude(b.x);
    lemma_square_of_magnitude(b.y);
    assert(u.norm_squared() == a.norm_squared());
    assert(w.norm_squared() == b.norm_squared());
    lemma_products(u, w);
    lemma_square_of_magnitude(u.cross(w));
    lemma_norms_sum_above(u, w, g);
    assert(u.plus(w).x == magnitude(end.x - start.x) + 2 * outside_by(start.x, end.x, point.x));
    assert(u.plus(w).y == magnitude(end.y - start.y) + 2 * outside_by(start.y, end.y, point.y));
    lemma_square_of_magnitude(u.plus(w).x);
    lemma_square_of_magnitude(u.plus(w).y);
    assert(u.plus(w).norm_squared() == least_detour_squared(start, end, point));
    lemma_square_monotonic(a.norm() + b.norm() + 2, c.norm() + EPSILON as nat + 1);
}

/// A displacement along one axis is as long as the magnitude of its one
/// coordinate that is not zero.
proof fn lemma_axis_length(span: Point)
    requires
        span.x == 0 || span.y == 0,
    ensures
        span.norm() == (magnitude(span.x) + magnitude(span.y)) * FINE,
{
    let length = magnitude(span.x) + magnitude(span.y);
    let fine = length * FINE as nat;
    lemma_square_of_magnitude(span.x);
    lemma_square_of_magnitude(span.y);
    assert(span.norm_squared() * FINE_SQUARED == fine * fine) by (nonlinear_arith)
        requires
            span.norm_squared() == span.x * span.x + span.y * span.y,
            span.x == 0 || span.y == 0,
            length == magnitude(span.x) + magnitude(span.y),
            magnitude(span.x) * magnitude(span.x) == span.x * span.x,
            magnitude(span.y) * magnitude(span.y) == span.y * span.y,
            span.x == 0 ==> magnitude(span.x) == 0,
            span.y == 0 ==> magnitude(span.y) == 0,
            fine == length * 100_000_000,
            FINE_SQUARED == 10_000_000_000_000_000,
    ;
    assert(is_root(fine * fine, fine)) by (nonlinear_arith);
    lemma_root_unique(fine * fine, fine);
}

/// Beside a segment parallel to an axis, a point that lies beyond either end
/// by more than half the tolerance, measured along that axis, fails the
/// occupancy test.
pub proof fn lemma_point_past_the_ends_is_outside(start: Point, end: Point, point: Point)
    requires
        (start.y == end.y && 2 * outside_by(start.x, end.x, point.x) * FINE > EPSILON) || (start.x
            == end.x && 2 * outside_by(start.y, end.y, point.y) * FINE > EPSILON),
    ensures
        !contains(start, end, point),
{
    let c = end.minus(start);
    let wide = magnitude(c.x) + 2 * outside_by(start.x, end.x, point.x);
    let high = magnitude(c.y) + 2 * outside_by(start.y, end.y, point.y);
    let reach = c.norm() + EPSILON + 1;
    let least = least_detour_squared(start, end, point);
    let f = FINE as int;
    lemma_axis_length(c);
    if start.y == end.y && 2 * outside_by(start.x, end.x, point.x) * FINE > EPSILON {
        assert(reach * reach <= least * (f * f)) by (nonlinear_arith)
            requires
                0 <= reach <= wide * f,
                least == wide * wide + high * high,
        ;
    } else {
        assert(reach * reach <= least * (f * f)) by (nonlinear_arith)
            requires
                0 <= reach <= high * f,
                least == wide * wide + high * high,
        ;
    }
    assert(f * f == FINE_SQUARED) by (nonlinear_arith)
        requires
            f == 100_000_000,
            FINE_SQUARED == 10_000_000_000_000_000,
    ;
    lemma_point_beyond_box_is_outside(start, end, point);
}

/// Beside a segment parallel to an axis and no longer than ten million
/// cells, a point that lies a whole cell or more off the line of the segment
/// fails the occupancy test.
pub proof fn lemma_point_beside_is_outside(start: Point, end: Point, point: Point)
    requires
        (start.y == end.y && magnitude(end.x - start.x) <= 10_000_000 * SCALE && outside_by(
            start.y,
            end.y,
            point.y,
        ) >= SCALE) || (start.x == end.x && magnitude(end.y - start.y) <= 10_000_000 * SCALE
            && outside_by(start.x, end.x, point.x) >= SCALE),
    ensures
        !contains(start, end, point),
{
    let c = end.minus(start);
    let wide = magnitude(c.x) + 2 * outside_by(start.x, end.x, point.x);
    let high = magnitude(c.y) + 2 * outside_by(start.y, end.y, point.y);
    let reach = c.norm() + EPSILON + 1;
    let least = least_detour_squared(start, end, point);
    let f = FINE as int;
    lemma_axis_length(c);
    if start.y == end.y && magnitude(c.x) <= 10_000_000 * SCALE && outside_by(
        start.y,
        end.y,
        point.y,
    ) >= SCALE {
        let long = magnitude(c.x) as int;
        assert(reach * reach <= least * (f * f)) by (nonlinear_arith)
            requires
                f == 100_000_000,
                reach == long * f + 10_000_000_001,
                0 <= long <= wide,
                long <= 10_000_000_000_000_000,
                high >= 2_000_000_000,
                least == wide * wide + high * high,
        ;
    } else {
        let long = magnitude(c.y) as int;
        assert(reach * reach <= least * (f * f)) by (nonlinear_arith)
            requires
                f == 100_000_000,
                reach == long * f + 10_000_000_001,
                0 <= long <= high,
                long <= 10_000_000_000_000_000,
                wide >= 2_000_000_000,
                least == wide * wide + high * high,
        ;
    }
    assert(f * f == FINE_SQUARED) by (nonlinear_arith)
        requires
            f == 100_000_000,
            FINE_SQUARED == 10_000_000_000_000_000,
    ;
    lemma_point_beyond_box_is_outside(start, end, point);
}

/// The exactness of the occupancy test for a segment parallel to the first
/// axis.
proof fn lemma_test_is_exact_level(start: Point, end: Point, point: Point)
    requires
        start.y == end.y,
        magnitude(end.x - start.x) <= 10_000_000 * SCALE,
        whole_cells_apart(start, point),
        whole_cells_apart(point, end),
    ensures
        contains(start, end, point) == between(start, end, point),
{
    let a = point.minus(start);
    let b = end.minus(point);
    if point.y != start.y {
        // a whole cell or more beside the segment
        lemma_point_beside_is_outside(start, end, point);
        assert(!between(start, end, point)) by (nonlinear_arith)
            requires
                a.y != 0,
                b.y == -a.y,
                between(start, end, point) == (a.x * b.y - a.y * b.x == 0 && a.x * b.x + a.y * b.y
                    >= 0),
        ;
    } else if outside_by(start.x, end.x, point.x) > 0 {
        // on the line of the segment, a whole cell or more past an end
        lemma_point_past_the_ends_is_outside(start, end, point);
        assert(!between(start, end, point)) by (nonlinear_arith)
            requires
                (a.x > 0 && b.x < 0) || (a.x < 0 && b.x > 0),
                a.y == 0,
                b.y == 0,
                between(start, end, point) == (a.x * b.y - a.y * b.x == 0 && a.x * b.x + a.y * b.y
                    >= 0),
        ;
    } else {
        assert(between(start, end, point)) by (nonlinear_arith)
            requires
                (a.x >= 0 && b.x >= 0) || (a.x <= 0 && b.x <= 0),
                a.y == 0,
                b.y == 0,
                between(start, end, point) == (a.x * b.y - a.y * b.x == 0 && a.x * b.x + a.y * b.y
                    >= 0),
        ;
        lemma_point_between_is_inside(start, end, point);
    }
}

/// Among points that lie whole cells apart, the occupancy test is exact for
/// every segment that is parallel to an axis and no longer than ten million
/// cells: a point passes it if and only if it lies on the segment.
pub proof fn lemma_test_is_exact_on_the_grid(start: Point, end: Point, point: Point)
    requires
        start.x == end.x || start.y == end.y,
        magnitude(end.x - start.x) <= 10_000_000 * SCALE,
        magnitude(end.y - start.y) <= 10_000_000 * SCALE,
        whole_cells_apart(start, point),
        whole_cells_apart(point, end),
    ensures
        contains(start, end, point) == between(start, end, point),
{
    if start.y == end.y {
        lemma_test_is_exact_level(start, end, point);
    } else {
        let turned_start = Point { x: start.y, y: start.x };
        let turned_end = Point { x: end.y, y: end.x };
        let turned_point = Point { x: point.y, y: point.x };
        lemma_test_is_exact_level(turned_start, turned_end, turned_point);
        let a = point.minus(start);
        let b = end.minus(point);
        assert(turned_end.minus(turned_start).norm_squared() == end.minus(start).norm_squared());
        assert(turned_point.minus(turned_start).norm_squared() == a.norm_squared());
        assert(turned_end.minus(turned_point).norm_squared() == b.norm_squared());
        assert(between(turned_start, turned_end, turned_point) == between(start, end, point))
            by (nonlinear_arith)
            requires
                between(start, end, point) == (a.x * b.y - a.y * b.x == 0 && a.x * b.x + a.y * b.y
                    >= 0),
                between(turned_start, turned_end, turned_point) == (a.y * b.x - a.x * b.y == 0
                    && a.y * b.y + a.x * b.x >= 0),
        ;
    }
}

} // verus!
