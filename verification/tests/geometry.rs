use snake_game::fixed::{
    are_equal, fine_sqrt, integer_sqrt, EPSILON, FINE, FINE_SQUARED, HALF_CELL, SCALE,
};
use snake_game::vector::are_in_range;
use snake_game::{get_segments_from_vectors, Segment, Vector};

/// The point at the given number of half cells along each axis.
fn at(x: i64, y: i64) -> Vector {
    Vector::new(x * HALF_CELL, y * HALF_CELL)
}

/// A number of cells as a length.
fn cells_long(cells: u128) -> u128 {
    cells * SCALE as u128 * FINE
}

/// The product of a factor's magnitude and a length.
fn times(factor: i64, length: u128) -> u128 {
    factor.unsigned_abs() as u128 * length / SCALE as u128
}

#[test]
fn constants_agree() {
    assert_eq!(SCALE, 1_000_000_000);
    assert_eq!(2 * HALF_CELL, SCALE);
    assert_eq!(FINE * FINE, FINE_SQUARED);
    // a ten-millionth of a cell
    assert_eq!(EPSILON * 10_000_000, cells_long(1));
}

#[test]
fn integer_sqrt_rounds_down() {
    assert_eq!(integer_sqrt(0), 0);
    assert_eq!(integer_sqrt(1), 1);
    assert_eq!(integer_sqrt(2), 1);
    assert_eq!(integer_sqrt(3), 1);
    assert_eq!(integer_sqrt(4), 2);
    assert_eq!(integer_sqrt(24), 4);
    assert_eq!(integer_sqrt(25), 5);
    assert_eq!(integer_sqrt(26), 5);
    assert_eq!(integer_sqrt(1_000_000_000_000_000_000), 1_000_000_000);
    assert_eq!(integer_sqrt(999_999_999_999_999_999), 999_999_999);
}

#[test]
fn integer_sqrt_of_the_largest_number() {
    assert_eq!(integer_sqrt(u128::MAX), u64::MAX);
    assert_eq!(integer_sqrt((u64::MAX as u128) * (u64::MAX as u128)), u64::MAX);
    assert_eq!(integer_sqrt((u64::MAX as u128) * (u64::MAX as u128) - 1), u64::MAX - 1);
}

#[test]
fn fine_sqrt_keeps_eight_more_digits() {
    assert_eq!(fine_sqrt(0), 0);
    assert_eq!(fine_sqrt(1), 100_000_000);
    assert_eq!(fine_sqrt(2), 141_421_356);
    assert_eq!(fine_sqrt(3), 173_205_080);
    assert_eq!(fine_sqrt(4), 200_000_000);
    assert_eq!(fine_sqrt(25), 500_000_000);
    assert_eq!(fine_sqrt(1_000_000_000_000_000_000), 100_000_000_000_000_000);
    assert_eq!(fine_sqrt(2_000_000_000_000_000_000), 141_421_356_237_309_504);
    assert_eq!(fine_sqrt(u128::MAX), 1_844_674_407_370_955_161_599_999_999);
}

#[test]
fn are_equal_is_strict_at_the_tolerance() {
    assert!(are_equal(5, 5));
    assert!(are_equal(1_000, 10_000_000_999));
    assert!(are_equal(10_000_000_999, 1_000));
    assert!(!are_equal(1_000, 10_000_001_000));
    assert!(!are_equal(10_000_001_000, 1_000));
    assert!(!are_equal(0, u128::MAX));
}

#[test]
fn new_keeps_the_coordinates() {
    let v = Vector::new(-7, 12);
    assert_eq!(v.x, -7);
    assert_eq!(v.y, 12);
}

#[test]
fn the_coordinate_limit_is_within_range() {
    let limit = 4_000_000_000_000_000_000;
    assert!(Vector::new(limit, -limit).is_in_range());
    assert!(Vector::new(0, 0).is_in_range());
    assert!(!Vector::new(limit + 1, 0).is_in_range());
    assert!(!Vector::new(0, -limit - 1).is_in_range());
    assert!(!Vector::new(i64::MIN, i64::MAX).is_in_range());
    assert!(are_in_range(&[]));
    assert!(are_in_range(&[Vector::new(limit, limit), Vector::new(-limit, -limit)]));
    assert!(!are_in_range(&[Vector::new(limit, limit), Vector::new(-limit, -limit - 1)]));
    assert!(!are_in_range(&[Vector::new(limit + 1, 0), Vector::new(0, 0)]));
}

#[test]
fn subtract_is_componentwise() {
    let a = at(9, 9);
    let b = at(6, -2);
    assert_eq!(a.subtract(&b), at(3, 11));
    assert_eq!(b.subtract(&a), at(-3, -11));
}

#[test]
fn subtract_reaches_the_ends_of_the_range() {
    let a = Vector::new(i64::MAX, i64::MIN);
    let b = Vector::new(0, 0);
    assert_eq!(a.subtract(&b), a);
    assert_eq!(Vector::new(-1, 0).subtract(&Vector::new(i64::MAX, 0)), Vector::new(i64::MIN, 0));
}

#[test]
fn scale_by_a_whole_number_is_exact() {
    let v = Vector::new(1_500_000_001, -250_000_000);
    assert_eq!(v.scale_by(3 * SCALE), Vector::new(4_500_000_003, -750_000_000));
    assert_eq!(v.scale_by(-2 * SCALE), Vector::new(-3_000_000_002, 500_000_000));
    assert_eq!(v.scale_by(0), Vector::new(0, 0));
    assert_eq!(v.scale_by(SCALE), v);
}

#[test]
fn scale_by_a_fraction_rounds_towards_zero() {
    let v = Vector::new(3, -3);
    assert_eq!(v.scale_by(HALF_CELL), Vector::new(1, -1));
    assert_eq!(v.scale_by(-HALF_CELL), Vector::new(-1, 1));
    assert_eq!(Vector::new(1, -1).scale_by(SCALE - 1), Vector::new(0, 0));
}

#[test]
fn lenght_of_a_right_triangle() {
    assert_eq!(Vector::new(3 * SCALE, 4 * SCALE).lenght(), cells_long(5));
    assert_eq!(Vector::new(-3 * SCALE, 4 * SCALE).lenght(), cells_long(5));
    assert_eq!(Vector::new(0, -7).lenght(), 7 * FINE);
}

#[test]
fn lenght_rounds_down() {
    // the diagonal of a cell: 1.41421356237309504880... cells
    assert_eq!(Vector::new(SCALE, SCALE).lenght(), 141_421_356_237_309_504);
    assert_eq!(Vector::new(1, 1).lenght(), 141_421_356);
    assert_eq!(Vector::new(2, 2).lenght(), 282_842_712);
}

#[test]
fn lenght_of_the_longest_vector() {
    // 2^63 units times the square root of two
    assert_eq!(
        Vector::new(i64::MIN, i64::MIN).lenght(),
        1_304_381_782_533_278_221_234_957_180
    );
}

#[test]
fn a_vector_less_itself_has_no_length() {
    for v in [at(9, 9), Vector::new(i64::MAX, i64::MIN), Vector::new(0, 0), Vector::new(-5, 17)] {
        assert_eq!(v.subtract(&v).lenght(), 0);
    }
}

#[test]
fn scaling_scales_the_length() {
    let a = at(9, 9);
    let b = at(3, 1);
    let difference = a.subtract(&b);
    assert_eq!(difference.lenght(), cells_long(5));
    for cells in [-7i64, -1, 0, 1, 2, 98, 1_000, 1_000_000] {
        let scaled = difference.scale_by(cells * SCALE).lenght();
        assert_eq!(scaled, cells_long(5 * cells.unsigned_abs() as u128));
        assert!(are_equal(scaled, times(cells * SCALE, difference.lenght())));
    }
    // by a fraction, both sides round: 2.5 cells of a diagonal
    let diagonal = at(4, 4).subtract(&at(0, 0));
    let scaled = diagonal.scale_by(5 * HALF_CELL).lenght();
    let expected = times(5 * HALF_CELL, diagonal.lenght());
    assert_eq!(scaled, 707_106_781_186_547_524);
    assert_eq!(expected, 707_106_781_186_547_522);
    assert!(are_equal(scaled, expected));
}

#[test]
fn scaling_a_diagonal_by_a_thousand_cells_keeps_the_tolerance() {
    let difference = at(2, 2).subtract(&at(0, 0));
    let scaled = difference.scale_by(1_000 * SCALE).lenght();
    let expected = times(1_000 * SCALE, difference.lenght());
    assert_eq!(scaled, 141_421_356_237_309_504_880);
    assert_eq!(expected, 141_421_356_237_309_504_000);
    assert!(are_equal(scaled, expected));
    assert!(are_equal(difference.scale_by(-1_000 * SCALE).lenght(), expected));
}

#[test]
fn scaling_by_the_largest_factors_keeps_the_tolerance() {
    // a million cells of the shortest diagonal
    let v = Vector::new(1, 1);
    let scaled = v.scale_by(1_000_000 * SCALE).lenght();
    assert_eq!(scaled, 141_421_356_237_309);
    assert!(are_equal(scaled, times(1_000_000 * SCALE, v.lenght())));
    // the largest factor there is
    let scaled = v.scale_by(i64::MAX).lenght();
    let expected = times(i64::MAX, v.lenght());
    assert_eq!(scaled, 1_304_381_782_412_394_667);
    assert_eq!(expected, 1_304_381_780_344_484_369);
    assert!(are_equal(scaled, expected));
    let v = Vector::new(3, -7);
    assert!(are_equal(v.scale_by(i64::MIN + 1).lenght(), times(i64::MAX, v.lenght())));
}

#[test]
fn segment_keeps_its_ends() {
    let start = at(3, 9);
    let end = at(9, 9);
    let segment = Segment::new(&start, &end);
    assert_eq!(*segment.start, start);
    assert_eq!(*segment.end, end);
}

#[test]
fn get_vector_leads_from_start_to_end() {
    let start = at(3, 9);
    let end = at(9, 1);
    assert_eq!(Segment::new(&start, &end).get_vector(), at(6, -8));
    assert_eq!(Segment::new(&end, &start).get_vector(), at(-6, 8));
}

#[test]
fn segment_lenght_is_that_of_its_vector() {
    let start = at(3, 9);
    let end = at(9, 1);
    assert_eq!(Segment::new(&start, &end).lenght(), cells_long(5));
    assert_eq!(Segment::new(&start, &start).lenght(), 0);
}

#[test]
fn the_midpoint_is_inside() {
    let cases = [
        (at(3, 9), at(9, 9)),
        (at(1, 1), at(7, 13)),
        (Vector::new(-2, 4), Vector::new(1_000_000_006, -999_999_990)),
        (Vector::new(0, 0), Vector::new(6, 10)),
        // with a midpoint that is rounded to a unit
        (Vector::new(0, 0), Vector::new(7, 11)),
        (Vector::new(-3, 8), Vector::new(2_000_000_000, -1_999_999_999)),
        (Vector::new(1, 0), Vector::new(0, 1)),
    ];
    for (start, end) in cases {
        let middle = Vector::new((start.x + end.x) / 2, (start.y + end.y) / 2);
        assert!(Segment::new(&start, &end).is_point_inside(&middle));
        assert!(Segment::new(&end, &start).is_point_inside(&middle));
    }
}

#[test]
fn the_ends_are_inside() {
    let start = at(3, 9);
    let end = at(9, 9);
    let segment = Segment::new(&start, &end);
    assert!(segment.is_point_inside(&start));
    assert!(segment.is_point_inside(&end));
}

#[test]
fn points_along_the_segment_are_inside() {
    let start = at(3, 9);
    let end = at(9, 9);
    let segment = Segment::new(&start, &end);
    for x in 3..=9 {
        assert!(segment.is_point_inside(&at(x, 9)));
    }
}

#[test]
fn points_past_the_ends_are_outside() {
    let start = at(3, 9);
    let end = at(9, 9);
    let segment = Segment::new(&start, &end);
    assert!(!segment.is_point_inside(&at(1, 9)));
    assert!(!segment.is_point_inside(&at(11, 9)));
    // half the tolerance past the end is still inside, a unit more is not
    assert!(segment.is_point_inside(&Vector::new(end.x + 49, end.y)));
    assert!(!segment.is_point_inside(&Vector::new(end.x + 50, end.y)));
    assert!(segment.is_point_inside(&Vector::new(start.x - 49, start.y)));
    assert!(!segment.is_point_inside(&Vector::new(start.x - 50, start.y)));
}

#[test]
fn points_beside_the_segment_are_outside() {
    let start = at(3, 9);
    let end = at(9, 9);
    let segment = Segment::new(&start, &end);
    assert!(!segment.is_point_inside(&at(5, 7)));
    assert!(!segment.is_point_inside(&at(5, 11)));
    assert!(!segment.is_point_inside(&at(3, 7)));
    assert!(!segment.is_point_inside(&at(9, 11)));
}

#[test]
fn a_point_just_beside_a_long_segment_counts_as_inside() {
    // twice the tolerance off the middle of a segment of ten cells: the
    // detour is longer by less than a unit
    let start = Vector::new(0, 0);
    let end = Vector::new(10 * SCALE, 0);
    let point = Vector::new(5 * SCALE, 200);
    assert!(Segment::new(&start, &end).is_point_inside(&point));
    // a thousandth of a cell off it is outside
    let farther = Vector::new(5 * SCALE, SCALE / 1_000);
    assert!(!Segment::new(&start, &end).is_point_inside(&farther));
}

#[test]
fn a_segment_without_length_holds_its_point_only() {
    let point = at(9, 9);
    let segment = Segment::new(&point, &point);
    assert!(segment.is_point_inside(&point));
    assert!(segment.is_point_inside(&Vector::new(point.x + 49, point.y)));
    assert!(!segment.is_point_inside(&Vector::new(point.x + 50, point.y)));
    assert!(!segment.is_point_inside(&at(9, 11)));
}

#[test]
fn is_point_inside_on_far_points() {
    let limit = 4_000_000_000_000_000_000;
    let start = Vector::new(-limit, -limit);
    let end = Vector::new(limit, limit);
    let segment = Segment::new(&start, &end);
    assert!(segment.is_point_inside(&Vector::new(0, 0)));
    assert!(segment.is_point_inside(&Vector::new(limit / 2, limit / 2)));
    assert!(!segment.is_point_inside(&Vector::new(-limit, limit)));
    assert!(!Segment::new(&start, &start).is_point_inside(&end));
}

#[test]
fn segments_join_consecutive_points() {
    let path = [at(3, 9), at(9, 9), at(9, 3), at(1, 3)];
    let segments = get_segments_from_vectors(&path);
    assert_eq!(segments.len(), 3);
    for (i, segment) in segments.iter().enumerate() {
        assert_eq!(*segment.start, path[i]);
        assert_eq!(*segment.end, path[i + 1]);
    }
}

#[test]
fn short_paths_have_no_segments() {
    assert_eq!(get_segments_from_vectors(&[]).len(), 0);
    assert_eq!(get_segments_from_vectors(&[at(1, 1)]).len(), 0);
    assert_eq!(get_segments_from_vectors(&[at(1, 1), at(1, 1)]).len(), 1);
}
