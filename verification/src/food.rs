//! Food placement: the cells that the snake leaves free, and the choice of
//! one of them.

use rand::rngs::{OsRng, StdRng};
use rand::{Rng, SeedableRng};
use vstd::prelude::*;
use vstd::arithmetic::div_mod::{
    lemma_fundamental_div_mod, lemma_fundamental_div_mod_converse, lemma_mod_pos_bound,
    lemma_small_mod,
};
use crate::error::GameError;
use crate::fixed::{HALF_CELL, SCALE};
use crate::segment::{contains, get_segments_from_vectors, Segment};
use crate::vector::{all_in_range, are_in_range, points, Point, Vector};

verus! {

/// The centre of the cell in the given column and row.
pub open spec fn cell_center(column: int, row: int) -> Point {
    Point { x: column * SCALE + HALF_CELL, y: row * SCALE + HALF_CELL }
}

/// The number of cells of a board; none unless it has columns and rows.
pub open spec fn cell_count(width: int, height: int) -> nat {
    if width > 0 && height > 0 {
        (width * height) as nat
    } else {
        0
    }
}

/// The centres of all cells of a board, column by column, each column from
/// its first row to its last.
pub open spec fn cells(width: int, height: int) -> Seq<Point> {
    Seq::new(cell_count(width, height), |i: int| cell_center(i / height, i % height))
}

/// `point` lies on the link of the path that starts at its `i`-th point.
pub open spec fn on_link(path: Seq<Point>, i: int, point: Point) -> bool {
    contains(path[i], path[i + 1], point)
}

/// `point` lies on one of the segments between consecutive points of `path`.
pub open spec fn on_path(path: Seq<Point>, point: Point) -> bool {
    exists|i: int| 0 <= i < path.len() - 1 && #[trigger] on_link(path, i, point)
}

/// The centres of the cells that lie on no segment of the snake, in the
/// order of `cells`.
pub open spec fn free_cells(width: int, height: int, snake: Seq<Point>) -> Seq<Point> {
    cells(width, height).filter(|point: Point| !on_path(snake, point))
}

/// The free cell that `draw` selects: the one at `draw`, counted cyclically.
pub open spec fn selected(free: Seq<Point>, draw: usize) -> Point {
    free[draw as int % free.len() as int]
}

/// What keeps food from being placed, if anything: a snake that reaches
/// beyond the coordinate limit, or else one that leaves no cell free.
pub open spec fn food_error(width: int, height: int, snake: Seq<Point>) -> Option<GameError> {
    if !all_in_range(snake) {
        Some(GameError::SnakeOutOfRange)
    } else if free_cells(width, height, snake).len() == 0 {
        Some(GameError::BoardExhausted)
    } else {
        None
    }
}

/// Tells whether `point` lies on none of the segments.
fn is_clear(
    segments: &Vec<Segment<'_>>,
    point: &Vector,
    Ghost(path): Ghost<Seq<Point>>,
) -> (clear: bool)
    requires
        point@.in_range(),
        all_in_range(path),
        segments@.len() == path.len() - 1 || (segments@.len() == 0 && path.len() == 0),
        forall|i: int|
            0 <= i < segments@.len() ==> (#[trigger] segments@[i]).start@ == path[i]
                && segments@[i].end@ == path[i + 1],
    ensures
        clear == !on_path(path, point@),
{
    let mut index: usize = 0;
    while index < segments.len()
        invariant
            point@.in_range(),
            index <= segments@.len(),
            all_in_range(path),
            segments@.len() == path.len() - 1 || (segments@.len() == 0 && path.len() == 0),
            forall|i: int|
                0 <= i < segments@.len() ==> (#[trigger] segments@[i]).start@ == path[i]
                    && segments@[i].end@ == path[i + 1],
            forall|i: int| 0 <= i < index ==> !#[trigger] on_link(path, i, point@),
        decreases segments@.len() - index,
    {
        assert(path[index as int].in_range() && path[index + 1].in_range());
        if segments[index].is_point_inside(point) {
            assert(on_link(path, index as int, point@));
            return false;
        }
        index += 1;
    }
    true
}

/// The centres of the cells that the snake leaves free, column by column.
/// Fails on a snake that reaches beyond the coordinate limit.
pub fn free_positions(
    width: i32,
    height: i32,
    snake: &[Vector],
) -> (free: Result<Vec<Vector>, GameError>)
    ensures
        match free {
            Ok(positions) => {
                &&& all_in_range(points(snake@))
                &&& points(positions@) == free_cells(width as int, height as int, points(snake@))
            },
            Err(error) => !all_in_range(points(snake@)) && error == GameError::SnakeOutOfRange,
        },
{
    if !are_in_range(snake) {
        return Err(GameError::SnakeOutOfRange);
    }
    let ghost path = points(snake@);
    let ghost all = cells(width as int, height as int);
    let ghost clear = |point: Point| !on_path(path, point);
    let mut free: Vec<Vector> = Vec::new();
    proof {
        reveal(Seq::filter);
        assert(all.take(0).filter(clear) =~= points(free@));
    }
    if width <= 0 || height <= 0 {
        proof {
            assert(all.take(0) =~= all);
        }
        return Ok(free);
    }
    let segments = get_segments_from_vectors(snake);
    let ghost mut scanned: int = 0;
    let mut x: i32 = 0;
    while x < width
        invariant
            0 < width,
            0 < height,
            0 <= x <= width,
            scanned == x * height,
            all == cells(width as int, height as int),
            path == points(snake@),
            clear == |point: Point| !on_path(path, point),
            points(free@) == all.take(scanned).filter(clear),
            all_in_range(path),
            segments@.len() == path.len() - 1 || (segments@.len() == 0 && path.len() == 0),
            forall|i: int|
                0 <= i < segments@.len() ==> (#[trigger] segments@[i]).start@ == path[i]
                    && segments@[i].end@ == path[i + 1],
        decreases width - x,
    {
        let mut y: i32 = 0;
        while y < height
            invariant
                0 < height,
                0 <= x < width,
                0 <= y <= height,
                scanned == x * height + y,
                all == cells(width as int, height as int),
                path == points(snake@),
                clear == |point: Point| !on_path(path, point),
                points(free@) == all.take(scanned).filter(clear),
                all_in_range(path),
                segments@.len() == path.len() - 1 || (segments@.len() == 0 && path.len() == 0),
                forall|i: int|
                    0 <= i < segments@.len() ==> (#[trigger] segments@[i]).start@ == path[i]
                        && segments@[i].end@ == path[i + 1],
            decreases height - y,
        {
            let point = Vector::new((x as i64) * SCALE + HALF_CELL, (y as i64) * SCALE + HALF_CELL);
            let keep = is_clear(&segments, &point, Ghost(path));
            proof {
                assert(0 <= scanned < width * height) by (nonlinear_arith)
                    requires
                        scanned == x * height + y,
                        0 <= x < width,
                        0 <= y < height,
                ;
                lemma_fundamental_div_mod_converse(scanned, height as int, x as int, y as int);
                assert(all[scanned] == point@);
                reveal(Seq::filter);
                assert(all.take(scanned + 1).drop_last() =~= all.take(scanned));
                assert(all.take(scanned + 1).last() == point@);
                assert(all.take(scanned + 1).filter(clear) == if keep {
                    all.take(scanned).filter(clear).push(point@)
                } else {
                    all.take(scanned).filter(clear)
                });
                assert(points(free@.push(point)) =~= points(free@).push(point@));
                scanned = scanned + 1;
            }
            if keep {
                free.push(point);
            }
            y += 1;
        }
        proof {
            assert(x * height + height == (x + 1) * height) by (nonlinear_arith);
        }
        x += 1;
    }
    proof {
        assert(all.take(scanned) =~= all);
    }
    Ok(free)
}

/// Every free cell is a cell of the board that lies on no segment of the
/// snake, and every such cell is free.
pub proof fn lemma_free_cells_are_the_clear_cells(
    width: int,
    height: int,
    snake: Seq<Point>,
    point: Point,
)
    ensures
        free_cells(width, height, snake).contains(point) <==> cells(width, height).contains(point)
            && !on_path(snake, point),
{
    let all = cells(width, height);
    let clear = |point: Point| !on_path(snake, point);
    let free = all.filter(clear);
    if free.contains(point) {
        let i = choose|i: int| 0 <= i < free.len() && free[i] == point;
        all.lemma_filter_pred(clear, i);
        all.lemma_filter_contains_rev(clear, point);
    }
    if all.contains(point) && !on_path(snake, point) {
        let i = choose|i: int| 0 <= i < all.len() && all[i] == point;
        all.lemma_filter_contains(clear, i);
    }
}

/// A sequence without repetitions keeps none when it is filtered.
proof fn lemma_filter_keeps_distinct(all: Seq<Point>, keep: spec_fn(Point) -> bool)
    requires
        all.no_duplicates(),
    ensures
        all.filter(keep).no_duplicates(),
    decreases all.len(),
{
    reveal(Seq::filter);
    if all.len() > 0 {
        let rest = all.drop_last();
        let last = all.last();
        lemma_filter_keeps_distinct(rest, keep);
        if keep(last) {
            let kept = rest.filter(keep);
            if kept.contains(last) {
                rest.lemma_filter_contains_rev(keep, last);
                let i = choose|i: int| 0 <= i < rest.len() && rest[i] == last;
                assert(all[i] == all[all.len() - 1]);
            }
            assert forall|i: int, j: int|
                0 <= i < kept.push(last).len() && 0 <= j < kept.push(last).len() && i
                    != j implies kept.push(last)[i] != kept.push(last)[j] by {
                if i < kept.len() {
                    assert(kept.contains(kept[i]));
                }
                if j < kept.len() {
                    assert(kept.contains(kept[j]));
                }
            }
        }
    }
}

/// No cell occurs twice among the free cells: each is as likely as any other
/// to be chosen by a draw that is uniform over the positions.
pub proof fn lemma_free_cells_are_distinct(width: int, height: int, snake: Seq<Point>)
    ensures
        free_cells(width, height, snake).no_duplicates(),
{
    let all = cells(width, height);
    assert forall|i: int, j: int| 0 <= i < all.len() && 0 <= j < all.len() && i != j implies all[i]
        != all[j] by {
        lemma_fundamental_div_mod(i, height);
        lemma_fundamental_div_mod(j, height);
        if i / height == j / height && i % height == j % height {
            assert(i == j);
        }
    }
    lemma_filter_keeps_distinct(all, |point: Point| !on_path(snake, point));
}

/// Draws an index below `len` from a random number generator that is seeded
/// by the operating system, if the operating system gives the seed.
///
/// This is `rand::SeedableRng::from_rng` for `rand::rngs::StdRng`, called on
/// `rand::rngs::OsRng`, and then `rand::Rng::gen_range` with the bounds `0`
/// and `len`. Its contract is not proved. It claims that a number which the
/// call returns is below `len`, as the documentation of `gen_range` states
/// for a range that is not empty; on an empty range `gen_range` panics, which
/// `requires` rules out. It claims nothing on whether a number is returned:
/// there is none when `from_rng` reports that the seed could not be had.
#[verifier::external_body]
fn random_index(len: usize) -> (index: Option<usize>)
    requires
        len > 0,
    ensures
        index matches Some(i) ==> i < len,
{
    match StdRng::from_rng(OsRng) {
        Ok(mut generator) => Some(generator.gen_range(0, len)),
        Err(_) => None,
    }
}

/// The free position that `draw` selects: the one at `draw`, counted
/// cyclically. There is none when no position is free.
pub fn select_food(free: &Vec<Vector>, draw: usize) -> (food: Result<Vector, GameError>)
    ensures
        match food {
            Ok(cell) => free@.len() > 0 && cell@ == selected(points(free@), draw),
            Err(error) => free@.len() == 0 && error == GameError::BoardExhausted,
        },
{
    if free.len() == 0 {
        Err(GameError::BoardExhausted)
    } else {
        Ok(free[draw % free.len()])
    }
}

/// Places food on the free cell that `draw` selects, counted cyclically in
/// the order of `free_cells`. Fails as `food_error` says.
pub fn get_food_with(
    width: i32,
    height: i32,
    snake: &[Vector],
    draw: usize,
) -> (food: Result<Vector, GameError>)
    ensures
        ({
            let free = free_cells(width as int, height as int, points(snake@));
            match food {
                Ok(cell) => {
                    &&& food_error(width as int, height as int, points(snake@)) is None
                    &&& cell@ == selected(free, draw)
                    &&& free.contains(cell@)
                    &&& cells(width as int, height as int).contains(cell@)
                    &&& !on_path(points(snake@), cell@)
                },
                Err(error) => food_error(width as int, height as int, points(snake@)) == Some(
                    error,
                ),
            }
        }),
{
    let free = match free_positions(width, height, snake) {
        Ok(free) => free,
        Err(error) => { return Err(error); },
    };
    proof {
        if free@.len() > 0 {
            let index = draw as int % free@.len() as int;
            lemma_mod_pos_bound(draw as int, free@.len() as int);
            lemma_free_cells_are_the_clear_cells(
                width as int,
                height as int,
                points(snake@),
                free@[index]@,
            );
            assert(points(free@)[index] == free@[index]@);
        }
    }
    select_food(&free, draw)
}

/// Places food on a free cell picked at random, each free cell being as
/// likely as any other. Fails as `food_error` says: on a snake that reaches
/// beyond the coordinate limit, and on one that covers the whole board. Where
/// more than one cell is free, it also fails when the operating system gives
/// no random numbers.
pub fn get_food(width: i32, height: i32, snake: &[Vector]) -> (food: Result<Vector, GameError>)
    ensures
        ({
            let free = free_cells(width as int, height as int, points(snake@));
            let error = food_error(width as int, height as int, points(snake@));
            &&& match food {
                Ok(cell) => {
                    &&& error is None
                    &&& free.contains(cell@)
                    &&& cells(width as int, height as int).contains(cell@)
                    &&& !on_path(points(snake@), cell@)
                },
                Err(GameError::RandomnessUnavailable) => error is None && free.len() > 1,
                Err(other) => error == Some(other),
            }
            &&& error is None && free.len() == 1 ==> food is Ok && food->Ok_0@ == free[0]
        }),
{
    let free = match free_positions(width, height, snake) {
        Ok(free) => free,
        Err(error) => { return Err(error); },
    };
    if free.len() == 0 {
        return Err(GameError::BoardExhausted);
    }
    // where one cell is free there is nothing to draw
    let index = if free.len() == 1 {
        0
    } else {
        match random_index(free.len()) {
            Some(index) => index,
            None => { return Err(GameError::RandomnessUnavailable); },
        }
    };
    proof {
        lemma_small_mod(index as nat, free@.len());
        lemma_free_cells_are_the_clear_cells(
            width as int,
            height as int,
            points(snake@),
            free@[index as int]@,
        );
        assert(points(free@)[index as int] == free@[index as int]@);
    }
    select_food(&free, index)
}

} // verus!
