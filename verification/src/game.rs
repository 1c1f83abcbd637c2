//! The state of a game and its set-up.

use vstd::prelude::*;
use crate::error::GameError;
use crate::fixed::{product, COORD_LIMIT, HALF_CELL, SCALE};
use crate::food::{
    cells, food_error, free_cells, get_food, get_food_with, on_path, selected,
};
use crate::vector::{all_in_range, points, Point, Vector};

verus! {

/// Half of `n`, rounded to the nearest whole number, an exact half rounding
/// up.
pub open spec fn rounded_half(n: int) -> int {
    (n + 1) / 2
}

/// Where the head of the snake starts: in the middle of the board, half a
/// cell before the rounded half of each dimension.
pub open spec fn start_head(width: int, height: int) -> Point {
    Point {
        x: rounded_half(width) * SCALE - HALF_CELL,
        y: rounded_half(height) * SCALE - HALF_CELL,
    }
}

/// Where the tail of the snake starts: `snake_length` steps of `direction`
/// behind the head.
pub open spec fn start_tail(width: int, height: int, snake_length: int, direction: Point) -> Point {
    start_head(width, height).minus(direction.times(snake_length))
}

/// The snake that a game starts with: from the tail to the head.
pub open spec fn start_snake(
    width: int,
    height: int,
    snake_length: int,
    direction: Point,
) -> Seq<Point> {
    seq![start_tail(width, height, snake_length, direction), start_head(width, height)]
}

/// What is wrong with the parameters of a game, if anything: the first of
/// the errors that applies.
pub open spec fn setup_error(
    width: int,
    height: int,
    snake_length: int,
    direction: Point,
) -> Option<GameError> {
    if width <= 0 || height <= 0 {
        Some(GameError::InvalidBoard)
    } else if snake_length < 1 {
        Some(GameError::InvalidSnakeLength)
    } else if direction.x == 0 && direction.y == 0 {
        Some(GameError::ZeroDirection)
    } else if !start_tail(width, height, snake_length, direction).in_range() {
        Some(GameError::SnakeOutOfRange)
    } else {
        None
    }
}

/// What keeps a game from being set up, if anything: parameters that are
/// wrong, or else a snake that leaves no room for food.
pub open spec fn game_error(
    width: int,
    height: int,
    snake_length: int,
    direction: Point,
) -> Option<GameError> {
    match setup_error(width, height, snake_length, direction) {
        Some(error) => Some(error),
        None => food_error(width, height, start_snake(width, height, snake_length, direction)),
    }
}

/// A product with a whole number of cells is exact.
proof fn lemma_whole_factor(x: int, n: int)
    ensures
        product(x, n * SCALE) == x * n,
{
    let s = SCALE as int;
    let p = x * n;
    assert(x * (n * s) == p * s && -(x * (n * s)) == (-p) * s) by (nonlinear_arith)
        requires
            p == x * n,
    ;
    assert(p >= 0 ==> p * s >= 0 && (p * s) / s == p) by (nonlinear_arith)
        requires
            s == 1_000_000_000,
    ;
    assert(p < 0 ==> p * s < 0 && ((-p) * s) / s == -p) by (nonlinear_arith)
        requires
            s == 1_000_000_000,
    ;
}

/// The coordinate at which the head starts along a dimension of `cells` cells.
fn head_coordinate(cells: i32) -> (coordinate: i64)
    requires
        cells > 0,
    ensures
        coordinate == rounded_half(cells as int) * SCALE - HALF_CELL,
        0 < coordinate <= COORD_LIMIT,
{
    ((cells as i64 + 1) / 2) * SCALE - HALF_CELL
}

/// Tells whether the tail, `snake_length` steps of `step` behind the head,
/// lies within the coordinate limit along one axis.
fn tail_is_in_range(head: i64, step: i64, snake_length: i32) -> (within: bool)
    ensures
        within == (-COORD_LIMIT <= head - step * snake_length <= COORD_LIMIT),
{
    assert(-0x8000_0000_0000_0000 * 0x8000_0000 <= step * snake_length <= 0x8000_0000_0000_0000
        * 0x8000_0000) by (nonlinear_arith)
        requires
            -0x8000_0000_0000_0000 <= step <= 0x8000_0000_0000_0000,
            -0x8000_0000 <= snake_length <= 0x8000_0000,
    ;
    let tail: i128 = head as i128 - (step as i128) * (snake_length as i128);
    -(COORD_LIMIT as i128) <= tail && tail <= COORD_LIMIT as i128
}

/// The points of the snake that a game starts with, from the tail to the
/// head, or what is wrong with the parameters.
pub fn initial_snake(
    width: i32,
    height: i32,
    snake_length: i32,
    direction: &Vector,
) -> (snake: Result<Vec<Vector>, GameError>)
    ensures
        match snake {
            Ok(body) => {
                &&& setup_error(width as int, height as int, snake_length as int, direction@)
                    is None
                &&& points(body@) == start_snake(
                    width as int,
                    height as int,
                    snake_length as int,
                    direction@,
                )
                &&& all_in_range(points(body@))
            },
            Err(error) => setup_error(width as int, height as int, snake_length as int, direction@)
                == Some(error),
        },
{
    if width <= 0 || height <= 0 {
        return Err(GameError::InvalidBoard);
    }
    if snake_length < 1 {
        return Err(GameError::InvalidSnakeLength);
    }
    if direction.x == 0 && direction.y == 0 {
        return Err(GameError::ZeroDirection);
    }
    let head = Vector::new(head_coordinate(width), head_coordinate(height));
    if !tail_is_in_range(head.x, direction.x, snake_length) || !tail_is_in_range(
        head.y,
        direction.y,
        snake_length,
    ) {
        return Err(GameError::SnakeOutOfRange);
    }
    proof {
        lemma_whole_factor(direction.x as int, snake_length as int);
        lemma_whole_factor(direction.y as int, snake_length as int);
    }
    let tailtip = head.subtract(&direction.scale_by(snake_length as i64 * SCALE));
    let snake = vec![tailtip, head];
    proof {
        assert(points(snake@) =~= start_snake(
            width as int,
            height as int,
            snake_length as int,
            direction@,
        ));
    }
    Ok(snake)
}

/// The state of a game: the board, the snake on it from the tail to the
/// head, where it heads and how fast, the food, and the score.
pub struct Game {
    pub width: i32,
    pub height: i32,
    pub speed: i64,
    pub score: i32,
    pub direction: Vector,
    pub food: Vector,
    pub snake: Vec<Vector>,
}

impl Game {
    /// The points of the snake, from the tail to the head.
    pub open spec fn body(&self) -> Seq<Point> {
        points(self.snake@)
    }

    /// The board has cells, the score is not negative, the snake heads
    /// somewhere and has at least the two points that make a segment, all of
    /// them within the coordinate limit.
    pub open spec fn well_formed(&self) -> bool {
        &&& self.width > 0
        &&& self.height > 0
        &&& self.score >= 0
        &&& !(self.direction.x == 0 && self.direction.y == 0)
        &&& self.body().len() >= 2
        &&& all_in_range(self.body())
    }

    /// `self` is a game that was just set up with the given parameters: the
    /// snake is the one such a game starts with, nothing is scored, and the
    /// food lies on a cell that the snake leaves free.
    pub open spec fn starts_from(
        &self,
        width: i32,
        height: i32,
        speed: i64,
        snake_length: i32,
        direction: Vector,
    ) -> bool {
        &&& self.width == width
        &&& self.height == height
        &&& self.speed == speed
        &&& self.score == 0
        &&& self.direction == direction
        &&& self.body() == start_snake(
            width as int,
            height as int,
            snake_length as int,
            direction@,
        )
        &&& free_cells(width as int, height as int, self.body()).contains(self.food@)
        &&& cells(width as int, height as int).contains(self.food@)
        &&& !on_path(self.body(), self.food@)
        &&& self.well_formed()
    }

    /// Sets up a game: the snake in the middle of the board, `snake_length`
    /// steps of `direction` long, and food on a free cell picked at random.
    /// Fails as `game_error` says. Where more than one cell is free, it also
    /// fails when the operating system gives no random numbers.
    pub fn new(
        width: i32,
        height: i32,
        speed: i64,
        snake_length: i32,
        direction: Vector,
    ) -> (game: Result<Game, GameError>)
        ensures
            match game {
                Ok(state) => {
                    &&& game_error(width as int, height as int, snake_length as int, direction@)
                        is None
                    &&& state.starts_from(width, height, speed, snake_length, direction)
                },
                Err(GameError::RandomnessUnavailable) => {
                    &&& game_error(width as int, height as int, snake_length as int, direction@)
                        is None
                    &&& free_cells(
                        width as int,
                        height as int,
                        start_snake(width as int, height as int, snake_length as int, direction@),
                    ).len() > 1
                },
                Err(other) => game_error(
                    width as int,
                    height as int,
                    snake_length as int,
                    direction@,
                ) == Some(other),
            },
    {
        let snake = match initial_snake(width, height, snake_length, &direction) {
            Ok(snake) => snake,
            Err(error) => { return Err(error); },
        };
        let food = match get_food(width, height, snake.as_slice()) {
            Ok(food) => food,
            Err(error) => { return Err(error); },
        };
        Ok(Game { width, height, speed, snake, direction, food, score: 0 })
    }

    /// Sets up a game as `new` does, with the food on the free cell that
    /// `draw` selects, counted cyclically in the order of `free_cells`.
    pub fn new_with(
        width: i32,
        height: i32,
        speed: i64,
        snake_length: i32,
        direction: Vector,
        draw: usize,
    ) -> (game: Result<Game, GameError>)
        ensures
            match game {
                Ok(state) => {
                    &&& game_error(width as int, height as int, snake_length as int, direction@)
                        is None
                    &&& state.starts_from(width, height, speed, snake_length, direction)
                    &&& state.food@ == selected(
                        free_cells(width as int, height as int, state.body()),
                        draw,
                    )
                },
                Err(error) => game_error(
                    width as int,
                    height as int,
                    snake_length as int,
                    direction@,
                ) == Some(error),
            },
    {
        let snake = match initial_snake(width, height, snake_length, &direction) {
            Ok(snake) => snake,
            Err(error) => { return Err(error); },
        };
        let food = match get_food_with(width, height, snake.as_slice(), draw) {
            Ok(food) => food,
            Err(error) => { return Err(error); },
        };
        Ok(Game { width, height, speed, snake, direction, food, score: 0 })
    }

    /// The points of the snake, from the tail to the head.
    pub fn get_snake(&self) -> (snake: Vec<Vector>)
        ensures
            snake@ == self.snake@,
    {
        let snake = self.snake.clone();
        assert(snake@ =~= self.snake@);
        snake
    }
}

} // verus!
