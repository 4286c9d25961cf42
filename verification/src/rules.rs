//! The rules of the game as mathematics: the state as a value, one tick and
//! one change of heading as functions on it, and the laws that hold of them.

use crate::grid::{free_cells, nth_free_cell, within, Position};
use vstd::prelude::*;

verus! {

/// The four headings of the snake.
#[derive(Clone, Copy, Debug, PartialEq, Eq, Structural)]
pub enum Direction {
    Up,
    Down,
    Left,
    Right,
}

impl Direction {
    /// The heading that points the other way.
    pub open spec fn opposite(self) -> Direction {
        match self {
            Direction::Up => Direction::Down,
            Direction::Down => Direction::Up,
            Direction::Left => Direction::Right,
            Direction::Right => Direction::Left,
        }
    }

    /// The change of column that one step makes.
    pub open spec fn dx(self) -> int {
        match self {
            Direction::Left => -1,
            Direction::Right => 1,
            _ => 0,
        }
    }

    /// The change of row that one step makes.
    pub open spec fn dy(self) -> int {
        match self {
            Direction::Up => -1,
            Direction::Down => 1,
            _ => 0,
        }
    }

    /// The heading after a request for `wanted`: a request to reverse is
    /// ignored, any other is taken.
    pub open spec fn turned(self, wanted: Direction) -> Direction {
        if wanted == self.opposite() {
            self
        } else {
            wanted
        }
    }
}

/// What one meal adds to the score.
pub const FOOD_SCORE: i32 = 10;

/// How many whole cells of size `cell` fit along `extent` pixels. An extent
/// or a cell size that is not positive gives no cell at all.
pub open spec fn cells_along(extent: int, cell: int) -> int {
    if extent > 0 && cell > 0 {
        extent / cell
    } else {
        0
    }
}

/// A grid has no negative number of cells along a side, and no more than
/// the side has pixels.
pub proof fn lemma_cells_along_bounds(extent: int, cell: int)
    ensures
        0 <= cells_along(extent, cell),
        extent > 0 ==> cells_along(extent, cell) <= extent,
{
    if extent > 0 && cell > 0 {
        assert(0 <= extent / cell <= extent) by (nonlinear_arith)
            requires
                extent > 0,
                cell > 0,
        ;
    }
}

/// Whether a body and a food fit a running game on a grid of `cols` by
/// `rows` cells: the body is not empty, lies on the grid and holds no cell
/// twice, and the food lies on the grid and off the body.
pub open spec fn sound(body: Seq<Position>, food: Position, cols: int, rows: int) -> bool {
    &&& body.len() > 0
    &&& body.no_duplicates()
    &&& forall|j: int| 0 <= j < body.len() ==> within(cols, rows, #[trigger] body[j])
    &&& within(cols, rows, food)
    &&& !body.contains(food)
}

/// A game as a mathematical value. `body` lists the cells of the snake,
/// head first.
pub struct Game {
    pub body: Seq<Position>,
    pub food: Position,
    pub heading: Direction,
    pub score: int,
    pub over: bool,
    pub width: i32,
    pub height: i32,
    pub cell_size: i32,
}

impl Game {
    /// The number of columns of the grid.
    pub open spec fn columns(self) -> int {
        cells_along(self.width as int, self.cell_size as int)
    }

    /// The number of rows of the grid.
    pub open spec fn rows(self) -> int {
        cells_along(self.height as int, self.cell_size as int)
    }

    /// Whether `p` is a cell of the grid.
    pub open spec fn in_grid(self, p: Position) -> bool {
        within(self.columns(), self.rows(), p)
    }

    /// Whether a head placed on `p` would hit a wall or the body as it lies
    /// now, tail included.
    pub open spec fn collides(self, p: Position) -> bool {
        !self.in_grid(p) || self.body.contains(p)
    }

    /// The column and row one step ahead of the head.
    pub open spec fn ahead(self) -> (int, int) {
        (self.body[0].x + self.heading.dx(), self.body[0].y + self.heading.dy())
    }

    /// The cell one step ahead of the head. It is meaningful where
    /// `blocked` is false.
    pub open spec fn target(self) -> Position {
        Position { x: self.ahead().0 as i32, y: self.ahead().1 as i32 }
    }

    /// Whether the next step ends the game: the cell ahead is off the grid
    /// or part of the body.
    pub open spec fn blocked(self) -> bool {
        let (x, y) = self.ahead();
        !(0 <= x < self.columns() && 0 <= y < self.rows()) || self.body.contains(self.target())
    }

    /// Whether the next step lands on the food.
    pub open spec fn eats(self) -> bool {
        !self.over && !self.blocked() && self.target() == self.food
    }

    /// The body after a step that eats: the cell ahead, then the body as it
    /// is.
    pub open spec fn grown(self) -> Seq<Position> {
        seq![self.target()] + self.body
    }

    /// The body after a step that does not eat: the cell ahead, then the
    /// body without its tail cell.
    pub open spec fn moved(self) -> Seq<Position> {
        self.grown().drop_last()
    }

    /// What a tick needs of a state: a running game has a head, and a step
    /// that eats leaves room for the score and a free cell for the next
    /// food.
    pub open spec fn ready(self) -> bool {
        self.over || (self.body.len() > 0 && (self.eats() ==> self.score <= i32::MAX - FOOD_SCORE
            && free_cells(self.grown(), self.columns(), self.rows()) > 0))
    }

    /// The invariant of the state: a running game is `sound`. A finished
    /// game is bound by nothing.
    pub open spec fn valid(self) -> bool {
        self.over || sound(self.body, self.food, self.columns(), self.rows())
    }

    /// Whether the food is one of the cells that `before` leaves free on
    /// the grid: the cell that some draw among them selects.
    pub open spec fn food_drawn(self, before: Seq<Position>) -> bool {
        exists|k: nat|
            k < free_cells(before, self.columns(), self.rows()) && self.food == #[trigger] nth_free_cell(
                before,
                self.columns(),
                self.rows(),
                k,
            )
    }

    /// One tick. A finished game stays as it is. A blocked step ends the
    /// game and changes nothing else. A step onto the food grows the snake,
    /// adds `FOOD_SCORE` and takes `drawn` as the new food. Any other step
    /// moves the snake and ignores `drawn`.
    pub open spec fn step(self, drawn: Position) -> Game {
        if self.over {
            self
        } else if self.blocked() {
            Game { over: true, ..self }
        } else if self.eats() {
            Game { body: self.grown(), score: self.score + FOOD_SCORE, food: drawn, ..self }
        } else {
            Game { body: self.moved(), ..self }
        }
    }

    /// One request for a new heading.
    pub open spec fn turn(self, wanted: Direction) -> Game {
        Game { heading: self.heading.turned(wanted), ..self }
    }

    /// As many ticks as `draws` has entries, the `i`-th of them with
    /// `draws[i]` at hand for the food.
    pub open spec fn run(self, draws: Seq<Position>) -> Game
        decreases draws.len(),
    {
        if draws.len() == 0 {
            self
        } else {
            self.step(draws[0]).run(draws.drop_first())
        }
    }
}

/// A request for a heading is taken unless it asks to reverse, and then the
/// heading stays; so no request ever turns the snake round.
pub proof fn law_turn_takes_all_but_reversal(current: Direction, wanted: Direction)
    ensures
        wanted != current.opposite() ==> current.turned(wanted) == wanted,
        wanted == current.opposite() ==> current.turned(wanted) == current,
        current.turned(wanted) != current.opposite(),
{
}

/// A step that is not blocked puts the cell ahead at the front. Where it
/// eats, the rest of the body stays, so the length grows by one, and the
/// score by `FOOD_SCORE`. Where it does not, every other cell takes the place
/// of the one before it, the tail cell leaves, and length and score stay.
pub proof fn law_step_moves_or_grows(g: Game, drawn: Position)
    requires
        !g.over,
        g.body.len() > 0,
        !g.blocked(),
    ensures
        g.step(drawn).body[0] == g.target(),
        g.target().x == g.body[0].x + g.heading.dx(),
        g.target().y == g.body[0].y + g.heading.dy(),
        forall|j: int| 1 <= j < g.step(drawn).body.len() ==> g.step(drawn).body[j] == g.body[j - 1],
        g.eats() ==> g.step(drawn).body.len() == g.body.len() + 1 && g.step(drawn).score == g.score
            + 10,
        !g.eats() ==> g.step(drawn).body.len() == g.body.len() && g.step(drawn).score == g.score
            && g.step(drawn).food == g.food,
{
    lemma_cells_along_bounds(g.width as int, g.cell_size as int);
    lemma_cells_along_bounds(g.height as int, g.cell_size as int);
}

/// After a tick that leaves the game running, the food is off the body,
/// given that it was off the body before and that a new food is drawn off
/// the grown body.
pub proof fn law_food_stays_off_body(g: Game, drawn: Position)
    requires
        g.over || g.body.len() > 0,
        !g.body.contains(g.food),
        g.eats() ==> !g.grown().contains(drawn),
        !g.step(drawn).over,
    ensures
        !g.step(drawn).body.contains(g.step(drawn).food),
{
    if !g.eats() {
        let after = g.moved();
        if after.contains(g.food) {
            let j = choose|j: int| 0 <= j < after.len() && after[j] == g.food;
            if j > 0 {
                assert(g.body[j - 1] == g.food);
            }
        }
    }
}

/// A tick keeps the invariant, given that a new food is drawn on the grid
/// and off the grown body.
pub proof fn law_step_keeps_valid(g: Game, drawn: Position)
    requires
        g.valid(),
        g.eats() ==> g.in_grid(drawn) && !g.grown().contains(drawn),
    ensures
        g.step(drawn).valid(),
{
    if !g.over && !g.blocked() {
        lemma_cells_along_bounds(g.width as int, g.cell_size as int);
        lemma_cells_along_bounds(g.height as int, g.cell_size as int);
        let after = if g.eats() {
            g.grown()
        } else {
            g.moved()
        };
        assert forall|a: int, b: int| 0 <= a < after.len() && 0 <= b < after.len() && a != b implies after[a]
            != after[b] by {
            if a > 0 {
                assert(after[a] == g.body[a - 1]);
            }
            if b > 0 {
                assert(after[b] == g.body[b - 1]);
            }
        }
        assert forall|j: int| 0 <= j < after.len() implies within(
            g.columns(),
            g.rows(),
            #[trigger] after[j],
        ) by {
            if j > 0 {
                assert(after[j] == g.body[j - 1]);
            }
        }
        law_food_stays_off_body(g, drawn);
    }
}

/// A finished game is frozen: however many ticks follow, and whatever is
/// drawn for them, the state stays as it is.
pub proof fn law_finished_game_is_frozen(g: Game, draws: Seq<Position>)
    requires
        g.over,
    ensures
        g.run(draws) == g,
    decreases draws.len(),
{
    if draws.len() > 0 {
        law_finished_game_is_frozen(g, draws.drop_first());
    }
}

/// The only way out of a running game is a blocked step, and there is no
/// way back: a game that is over after a tick was over before it or was
/// blocked.
pub proof fn law_game_ends_only_when_blocked(g: Game, drawn: Position)
    ensures
        g.step(drawn).over <==> g.over || g.blocked(),
{
}

} // verus!
