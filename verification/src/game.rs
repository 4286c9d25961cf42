//! The game state and its operations: construction, one tick, a change of
//! heading.

use crate::chance::random_below;
use crate::grid::{count_free, free_cells, nth_free_cell, occupied, select_free, Position};
use crate::rules::{
    cells_along, law_food_stays_off_body, lemma_cells_along_bounds, law_step_keeps_valid, Direction, Game, FOOD_SCORE,
};
use vstd::prelude::*;

verus! {

/// The whole state of one game. `snake` lists the cells of the body, head
/// first.
#[derive(Clone, Debug)]
pub struct GameState {
    pub snake: Vec<Position>,
    pub food: Position,
    pub direction: Direction,
    pub score: i32,
    pub game_over: bool,
    pub width: i32,
    pub height: i32,
    pub cell_size: i32,
}

impl View for GameState {
    type V = Game;

    open spec fn view(&self) -> Game {
        Game {
            body: self.snake@,
            food: self.food,
            heading: self.direction,
            score: self.score as int,
            over: self.game_over,
            width: self.width,
            height: self.height,
            cell_size: self.cell_size,
        }
    }
}

/// Computes `cells_along`.
pub fn cell_count(extent: i32, cell: i32) -> (n: i32)
    ensures
        n == cells_along(extent as int, cell as int),
        0 <= n,
{
    proof {
        lemma_cells_along_bounds(extent as int, cell as int);
    }
    if extent > 0 && cell > 0 {
        extent / cell
    } else {
        0
    }
}

/// The cell one step from `head` towards `heading`, where its coordinates
/// are representable.
fn step_from(head: Position, heading: Direction) -> (next: Option<Position>)
    ensures
        match next {
            Some(p) => p.x == head.x + heading.dx() && p.y == head.y + heading.dy(),
            None => head.x + heading.dx() < i32::MIN || head.x + heading.dx() > i32::MAX
                || head.y + heading.dy() < i32::MIN || head.y + heading.dy() > i32::MAX,
        },
{
    match heading {
        Direction::Up => if head.y > i32::MIN {
            Some(Position { x: head.x, y: head.y - 1 })
        } else {
            None
        },
        Direction::Down => if head.y < i32::MAX {
            Some(Position { x: head.x, y: head.y + 1 })
        } else {
            None
        },
        Direction::Left => if head.x > i32::MIN {
            Some(Position { x: head.x - 1, y: head.y })
        } else {
            None
        },
        Direction::Right => if head.x < i32::MAX {
            Some(Position { x: head.x + 1, y: head.y })
        } else {
            None
        },
    }
}

impl GameState {
    /// Starts a game: a snake of one cell at (5, 5) heading right, no score,
    /// and food on a free cell of the grid. The grid must have a cell.
    pub fn new(width: i32, height: i32, cell_size: i32) -> (game: GameState)
        requires
            0 < cell_size <= width,
            cell_size <= height,
        ensures
            game.snake@ == seq![Position { x: 5, y: 5 }],
            game.direction == Direction::Right,
            game.score == 0,
            !game.game_over,
            game.width == width,
            game.height == height,
            game.cell_size == cell_size,
            game@.in_grid(game.food),
            game.food != (Position { x: 5, y: 5 }),
            !game.snake@.contains(game.food),
            game@.food_drawn(game.snake@),
            game@.ready(),
            game@.in_grid(Position { x: 5, y: 5 }) ==> game@.valid(),
    {
        let mut game = GameState {
            snake: vec![Position { x: 5, y: 5 }],
            food: Position { x: 10, y: 10 },
            direction: Direction::Right,
            score: 0,
            game_over: false,
            width,
            height,
            cell_size,
        };
        proof {
            let cols = game@.columns();
            let rows = game@.rows();
            assert(cols >= 1) by (nonlinear_arith)
                requires
                    cols == width as int / cell_size as int,
                    0 < cell_size <= width,
            ;
            assert(rows >= 1) by (nonlinear_arith)
                requires
                    rows == height as int / cell_size as int,
                    0 < cell_size <= height,
            ;
            assert(cols * rows >= 1) by (nonlinear_arith)
                requires
                    cols >= 1,
                    rows >= 1,
            ;
            assert(0int % cols == 0 && 0int / cols == 0) by (nonlinear_arith)
                requires
                    cols >= 1,
            ;
            assert(game.snake@ =~= seq![Position { x: 5, y: 5 }]);
            assert(!game.snake@.contains(Position { x: 0, y: 0 }));
        }
        game.generate_food();
        proof {
            assert(game.snake@[0] == Position { x: 5, y: 5 });
        }
        game
    }

    /// Advances the game by one tick, as `Game::step` says, with new food
    /// drawn among the cells that the grown body leaves free where the snake
    /// eats.
    pub fn update(&mut self)
        requires
            old(self)@.ready(),
        ensures
            final(self)@ == old(self)@.step(final(self).food),
            old(self).game_over ==> *final(self) == *old(self),
            old(self)@.eats() ==> {
                &&& final(self)@.in_grid(final(self).food)
                &&& !final(self).snake@.contains(final(self).food)
                &&& final(self)@.food_drawn(old(self)@.grown())
            },
            !final(self).game_over && !old(self).snake@.contains(old(self).food)
                ==> !final(self).snake@.contains(final(self).food),
            old(self)@.valid() ==> final(self)@.valid(),
    {
        if self.game_over {
            return ;
        }
        let head = self.snake[0];
        let new_head = match step_from(head, self.direction) {
            Some(p) => p,
            None => {
                proof {
                    lemma_cells_along_bounds(self.width as int, self.cell_size as int);
                    lemma_cells_along_bounds(self.height as int, self.cell_size as int);
                }
                self.game_over = true;
                return ;
            },
        };
        assert(new_head == self@.target());
        if self.check_collision(&new_head) {
            self.game_over = true;
            return ;
        }
        self.snake.insert(0, new_head);
        assert(self.snake@ =~= old(self)@.grown());
        if new_head.x == self.food.x && new_head.y == self.food.y {
            self.score += FOOD_SCORE;
            self.generate_food();
        } else {
            self.snake.pop();
        }
        proof {
            let before = old(self)@;
            if !before.body.contains(before.food) {
                law_food_stays_off_body(before, self.food);
            }
            if before.valid() {
                law_step_keeps_valid(before, self.food);
            }
        }
    }

    /// Tests whether the state is ready for `update`.
    pub fn is_ready(&self) -> (ok: bool)
        ensures
            ok == self@.ready(),
    {
        if self.game_over {
            return true;
        }
        if self.snake.len() == 0 {
            return false;
        }
        let cols = cell_count(self.width, self.cell_size);
        let rows = cell_count(self.height, self.cell_size);
        let new_head = match step_from(self.snake[0], self.direction) {
            Some(p) => p,
            None => {
                proof {
                    lemma_cells_along_bounds(self.width as int, self.cell_size as int);
                    lemma_cells_along_bounds(self.height as int, self.cell_size as int);
                }
                return true;
            },
        };
        assert(new_head == self@.target());
        if self.check_collision(&new_head) {
            return true;
        }
        if !(new_head.x == self.food.x && new_head.y == self.food.y) {
            return true;
        }
        if self.score > i32::MAX - FOOD_SCORE {
            return false;
        }
        let mut grown: Vec<Position> = Vec::new();
        grown.push(new_head);
        let mut j: usize = 0;
        while j < self.snake.len()
            invariant
                j <= self.snake.len(),
                grown@ == seq![new_head] + self.snake@.subrange(0, j as int),
            decreases self.snake.len() - j,
        {
            grown.push(self.snake[j]);
            j += 1;
            assert(grown@ =~= seq![new_head] + self.snake@.subrange(0, j as int));
        }
        assert(grown@ =~= self@.grown());
        count_free(&grown, cols, rows) > 0
    }

    /// Whether a head placed on `pos` would hit a wall or the body.
    pub fn check_collision(&self, pos: &Position) -> (hit: bool)
        ensures
            hit == self@.collides(*pos),
    {
        let cols = cell_count(self.width, self.cell_size);
        let rows = cell_count(self.height, self.cell_size);
        if pos.x < 0 || pos.x >= cols || pos.y < 0 || pos.y >= rows {
            return true;
        }
        occupied(&self.snake, *pos)
    }

    /// Puts the food on the `k`-th free cell of the grid, counted from zero
    /// in row-major order. This is food placement for a draw that has been
    /// made.
    pub fn place_food(&mut self, k: u64)
        requires
            k < free_cells(old(self).snake@, old(self)@.columns(), old(self)@.rows()),
        ensures
            *final(self) == (GameState {
                food: nth_free_cell(
                    old(self).snake@,
                    old(self)@.columns(),
                    old(self)@.rows(),
                    k as nat,
                ),
                ..*old(self)
            }),
            final(self)@.in_grid(final(self).food),
            !final(self).snake@.contains(final(self).food),
    {
        let cols = cell_count(self.width, self.cell_size);
        let rows = cell_count(self.height, self.cell_size);
        self.food = select_free(&self.snake, cols, rows, k);
    }

    /// Draws new food uniformly among the free cells of the grid.
    fn generate_food(&mut self)
        requires
            free_cells(old(self).snake@, old(self)@.columns(), old(self)@.rows()) > 0,
        ensures
            *final(self) == (GameState { food: final(self).food, ..*old(self) }),
            final(self)@.in_grid(final(self).food),
            !final(self).snake@.contains(final(self).food),
            final(self)@.food_drawn(old(self).snake@),
    {
        let cols = cell_count(self.width, self.cell_size);
        let rows = cell_count(self.height, self.cell_size);
        let free = count_free(&self.snake, cols, rows);
        let k = random_below(free);
        self.place_food(k);
        assert(self.food == nth_free_cell(
            old(self).snake@,
            old(self)@.columns(),
            old(self)@.rows(),
            k as nat,
        ));
    }

    /// Takes `new_direction` as the heading, unless it is the opposite of
    /// the current one: then the heading stays. Nothing else changes.
    pub fn change_direction(&mut self, new_direction: Direction)
        ensures
            *final(self) == (GameState {
                direction: old(self).direction.turned(new_direction),
                ..*old(self)
            }),
            final(self)@ == old(self)@.turn(new_direction),
    {
        let invalid_change = match (self.direction, new_direction) {
            (Direction::Up, Direction::Down) => true,
            (Direction::Down, Direction::Up) => true,
            (Direction::Left, Direction::Right) => true,
            (Direction::Right, Direction::Left) => true,
            _ => false,
        };
        if !invalid_change {
            self.direction = new_direction;
        }
    }
}

} // verus!
