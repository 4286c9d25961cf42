//! Rules engine of a grid-based snake game.
//!
//! `grid` holds cell positions and the enumeration of the free cells of a
//! grid, `rules` states the game as mathematics, `chance` draws the random
//! index that food placement needs, and `game` is the executable state
//! machine, proved against `rules`.

pub mod chance;
pub mod game;
pub mod grid;
pub mod rules;

pub use game::GameState;
pub use grid::Position;
pub use rules::Direction;
