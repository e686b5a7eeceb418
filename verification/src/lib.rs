//! Simulation core of a grid-based snake game: the board, the snake's
//! direction queue, timed food spawning, a small buff state machine and the
//! per-tick movement/collision/consumption logic. A host drives it through
//! `new_with_size`, `input`, `start`/`pause`, `tick` and the read accessors.

mod cell;
mod game;
mod host;

pub use cell::Cell;
pub use game::Game;
pub use game::Refreshes;
pub use game::Snake;
pub use game::Status;
