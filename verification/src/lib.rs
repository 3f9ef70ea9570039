//! Verified core of a first-person labyrinth horror game: maze generation,
//! level layout, lighting layout, the game-flow rules, the stalker's
//! decisions and the save-file bookkeeping.

pub mod rng;
pub mod grid;
pub mod maze;
pub mod game;
pub mod level;
pub mod lamps;
pub mod monster;
pub mod save;
pub mod story;
pub mod player;
