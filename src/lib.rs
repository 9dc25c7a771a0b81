//! Rules engine of a falling-block puzzle game: piece geometry, movement and
//! rotation with wall kicks, collision against settled cells, row clearing,
//! gravity timing and the end of a game.

pub mod drawing;
pub mod engine;
pub mod game;
pub mod input;
pub mod pieces;
pub mod tiles;
pub mod time;
