//! Rendering of the game state.

use crate::game::GameState;
use vstd::prelude::*;

verus! {

/// Paints the board and the falling piece; it has no say in the game.
pub trait Drawing {
    fn init(&mut self);

    fn draw(&mut self, state: &GameState);
}

/// A renderer that paints nothing.
pub struct NoopDrawing {}

impl Drawing for NoopDrawing {
    fn init(&mut self) {
    }

    fn draw(&mut self, state: &GameState) {
    }
}

} // verus!
