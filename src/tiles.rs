//! Integer board coordinates.

use vstd::prelude::*;

verus! {

/// A cell coordinate: `x` grows to the right, `y` grows downwards.
#[derive(Clone, Copy, PartialEq, Eq, Structural, Debug)]
pub struct Tile {
    pub x: i16,
    pub y: i16,
}

impl View for Tile {
    type V = (int, int);

    open spec fn view(&self) -> (int, int) {
        (self.x as int, self.y as int)
    }
}

/// Whether a point lies in the range of `i16` on both axes.
pub open spec fn fits_i16(p: (int, int)) -> bool {
    i16::MIN <= p.0 <= i16::MAX && i16::MIN <= p.1 <= i16::MAX
}

/// Componentwise sum of two points.
pub open spec fn point_add(a: (int, int), b: (int, int)) -> (int, int) {
    (a.0 + b.0, a.1 + b.1)
}

/// Componentwise difference of two points.
pub open spec fn point_sub(a: (int, int), b: (int, int)) -> (int, int) {
    (a.0 - b.0, a.1 - b.1)
}

impl Tile {
    pub fn new(x: i16, y: i16) -> (r: Tile)
        ensures
            r.x == x,
            r.y == y,
    {
        Tile { x, y }
    }

    /// Position of the cell on the terminal: each cell is two columns wide and
    /// the board is framed by a border.
    pub fn to_screen_space(self) -> (r: Tile)
        requires
            fits_i16((2 * self.x + 2, self.y + 1)),
        ensures
            r.x == 2 * self.x + 2,
            r.y == self.y + 1,
    {
        Tile { x: (self.x + 1) * 2, y: self.y + 1 }
    }

    /// Translation by `delta`.
    pub fn plus(self, delta: Tile) -> (r: Tile)
        requires
            fits_i16(point_add(self@, delta@)),
        ensures
            r@ == point_add(self@, delta@),
    {
        Tile { x: self.x + delta.x, y: self.y + delta.y }
    }

    /// Offset of `self` from `base`.
    pub fn minus(self, base: Tile) -> (r: Tile)
        requires
            fits_i16(point_sub(self@, base@)),
        ensures
            r@ == point_sub(self@, base@),
    {
        Tile { x: self.x - base.x, y: self.y - base.y }
    }
}

} // verus!
