//! Falling pieces, the shape catalog and the wall-kick tables.

use crate::tiles::{fits_i16, point_add, Tile};
use rand::seq::SliceRandom;
use vstd::prelude::*;

verus! {

/// The falling piece: absolute tiles, rotation pivot, side of the square the
/// rotation is computed within, and rotation index.
#[derive(Clone, Debug)]
pub struct Piece {
    pub tiles: Vec<Tile>,
    pub origin: Tile,
    pub bounding_box_size: i16,
    pub rotation_index: usize,
}

impl Piece {
    /// Whether one of the piece's tiles is at `tile`.
    pub fn covers(&self, tile: Tile) -> (r: bool)
        ensures
            r == self.tiles@.contains(tile),
    {
        let mut i: usize = 0;
        while i < self.tiles.len()
            invariant
                0 <= i <= self.tiles.len(),
                forall|j: int| 0 <= j < i ==> #[trigger] self.tiles@[j] != tile,
            decreases self.tiles.len() - i,
        {
            if self.tiles[i] == tile {
                return true;
            }
            i += 1;
        }
        false
    }
}

/// A piece as mathematical points.
pub struct PieceView {
    pub tiles: Seq<(int, int)>,
    pub origin: (int, int),
    pub size: int,
    pub rotation: int,
}

/// The points of a sequence of tiles.
pub open spec fn points(tiles: Seq<Tile>) -> Seq<(int, int)> {
    tiles.map_values(|t: Tile| t@)
}

impl View for Piece {
    type V = PieceView;

    open spec fn view(&self) -> PieceView {
        PieceView {
            tiles: points(self.tiles@),
            origin: self.origin@,
            size: self.bounding_box_size as int,
            rotation: self.rotation_index as int,
        }
    }
}

/// Whether every point lies in the range of `i16`.
pub open spec fn all_fit(ps: Seq<(int, int)>) -> bool {
    forall|i: int| 0 <= i < ps.len() ==> #[trigger] fits_i16(ps[i])
}

/// A point turned a quarter clockwise within the box of side `size` at `o`.
pub open spec fn turn_cw(p: (int, int), o: (int, int), size: int) -> (int, int) {
    (o.0 + (size - 1 - (p.1 - o.1)), o.1 + (p.0 - o.0))
}

/// A point turned a quarter counterclockwise within the box of side `size` at `o`.
pub open spec fn turn_ccw(p: (int, int), o: (int, int), size: int) -> (int, int) {
    (o.0 + (p.1 - o.1), o.1 + (size - 1 - (p.0 - o.0)))
}

/// The piece after a clockwise quarter turn, without kicks.
pub open spec fn turned_cw(v: PieceView) -> PieceView {
    PieceView {
        tiles: v.tiles.map_values(|p: (int, int)| turn_cw(p, v.origin, v.size)),
        origin: v.origin,
        size: v.size,
        rotation: (v.rotation + 1) % 4,
    }
}

/// The piece after a counterclockwise quarter turn, without kicks.
pub open spec fn turned_ccw(v: PieceView) -> PieceView {
    PieceView {
        tiles: v.tiles.map_values(|p: (int, int)| turn_ccw(p, v.origin, v.size)),
        origin: v.origin,
        size: v.size,
        rotation: (v.rotation + 3) % 4,
    }
}

/// The points moved by `d`.
pub open spec fn shifted(ps: Seq<(int, int)>, d: (int, int)) -> Seq<(int, int)> {
    ps.map_values(|p: (int, int)| point_add(p, d))
}

/// The piece, tiles and pivot, moved by `d`.
pub open spec fn translated(v: PieceView, d: (int, int)) -> PieceView {
    PieceView { tiles: shifted(v.tiles, d), origin: point_add(v.origin, d), size: v.size, rotation: v.rotation }
}

/// Turns every tile a quarter clockwise about the pivot and steps the
/// rotation index forward.
pub fn rotate_clockwise(piece: &mut Piece)
    requires
        old(piece).rotation_index < 4,
    ensures
        final(piece).rotation_index == (old(piece).rotation_index + 1) % 4,
        final(piece).origin == old(piece).origin,
        final(piece).bounding_box_size == old(piece).bounding_box_size,
        final(piece).tiles.len() == old(piece).tiles.len(),
        all_fit(turned_cw(old(piece)@).tiles) ==> final(piece)@ == turned_cw(old(piece)@),
{
    let n = piece.tiles.len();
    let o = piece.origin;
    let size = piece.bounding_box_size;
    let mut i: usize = 0;
    while i < n
        invariant
            n == piece.tiles.len(),
            n == old(piece).tiles.len(),
            0 <= i <= n,
            o == piece.origin,
            piece.origin == old(piece).origin,
            size == piece.bounding_box_size,
            piece.bounding_box_size == old(piece).bounding_box_size,
            piece.rotation_index == old(piece).rotation_index,
            forall|j: int|
                0 <= j < i ==> all_fit(turned_cw(old(piece)@).tiles) ==> #[trigger] piece.tiles@[j]@
                    == turn_cw(old(piece).tiles@[j]@, o@, size as int),
            forall|j: int| i <= j < n ==> #[trigger] piece.tiles@[j] == old(piece).tiles@[j],
        decreases n - i,
    {
        let t = piece.tiles[i];
        let nx: i32 = o.x as i32 + (size as i32 - 1 - (t.y as i32 - o.y as i32));
        let ny: i32 = o.y as i32 + (t.x as i32 - o.x as i32);
        proof {
            if all_fit(turned_cw(old(piece)@).tiles) {
                assert(fits_i16(turned_cw(old(piece)@).tiles[i as int]));
            }
        }
        piece.tiles.set(i, Tile::new(nx as i16, ny as i16));
        i += 1;
    }
    piece.rotation_index = (piece.rotation_index + 1) % 4;
    proof {
        if all_fit(turned_cw(old(piece)@).tiles) {
            assert(final(piece)@.tiles =~= turned_cw(old(piece)@).tiles);
        }
    }
}

/// Turns every tile a quarter counterclockwise about the pivot and steps the
/// rotation index back.
pub fn rotate_counterclockwise(piece: &mut Piece)
    requires
        old(piece).rotation_index < 4,
    ensures
        final(piece).rotation_index == (old(piece).rotation_index + 3) % 4,
        final(piece).origin == old(piece).origin,
        final(piece).bounding_box_size == old(piece).bounding_box_size,
        final(piece).tiles.len() == old(piece).tiles.len(),
        all_fit(turned_ccw(old(piece)@).tiles) ==> final(piece)@ == turned_ccw(old(piece)@),
{
    let n = piece.tiles.len();
    let o = piece.origin;
    let size = piece.bounding_box_size;
    let mut i: usize = 0;
    while i < n
        invariant
            n == piece.tiles.len(),
            n == old(piece).tiles.len(),
            0 <= i <= n,
            o == piece.origin,
            piece.origin == old(piece).origin,
            size == piece.bounding_box_size,
            piece.bounding_box_size == old(piece).bounding_box_size,
            piece.rotation_index == old(piece).rotation_index,
            forall|j: int|
                0 <= j < i ==> all_fit(turned_ccw(old(piece)@).tiles) ==> #[trigger] piece.tiles@[j]@
                    == turn_ccw(old(piece).tiles@[j]@, o@, size as int),
            forall|j: int| i <= j < n ==> #[trigger] piece.tiles@[j] == old(piece).tiles@[j],
        decreases n - i,
    {
        let t = piece.tiles[i];
        let nx: i32 = o.x as i32 + (t.y as i32 - o.y as i32);
        let ny: i32 = o.y as i32 + (size as i32 - 1 - (t.x as i32 - o.x as i32));
        proof {
            if all_fit(turned_ccw(old(piece)@).tiles) {
                assert(fits_i16(turned_ccw(old(piece)@).tiles[i as int]));
            }
        }
        piece.tiles.set(i, Tile::new(nx as i16, ny as i16));
        i += 1;
    }
    piece.rotation_index = (piece.rotation_index + 3) % 4;
    proof {
        if all_fit(turned_ccw(old(piece)@).tiles) {
            assert(final(piece)@.tiles =~= turned_ccw(old(piece)@).tiles);
        }
    }
}

/// Moves every tile by `delta`.
pub fn move_tiles(tiles: &mut Vec<Tile>, delta: Tile)
    requires
        all_fit(shifted(points(old(tiles)@), delta@)),
    ensures
        points(final(tiles)@) == shifted(points(old(tiles)@), delta@),
{
    let n = tiles.len();
    let mut i: usize = 0;
    while i < n
        invariant
            n == tiles.len(),
            n == old(tiles).len(),
            0 <= i <= n,
            all_fit(shifted(points(old(tiles)@), delta@)),
            forall|j: int| 0 <= j < i ==> #[trigger] tiles@[j]@ == point_add(old(tiles)@[j]@, delta@),
            forall|j: int| i <= j < n ==> #[trigger] tiles@[j] == old(tiles)@[j],
        decreases n - i,
    {
        let t = tiles[i];
        assert(fits_i16(shifted(points(old(tiles)@), delta@)[i as int]));
        tiles.set(i, t.plus(delta));
        i += 1;
    }
    assert(points(final(tiles)@) =~= shifted(points(old(tiles)@), delta@));
}

/// Whether the tiles lie in the square of side `size` whose top left corner
/// is the pivot, a square that lies in the range of `i16`.
pub open spec fn in_box(v: PieceView) -> bool {
    &&& fits_i16(v.origin)
    &&& fits_i16((v.origin.0 + v.size - 1, v.origin.1 + v.size - 1))
    &&& forall|i: int|
        0 <= i < v.tiles.len() ==> {
            &&& 0 <= #[trigger] v.tiles[i].0 - v.origin.0 < v.size
            &&& 0 <= v.tiles[i].1 - v.origin.1 < v.size
        }
}

/// A quarter turn clockwise followed by one counterclockwise, or the other way
/// round, gives back the same tiles and rotation index.
pub proof fn lemma_turn_and_turn_back(v: PieceView)
    requires
        0 <= v.rotation < 4,
    ensures
        turned_ccw(turned_cw(v)) == v,
        turned_cw(turned_ccw(v)) == v,
{
    assert(turned_ccw(turned_cw(v)).tiles =~= v.tiles);
    assert(turned_cw(turned_ccw(v)).tiles =~= v.tiles);
}

/// The rotation index runs 0, 1, 2, 3, 0 clockwise and 0, 3, 2, 1, 0
/// counterclockwise, and four quarter turns in one direction give back the
/// piece; a piece in its box stays in it, so each turn is representable.
pub proof fn lemma_four_quarter_turns(v: PieceView)
    requires
        0 <= v.rotation < 4,
    ensures
        turned_cw(v).rotation == if v.rotation == 3 { 0 } else { v.rotation + 1 },
        turned_ccw(v).rotation == if v.rotation == 0 { 3 } else { v.rotation - 1 },
        turned_cw(turned_cw(turned_cw(turned_cw(v)))) == v,
        turned_ccw(turned_ccw(turned_ccw(turned_ccw(v)))) == v,
        in_box(v) ==> in_box(turned_cw(v)) && all_fit(turned_cw(v).tiles),
        in_box(v) ==> in_box(turned_ccw(v)) && all_fit(turned_ccw(v).tiles),
{
    assert(turned_cw(turned_cw(turned_cw(turned_cw(v)))).tiles =~= v.tiles);
    assert(turned_ccw(turned_ccw(turned_ccw(turned_ccw(v)))).tiles =~= v.tiles);
    if in_box(v) {
        lemma_turns_keep_box(v);
    }
}

proof fn lemma_turns_keep_box(v: PieceView)
    requires
        in_box(v),
    ensures
        in_box(turned_cw(v)),
        all_fit(turned_cw(v).tiles),
        in_box(turned_ccw(v)),
        all_fit(turned_ccw(v).tiles),
{
    let c = turned_cw(v);
    let a = turned_ccw(v);
    assert forall|i: int| 0 <= i < c.tiles.len() implies {
        &&& fits_i16(#[trigger] c.tiles[i])
        &&& 0 <= c.tiles[i].0 - c.origin.0 < c.size
        &&& 0 <= c.tiles[i].1 - c.origin.1 < c.size
    } by {
        assert(0 <= v.tiles[i].0 - v.origin.0 < v.size);
    }
    assert forall|i: int| 0 <= i < a.tiles.len() implies {
        &&& fits_i16(#[trigger] a.tiles[i])
        &&& 0 <= a.tiles[i].0 - a.origin.0 < a.size
        &&& 0 <= a.tiles[i].1 - a.origin.1 < a.size
    } by {
        assert(0 <= v.tiles[i].0 - v.origin.0 < v.size);
    }
}

/// A catalog entry: four tile offsets, the pivot offset and the side of the
/// rotation square.
pub struct PieceType {
    pub tiles: [Tile; 4],
    pub origin: Tile,
    pub bounding_box_size: i16,
}

impl View for PieceType {
    type V = PieceView;

    open spec fn view(&self) -> PieceView {
        PieceView {
            tiles: points(self.tiles@),
            origin: self.origin@,
            size: self.bounding_box_size as int,
            rotation: 0,
        }
    }
}

impl PieceType {
    pub fn new(tiles: [Tile; 4], origin: Tile, bounding_box_size: i16) -> (r: PieceType)
        ensures
            r.tiles == tiles,
            r.origin == origin,
            r.bounding_box_size == bounding_box_size,
    {
        PieceType { tiles, origin, bounding_box_size }
    }
}

/// A shape given by its offsets, pivot and square side, at rotation index 0.
pub open spec fn shape(tiles: Seq<(int, int)>, origin: (int, int), size: int) -> PieceView {
    PieceView { tiles, origin, size, rotation: 0 }
}

/// The seven shapes: plank, J, L, square, S, Z and T.
pub open spec fn catalog_shape(i: int) -> PieceView {
    if i == 0 {
        shape(seq![(0, 0), (1, 0), (2, 0), (3, 0)], (0, -1), 4)
    } else if i == 1 {
        shape(seq![(0, 0), (0, 1), (1, 1), (2, 1)], (0, 0), 3)
    } else if i == 2 {
        shape(seq![(2, 0), (0, 1), (1, 1), (2, 1)], (0, 0), 3)
    } else if i == 3 {
        shape(seq![(0, 0), (1, 0), (0, 1), (1, 1)], (0, 0), 2)
    } else if i == 4 {
        shape(seq![(0, 1), (1, 1), (1, 0), (2, 0)], (0, 0), 3)
    } else if i == 5 {
        shape(seq![(0, 0), (1, 0), (1, 1), (2, 1)], (0, 0), 3)
    } else {
        shape(seq![(1, 0), (0, 1), (1, 1), (2, 1)], (0, 0), 3)
    }
}

/// The seven shapes, in the order of `catalog_shape`.
pub fn all_pieces() -> (r: [PieceType; 7])
    ensures
        forall|i: int| 0 <= i < 7 ==> #[trigger] r@[i]@ == catalog_shape(i),
{
    let r = [
        PieceType::new(
            [Tile::new(0, 0), Tile::new(1, 0), Tile::new(2, 0), Tile::new(3, 0)],
            Tile::new(0, -1),
            4,
        ),
        PieceType::new(
            [Tile::new(0, 0), Tile::new(0, 1), Tile::new(1, 1), Tile::new(2, 1)],
            Tile::new(0, 0),
            3,
        ),
        PieceType::new(
            [Tile::new(2, 0), Tile::new(0, 1), Tile::new(1, 1), Tile::new(2, 1)],
            Tile::new(0, 0),
            3,
        ),
        PieceType::new(
            [Tile::new(0, 0), Tile::new(1, 0), Tile::new(0, 1), Tile::new(1, 1)],
            Tile::new(0, 0),
            2,
        ),
        PieceType::new(
            [Tile::new(0, 1), Tile::new(1, 1), Tile::new(1, 0), Tile::new(2, 0)],
            Tile::new(0, 0),
            3,
        ),
        PieceType::new(
            [Tile::new(0, 0), Tile::new(1, 0), Tile::new(1, 1), Tile::new(2, 1)],
            Tile::new(0, 0),
            3,
        ),
        PieceType::new(
            [Tile::new(1, 0), Tile::new(0, 1), Tile::new(1, 1), Tile::new(2, 1)],
            Tile::new(0, 0),
            3,
        ),
    ];
    assert forall|i: int| 0 <= i < 7 implies #[trigger] r@[i]@ == catalog_shape(i) by {
        assert(r@[i]@.tiles =~= catalog_shape(i).tiles);
    }
    r
}

/// Kick offsets for pieces in a square of side 3. Row `2 * i + d` holds the
/// trials for a turn from rotation index `i`, clockwise for `d == 0` and
/// counterclockwise for `d == 1`.
pub open spec fn kicks_size_3(row: int) -> Seq<(int, int)> {
    if row == 0 {
        seq![(-1, 0), (-1, -1), (0, 2), (-1, 2)]
    } else if row == 1 {
        seq![(1, 0), (1, 1), (0, -2), (1, -2)]
    } else if row == 2 {
        seq![(1, 0), (1, 1), (0, -2), (1, -2)]
    } else if row == 3 {
        seq![(-1, 0), (-1, -1), (0, 2), (-1, 2)]
    } else if row == 4 {
        seq![(1, 0), (1, -1), (0, 2), (1, 2)]
    } else if row == 5 {
        seq![(-1, 0), (-1, 1), (0, -2), (-1, -2)]
    } else if row == 6 {
        seq![(-1, 0), (-1, 1), (0, -2), (-1, -2)]
    } else {
        seq![(1, 0), (1, -1), (0, 2), (1, 2)]
    }
}

/// Kick offsets for the plank, laid out as `kicks_size_3`.
pub open spec fn kicks_size_4(row: int) -> Seq<(int, int)> {
    if row == 0 {
        seq![(-2, 0), (1, 0), (-2, 1), (1, -2)]
    } else if row == 1 {
        seq![(2, 0), (-1, 0), (2, -1), (-1, 2)]
    } else if row == 2 {
        seq![(-1, 0), (2, 0), (-1, -2), (2, 1)]
    } else if row == 3 {
        seq![(1, 0), (-2, 0), (1, 2), (-2, -1)]
    } else if row == 4 {
        seq![(2, 0), (-1, 0), (2, -1), (-1, 2)]
    } else if row == 5 {
        seq![(-2, 0), (1, 0), (-2, 1), (1, -2)]
    } else if row == 6 {
        seq![(1, 0), (-2, 0), (1, 2), (-2, -1)]
    } else {
        seq![(-1, 0), (2, 0), (-1, -2), (2, 1)]
    }
}

/// One row of the kick table for pieces in a square of side 3.
pub fn size_3_kick_tests(row: usize) -> (r: [Tile; 4])
    requires
        row < 8,
    ensures
        points(r@) == kicks_size_3(row as int),
{
    let r = if row == 0 {
        [Tile::new(-1, 0), Tile::new(-1, -1), Tile::new(0, 2), Tile::new(-1, 2)]
    } else if row == 1 {
        [Tile::new(1, 0), Tile::new(1, 1), Tile::new(0, -2), Tile::new(1, -2)]
    } else if row == 2 {
        [Tile::new(1, 0), Tile::new(1, 1), Tile::new(0, -2), Tile::new(1, -2)]
    } else if row == 3 {
        [Tile::new(-1, 0), Tile::new(-1, -1), Tile::new(0, 2), Tile::new(-1, 2)]
    } else if row == 4 {
        [Tile::new(1, 0), Tile::new(1, -1), Tile::new(0, 2), Tile::new(1, 2)]
    } else if row == 5 {
        [Tile::new(-1, 0), Tile::new(-1, 1), Tile::new(0, -2), Tile::new(-1, -2)]
    } else if row == 6 {
        [Tile::new(-1, 0), Tile::new(-1, 1), Tile::new(0, -2), Tile::new(-1, -2)]
    } else {
        [Tile::new(1, 0), Tile::new(1, -1), Tile::new(0, 2), Tile::new(1, 2)]
    };
    assert(points(r@) =~= kicks_size_3(row as int));
    r
}

/// One row of the kick table for the plank.
pub fn size_4_kick_tests(row: usize) -> (r: [Tile; 4])
    requires
        row < 8,
    ensures
        points(r@) == kicks_size_4(row as int),
{
    let r = if row == 0 {
        [Tile::new(-2, 0), Tile::new(1, 0), Tile::new(-2, 1), Tile::new(1, -2)]
    } else if row == 1 {
        [Tile::new(2, 0), Tile::new(-1, 0), Tile::new(2, -1), Tile::new(-1, 2)]
    } else if row == 2 {
        [Tile::new(-1, 0), Tile::new(2, 0), Tile::new(-1, -2), Tile::new(2, 1)]
    } else if row == 3 {
        [Tile::new(1, 0), Tile::new(-2, 0), Tile::new(1, 2), Tile::new(-2, -1)]
    } else if row == 4 {
        [Tile::new(2, 0), Tile::new(-1, 0), Tile::new(2, -1), Tile::new(-1, 2)]
    } else if row == 5 {
        [Tile::new(-2, 0), Tile::new(1, 0), Tile::new(-2, 1), Tile::new(1, -2)]
    } else if row == 6 {
        [Tile::new(1, 0), Tile::new(-2, 0), Tile::new(1, 2), Tile::new(-2, -1)]
    } else {
        [Tile::new(-1, 0), Tile::new(2, 0), Tile::new(-1, -2), Tile::new(2, 1)]
    };
    assert(points(r@) =~= kicks_size_4(row as int));
    r
}

/// Chooses the shape of each new piece.
pub trait PieceTypeSelector {
    /// Picks one entry of the catalog.
    fn select_piece_type<'a>(&self, available_piece_types: &'a [PieceType; 7]) -> (r: &'a PieceType)
        ensures
            exists|i: int| 0 <= i < 7 && *r == available_piece_types@[i],
    ;
}

/// Picks a shape uniformly at random.
pub struct RandomPieceTypeSelector {}

impl PieceTypeSelector for RandomPieceTypeSelector {
    fn select_piece_type<'a>(&self, available_piece_types: &'a [PieceType; 7]) -> (r: &'a PieceType) {
        choose_random(available_piece_types)
    }
}

/// Relies on rand's `SliceRandom::choose` for slices, which returns a
/// reference to one element of the slice and `None` only when it is empty.
#[verifier::external_body]
fn choose_random(items: &[PieceType; 7]) -> (r: &PieceType)
    ensures
        items@.contains(*r),
{
    items.choose(&mut rand::thread_rng()).unwrap()
}

} // verus!
