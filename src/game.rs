//! The board, the game state and the moves a falling piece can make.

use crate::drawing::Drawing;
use crate::input::InputSource;
use crate::pieces::{
    all_fit, in_box, kicks_size_3, kicks_size_4, lemma_four_quarter_turns, move_tiles, points,
    rotate_clockwise, rotate_counterclockwise, shifted, size_3_kick_tests, size_4_kick_tests,
    translated, turned_ccw, turned_cw, Piece, PieceTypeSelector, PieceView,
};
use crate::tiles::{fits_i16, point_add, Tile};
use crate::time::{Clock, ClockInstant};
use vstd::prelude::*;

verus! {

/// Number of columns of the board.
pub const WIDTH: u16 = 10;

/// Number of rows of the board; row 0 is the top one.
pub const HEIGHT: u16 = 20;

/// One cell of the board: its coordinate and whether a block has settled there.
#[derive(Clone, Copy, Debug)]
pub struct MapTile {
    pub tile: Tile,
    pub is_set: bool,
}

/// The grid of settled cells, indexed by column and then by row.
pub struct Board {
    pub tiles: [[MapTile; 20]; 10],
}

/// Whether a point is a cell of the board.
pub open spec fn on_board(p: (int, int)) -> bool {
    0 <= p.0 < WIDTH as int && 0 <= p.1 < HEIGHT as int
}

/// Whether every point is on the board.
pub open spec fn all_on_board(ps: Seq<(int, int)>) -> bool {
    forall|i: int| 0 <= i < ps.len() ==> #[trigger] on_board(ps[i])
}

impl Board {
    /// Whether a block has settled at the point.
    pub open spec fn occupied(&self, p: (int, int)) -> bool {
        self.tiles@[p.0]@[p.1].is_set
    }

    /// The occupancy, row by row from the top, each row from the left.
    pub open spec fn rows(&self) -> Seq<Seq<bool>> {
        Seq::new(HEIGHT as nat, |y: int| Seq::new(WIDTH as nat, |x: int| self.tiles@[x]@[y].is_set))
    }

    /// Each cell records its own coordinate.
    pub open spec fn wf(&self) -> bool {
        forall|x: int, y: int|
            0 <= x < WIDTH && 0 <= y < HEIGHT ==> (#[trigger] self.tiles@[x]@[y]).tile@ == (x, y)
    }

    /// Whether a block has settled on the cell.
    pub fn is_set(&self, tile: Tile) -> (r: bool)
        requires
            on_board(tile@),
        ensures
            r == self.occupied(tile@),
    {
        self.tiles[tile.x as usize][tile.y as usize].is_set
    }
}

/// Whether every point is on the board and on a free cell.
pub open spec fn valid_positions(map: Board, ps: Seq<(int, int)>) -> bool {
    forall|i: int| 0 <= i < ps.len() ==> on_board(#[trigger] ps[i]) && !map.occupied(ps[i])
}

/// Whether every tile is on the board and on a free cell.
pub fn are_valid_positions(map: &Board, tiles: &Vec<Tile>) -> (r: bool)
    ensures
        r == valid_positions(*map, points(tiles@)),
{
    let mut i: usize = 0;
    while i < tiles.len()
        invariant
            0 <= i <= tiles.len(),
            valid_positions(*map, points(tiles@).take(i as int)),
        decreases tiles.len() - i,
    {
        let tile = tiles[i];
        assert(points(tiles@)[i as int] == tile@);
        if tile.y < 0 {
            return false;
        }
        if tile.y >= HEIGHT as i16 {
            return false;
        }
        if tile.x < 0 {
            return false;
        }
        if tile.x >= WIDTH as i16 {
            return false;
        }
        if map.is_set(tile) {
            return false;
        }
        assert(points(tiles@).take(i + 1) =~= points(tiles@).take(i as int).push(tile@));
        i += 1;
    }
    assert(points(tiles@).take(i as int) =~= points(tiles@));
    true
}

/// The board and the falling piece: what the renderer is shown each frame.
pub struct GameState {
    pub falling_piece: Piece,
    pub map: Board,
}

/// A game: the board and the falling piece, with the collaborators it reads
/// commands, shapes and time from and draws to.
pub struct Game<TInput: InputSource, TPTS: PieceTypeSelector, TCI: ClockInstant, TC: Clock<TCI>, TD: Drawing> {
    pub state: GameState,
    pub clock: TC,
    pub last_move_instant: TCI,
    pub ended: bool,
    pub input: TInput,
    pub piece_type_selector: TPTS,
    pub drawing: TD,
}

/// A row with a block in every column.
pub open spec fn full_row(row: Seq<bool>) -> bool {
    forall|x: int| 0 <= x < row.len() ==> #[trigger] row[x]
}

/// `n` rows without blocks.
pub open spec fn empty_rows(n: nat) -> Seq<Seq<bool>> {
    Seq::new(n, |y: int| Seq::new(WIDTH as nat, |x: int| false))
}

/// The rows after one full row at `line` is removed: the rows above it move
/// down by one and an empty row comes in at the top.
pub open spec fn without_row(rows: Seq<Seq<bool>>, line: int) -> Seq<Seq<bool>> {
    empty_rows(1) + rows.take(line) + rows.skip(line + 1)
}

/// The rows after every full row is removed: the other rows keep their
/// order and sink to the bottom, and empty rows fill the top.
pub open spec fn cleared_rows(rows: Seq<Seq<bool>>) -> Seq<Seq<bool>> {
    let kept = rows.filter(|r: Seq<bool>| !full_row(r));
    empty_rows((rows.len() - kept.len()) as nat) + kept
}

/// Whether moving the points by `d` puts them all on free cells.
pub open spec fn fits_after(map: Board, ps: Seq<(int, int)>, d: (int, int)) -> bool {
    valid_positions(map, shifted(ps, d))
}

/// Whether `trials[k]` is the first offset that puts the points on free cells.
pub open spec fn is_first_fit(map: Board, ps: Seq<(int, int)>, trials: Seq<(int, int)>, k: int) -> bool {
    &&& 0 <= k < trials.len()
    &&& fits_after(map, ps, trials[k])
    &&& forall|j: int| 0 <= j < k ==> !fits_after(map, ps, #[trigger] trials[j])
}

/// The piece `turned` moved by the first trial offset that puts it on free
/// cells, or `unchanged` when no trial does.
pub open spec fn kicked(map: Board, unchanged: PieceView, turned: PieceView, trials: Seq<(int, int)>) -> PieceView {
    if exists|k: int| is_first_fit(map, turned.tiles, trials, k) {
        translated(turned, trials[choose|k: int| is_first_fit(map, turned.tiles, trials, k)])
    } else {
        unchanged
    }
}

/// The kick offsets for a square of side `size`; the square piece has none.
pub open spec fn kick_trials(size: int, row: int) -> Seq<(int, int)> {
    if size == 3 {
        kicks_size_3(row)
    } else if size == 4 {
        kicks_size_4(row)
    } else {
        seq![]
    }
}

/// The offsets tried for a turn: none at all first, then the kick row.
pub open spec fn rotation_trials(size: int, row: int) -> Seq<(int, int)> {
    seq![(0, 0)] + kick_trials(size, row)
}

/// Whether the tiles and the pivot stay representable when moved by `d`.
pub open spec fn can_shift(v: PieceView, d: (int, int)) -> bool {
    all_fit(shifted(v.tiles, d)) && fits_i16(point_add(v.origin, d))
}

/// The rows with a block added at each of the points.
pub open spec fn settled_rows(rows: Seq<Seq<bool>>, ps: Seq<(int, int)>) -> Seq<Seq<bool>> {
    Seq::new(rows.len(), |y: int| Seq::new(rows[y].len(), |x: int| rows[y][x] || ps.contains((x, y))))
}

/// Whether the falling piece could move down one row.
pub open spec fn can_fall(s: GameState) -> bool {
    valid_positions(s.map, shifted(s.falling_piece@.tiles, (0, 1)))
}

/// The falling piece after an attempt to move it by `d`: moved when the cells
/// there are free, else where it was.
pub open spec fn shift_outcome(s: GameState, d: (int, int)) -> PieceView {
    if valid_positions(s.map, shifted(s.falling_piece@.tiles, d)) {
        translated(s.falling_piece@, d)
    } else {
        s.falling_piece@
    }
}

/// The falling piece after an attempt to turn it clockwise.
pub open spec fn cw_outcome(s: GameState) -> PieceView {
    kicked(
        s.map,
        s.falling_piece@,
        turned_cw(s.falling_piece@),
        rotation_trials(s.falling_piece.bounding_box_size as int, 2 * s.falling_piece.rotation_index),
    )
}

/// The falling piece after an attempt to turn it counterclockwise.
pub open spec fn ccw_outcome(s: GameState) -> PieceView {
    kicked(
        s.map,
        s.falling_piece@,
        turned_ccw(s.falling_piece@),
        rotation_trials(s.falling_piece.bounding_box_size as int, 2 * s.falling_piece.rotation_index + 1),
    )
}

/// The rows once the falling piece has settled and the full rows are gone.
pub open spec fn landed_rows(s: GameState) -> Seq<Seq<bool>> {
    cleared_rows(settled_rows(s.map.rows(), s.falling_piece@.tiles))
}

impl GameState {
    /// The falling piece has four tiles, all on the board and inside its
    /// rotation square, and every cell of the board knows its coordinate.
    pub open spec fn inv(&self) -> bool {
        &&& self.map.wf()
        &&& self.falling_piece.tiles.len() == 4
        &&& 2 <= self.falling_piece.bounding_box_size <= 4
        &&& self.falling_piece.rotation_index < 4
        &&& in_box(self.falling_piece@)
        &&& all_on_board(self.falling_piece@.tiles)
    }

    /// Whether the falling piece covers no settled cell.
    pub open spec fn piece_is_free(&self) -> bool {
        valid_positions(self.map, self.falling_piece@.tiles)
    }

    /// Removes row `line_index`: every row above it moves down by one and the
    /// top row becomes empty.
    pub fn clear_line(&mut self, line_index: usize)
        requires
            line_index < HEIGHT,
            old(self).map.wf(),
        ensures
            final(self).map.wf(),
            final(self).map.rows() == without_row(old(self).map.rows(), line_index as int),
            final(self).falling_piece == old(self).falling_piece,
    {
        let mut i: usize = line_index;
        while i > 0
            invariant
                i <= line_index < HEIGHT,
                self.falling_piece == old(self).falling_piece,
                forall|x: int, y: int|
                    0 <= x < WIDTH && 0 <= y < HEIGHT ==> (#[trigger] self.map.tiles@[x]@[y]).tile
                        == old(self).map.tiles@[x]@[y].tile,
                forall|x: int, y: int|
                    0 <= x < WIDTH && 0 <= y < HEIGHT ==> (#[trigger] self.map.tiles@[x]@[y]).is_set
                        == if i < y <= line_index {
                        old(self).map.tiles@[x]@[y - 1].is_set
                    } else {
                        old(self).map.tiles@[x]@[y].is_set
                    },
            decreases i,
        {
            let mut x: usize = 0;
            while x < WIDTH as usize
                invariant
                    0 < i <= line_index < HEIGHT,
                    x <= WIDTH,
                    self.falling_piece == old(self).falling_piece,
                    forall|x: int, y: int|
                        0 <= x < WIDTH && 0 <= y < HEIGHT ==> (#[trigger] self.map.tiles@[x]@[y]).tile
                            == old(self).map.tiles@[x]@[y].tile,
                    forall|c: int, y: int|
                        0 <= c < WIDTH && 0 <= y < HEIGHT ==> (#[trigger] self.map.tiles@[c]@[y]).is_set
                            == if i < y <= line_index || (y == i && c < x) {
                            old(self).map.tiles@[c]@[y - 1].is_set
                        } else {
                            old(self).map.tiles@[c]@[y].is_set
                        },
                decreases WIDTH - x,
            {
                let above = self.map.tiles[x][i - 1].is_set;
                self.map.tiles[x][i].is_set = above;
                x += 1;
            }
            i -= 1;
        }
        let mut x: usize = 0;
        while x < WIDTH as usize
            invariant
                line_index < HEIGHT,
                x <= WIDTH,
                self.falling_piece == old(self).falling_piece,
                forall|x: int, y: int|
                    0 <= x < WIDTH && 0 <= y < HEIGHT ==> (#[trigger] self.map.tiles@[x]@[y]).tile
                        == old(self).map.tiles@[x]@[y].tile,
                forall|c: int, y: int|
                    0 <= c < WIDTH && 0 <= y < HEIGHT ==> (#[trigger] self.map.tiles@[c]@[y]).is_set
                        == if y == 0 && c < x {
                        false
                    } else if 0 < y <= line_index {
                        old(self).map.tiles@[c]@[y - 1].is_set
                    } else {
                        old(self).map.tiles@[c]@[y].is_set
                    },
            decreases WIDTH - x,
        {
            self.map.tiles[x][0].is_set = false;
            x += 1;
        }
        assert(self.map.rows() =~~= without_row(old(self).map.rows(), line_index as int));
    }

    /// Whether every cell of row `y` holds a block.
    fn is_line_complete(&self, y: usize) -> (r: bool)
        requires
            y < HEIGHT,
        ensures
            r == full_row(self.map.rows()[y as int]),
    {
        let mut x: usize = 0;
        while x < WIDTH as usize
            invariant
                y < HEIGHT,
                x <= WIDTH,
                forall|c: int| 0 <= c < x ==> #[trigger] self.map.tiles@[c]@[y as int].is_set,
            decreases WIDTH - x,
        {
            if !self.map.tiles[x][y].is_set {
                assert(!self.map.rows()[y as int][x as int]);
                return false;
            }
            x += 1;
        }
        true
    }

    /// Removes every full row, from the top down, so that the rows above each
    /// one fall by the number of full rows cleared below them.
    pub fn clear_complete_lines(&mut self)
        requires
            old(self).map.wf(),
        ensures
            final(self).map.wf(),
            final(self).map.rows() == cleared_rows(old(self).map.rows()),
            final(self).falling_piece == old(self).falling_piece,
    {
        let ghost start = self.map.rows();
        let mut i: usize = 0;
        while i < HEIGHT as usize
            invariant
                i <= HEIGHT,
                start == old(self).map.rows(),
                self.map.wf(),
                self.falling_piece == old(self).falling_piece,
                self.map.rows().len() == HEIGHT,
                self.map.rows().take(i as int) == cleared_rows(start.take(i as int)),
                self.map.rows().skip(i as int) == start.skip(i as int),
            decreases HEIGHT - i,
        {
            let ghost before = self.map.rows();
            assert(before[i as int] == start[i as int]) by {
                assert(before.skip(i as int)[0] == start.skip(i as int)[0]);
            }
            if self.is_line_complete(i) {
                self.clear_line(i);
                proof { lemma_clear_step(start, before, self.map.rows(), i as int, true); }
            } else {
                proof { lemma_clear_step(start, before, self.map.rows(), i as int, false); }
            }
            i += 1;
        }
        assert(self.map.rows().take(HEIGHT as int) == self.map.rows());
        assert(start.take(HEIGHT as int) == start);
    }

    /// Whether the falling piece could move down one row.
    pub fn can_move_down(&self) -> (r: bool)
        requires
            self.inv(),
        ensures
            r == valid_positions(self.map, shifted(self.falling_piece@.tiles, (0, 1))),
    {
        let tiles = &self.falling_piece.tiles;
        let ghost moved = shifted(self.falling_piece@.tiles, (0, 1));
        let mut i: usize = 0;
        while i < tiles.len()
            invariant
                self.inv(),
                tiles == self.falling_piece.tiles,
                moved == shifted(self.falling_piece@.tiles, (0, 1)),
                0 <= i <= tiles.len(),
                valid_positions(self.map, moved.take(i as int)),
            decreases tiles.len() - i,
        {
            let tile = tiles[i];
            assert(on_board(self.falling_piece@.tiles[i as int]));
            assert(moved[i as int] == (tile.x as int, tile.y + 1));
            if tile.y == HEIGHT as i16 - 1 {
                return false;
            }
            if self.map.is_set(tile.plus(Tile::new(0, 1))) {
                return false;
            }
            assert(moved.take(i + 1) =~= moved.take(i as int).push(moved[i as int]));
            i += 1;
        }
        assert(moved.take(i as int) =~= moved);
        true
    }

    /// Moves the falling piece, tiles and pivot, by `delta`.
    pub fn move_piece(&mut self, delta: Tile)
        requires
            old(self).inv(),
            valid_positions(old(self).map, shifted(old(self).falling_piece@.tiles, delta@)),
        ensures
            final(self).inv(),
            final(self).piece_is_free(),
            final(self).falling_piece@ == translated(old(self).falling_piece@, delta@),
            final(self).map == old(self).map,
    {
        let ghost v = self.falling_piece@;
        proof { lemma_translate_keeps_box(v, delta@, self.map); }
        move_tiles(&mut self.falling_piece.tiles, delta);
        self.falling_piece.origin = self.falling_piece.origin.plus(delta);
        assert(self.falling_piece@.tiles == translated(v, delta@).tiles);
    }

    /// Moves the falling piece one column left when the cells there are free.
    pub fn move_left(&mut self)
        requires
            old(self).inv(),
        ensures
            final(self).inv(),
            final(self).map == old(self).map,
            final(self).falling_piece@ == shift_outcome(*old(self), (-1, 0)),
    {
        if can_move_left(self) {
            self.move_piece(Tile::new(-1, 0));
        }
    }

    /// Moves the falling piece one column right when the cells there are free.
    pub fn move_right(&mut self)
        requires
            old(self).inv(),
        ensures
            final(self).inv(),
            final(self).map == old(self).map,
            final(self).falling_piece@ == shift_outcome(*old(self), (1, 0)),
    {
        if can_move_right(self) {
            self.move_piece(Tile::new(1, 0));
        }
    }

    /// Tries a kick row on a turned piece: the piece takes the first offset
    /// that puts it on free cells and `true` is returned, or it stays as it
    /// was and `false` is returned.
    fn kick_piece(&self, piece: &mut Piece, tests_index: usize) -> (r: bool)
        requires
            tests_index < 8,
            forall|k: int|
                0 <= k < kick_trials(old(piece).bounding_box_size as int, tests_index as int).len()
                    ==> can_shift(
                    old(piece)@,
                    #[trigger] kick_trials(old(piece).bounding_box_size as int, tests_index as int)[k],
                ),
        ensures
            ({
                let trials = kick_trials(old(piece).bounding_box_size as int, tests_index as int);
                &&& r == exists|k: int| is_first_fit(self.map, old(piece)@.tiles, trials, k)
                &&& r ==> exists|k: int|
                    is_first_fit(self.map, old(piece)@.tiles, trials, k) && final(piece)@ == translated(
                        old(piece)@,
                        trials[k],
                    )
                &&& !r ==> *final(piece) == *old(piece)
                &&& !r ==> forall|j: int|
                    0 <= j < trials.len() ==> !fits_after(self.map, old(piece)@.tiles, #[trigger] trials[j])
            }),
    {
        let ghost trials = kick_trials(piece.bounding_box_size as int, tests_index as int);
        if piece.bounding_box_size == 3 {
            kick_piece_with(self, piece, size_3_kick_tests(tests_index))
        } else if piece.bounding_box_size == 4 {
            kick_piece_with(self, piece, size_4_kick_tests(tests_index))
        } else {
            assert(trials.len() == 0);
            false
        }
    }

    /// Turns the falling piece a quarter clockwise: the turned piece is kept if
    /// its cells are free, else it takes the first kick of the table row for the
    /// rotation index it had, and if none fits the piece does not move.
    pub fn try_rotate_clockwise(&mut self)
        requires
            old(self).inv(),
        ensures
            final(self).inv(),
            final(self).map == old(self).map,
            final(self).falling_piece@ == cw_outcome(*old(self)),
            old(self).piece_is_free() ==> final(self).piece_is_free(),
    {
        let ghost v = self.falling_piece@;
        let tests_index = self.falling_piece.rotation_index * 2;
        let mut rotated_piece = Piece {
            tiles: self.falling_piece.tiles.clone(),
            origin: self.falling_piece.origin,
            bounding_box_size: self.falling_piece.bounding_box_size,
            rotation_index: self.falling_piece.rotation_index,
        };
        assert(rotated_piece.tiles@ =~= self.falling_piece.tiles@);
        proof {
            lemma_four_quarter_turns(v);
            lemma_kicks_apply(v, turned_cw(v), tests_index as int);
        }
        rotate_clockwise(&mut rotated_piece);
        self.commit_rotation(rotated_piece, tests_index);
    }

    /// Turns the falling piece a quarter counterclockwise, with kicks as
    /// `try_rotate_clockwise` does.
    pub fn try_rotate_counterclockwise(&mut self)
        requires
            old(self).inv(),
        ensures
            final(self).inv(),
            final(self).map == old(self).map,
            final(self).falling_piece@ == ccw_outcome(*old(self)),
            old(self).piece_is_free() ==> final(self).piece_is_free(),
    {
        let ghost v = self.falling_piece@;
        let tests_index = self.falling_piece.rotation_index * 2 + 1;
        let mut rotated_piece = Piece {
            tiles: self.falling_piece.tiles.clone(),
            origin: self.falling_piece.origin,
            bounding_box_size: self.falling_piece.bounding_box_size,
            rotation_index: self.falling_piece.rotation_index,
        };
        assert(rotated_piece.tiles@ =~= self.falling_piece.tiles@);
        proof {
            lemma_four_quarter_turns(v);
            lemma_kicks_apply(v, turned_ccw(v), tests_index as int);
        }
        rotate_counterclockwise(&mut rotated_piece);
        self.commit_rotation(rotated_piece, tests_index);
    }

    /// Makes a turned piece the falling piece if it, or one of its kicks, is
    /// on free cells.
    fn commit_rotation(&mut self, rotated_piece: Piece, tests_index: usize)
        requires
            old(self).inv(),
            tests_index < 8,
            rotated_piece.tiles.len() == 4,
            rotated_piece.rotation_index < 4,
            rotated_piece.bounding_box_size == old(self).falling_piece.bounding_box_size,
            in_box(rotated_piece@),
            forall|k: int|
                0 <= k < kick_trials(rotated_piece.bounding_box_size as int, tests_index as int).len()
                    ==> can_shift(
                    rotated_piece@,
                    #[trigger] kick_trials(rotated_piece.bounding_box_size as int, tests_index as int)[k],
                ),
        ensures
            final(self).inv(),
            final(self).map == old(self).map,
            final(self).falling_piece@ == kicked(
                old(self).map,
                old(self).falling_piece@,
                rotated_piece@,
                rotation_trials(rotated_piece.bounding_box_size as int, tests_index as int),
            ),
            old(self).piece_is_free() ==> final(self).piece_is_free(),
    {
        let ghost v = self.falling_piece@;
        let ghost t = rotated_piece@;
        let ghost kicks = kick_trials(rotated_piece.bounding_box_size as int, tests_index as int);
        let ghost trials = rotation_trials(rotated_piece.bounding_box_size as int, tests_index as int);
        let mut rotated_piece = rotated_piece;
        assert(shifted(t.tiles, (0, 0)) =~= t.tiles);
        assert(translated(t, (0, 0)).tiles =~= t.tiles);
        assert(trials[0] == (0int, 0int));
        if !are_valid_positions(&self.map, &rotated_piece.tiles) {
            if !self.kick_piece(&mut rotated_piece, tests_index) {
                assert(!exists|k: int| is_first_fit(self.map, t.tiles, trials, k)) by {
                    assert forall|k: int| !is_first_fit(self.map, t.tiles, trials, k) by {
                        if k == 0 {
                            assert(!fits_after(self.map, t.tiles, trials[0]));
                        }
                        if 0 < k < trials.len() {
                            assert(trials[k] == kicks[k - 1]);
                            assert(!fits_after(self.map, t.tiles, kicks[k - 1]));
                        }
                    }
                }
                return;
            }
            let ghost k = choose|k: int|
                is_first_fit(self.map, t.tiles, kicks, k) && rotated_piece@ == translated(t, kicks[k]);
            assert(trials[k + 1] == kicks[k]);
            assert(is_first_fit(self.map, t.tiles, trials, k + 1)) by {
                assert forall|j: int| 0 <= j < k + 1 implies !fits_after(
                    self.map,
                    t.tiles,
                    #[trigger] trials[j],
                ) by {
                    if j > 0 {
                        assert(trials[j] == kicks[j - 1]);
                    }
                }
            }
            proof { lemma_translate_keeps_box(t, kicks[k], self.map); }
        } else {
            assert(is_first_fit(self.map, t.tiles, trials, 0));
            proof { lemma_translate_keeps_box(t, (0, 0), self.map); }
        }
        self.falling_piece = rotated_piece;
    }

    /// Marks every cell under the falling piece as settled.
    pub fn settle_piece(&mut self)
        requires
            old(self).inv(),
        ensures
            final(self).map.wf(),
            final(self).map.rows() == settled_rows(old(self).map.rows(), old(self).falling_piece@.tiles),
            final(self).falling_piece == old(self).falling_piece,
    {
        let ghost ps = self.falling_piece@.tiles;
        let mut i: usize = 0;
        while i < self.falling_piece.tiles.len()
            invariant
                old(self).inv(),
                self.falling_piece == old(self).falling_piece,
                ps == self.falling_piece@.tiles,
                0 <= i <= 4,
                forall|x: int, y: int|
                    0 <= x < WIDTH && 0 <= y < HEIGHT ==> (#[trigger] self.map.tiles@[x]@[y]).tile
                        == old(self).map.tiles@[x]@[y].tile,
                forall|x: int, y: int|
                    0 <= x < WIDTH && 0 <= y < HEIGHT ==> (#[trigger] self.map.tiles@[x]@[y]).is_set
                        == (old(self).map.tiles@[x]@[y].is_set || ps.take(i as int).contains((x, y))),
            decreases 4 - i,
        {
            let tile = self.falling_piece.tiles[i];
            assert(on_board(ps[i as int]));
            assert(ps.take(i + 1) =~= ps.take(i as int).push(tile@));
            self.map.tiles[tile.x as usize][tile.y as usize].is_set = true;
            assert forall|x: int, y: int| 0 <= x < WIDTH && 0 <= y < HEIGHT implies (
            #[trigger] self.map.tiles@[x]@[y]).is_set == (old(self).map.tiles@[x]@[y].is_set
                || ps.take(i + 1).contains((x, y))) by {
                let prefix = ps.take(i as int);
                if prefix.contains((x, y)) {
                    let j = choose|j: int| 0 <= j < prefix.len() && prefix[j] == (x, y);
                    assert(ps.take(i + 1)[j] == (x, y));
                }
                let longer = ps.take(i + 1);
                if longer.contains((x, y)) && (x, y) != tile@ {
                    let j = choose|j: int| 0 <= j < longer.len() && longer[j] == (x, y);
                    assert(prefix[j] == (x, y));
                }
                if (x, y) == tile@ {
                    assert(ps.take(i + 1)[i as int] == (x, y));
                }
            }
            i += 1;
        }
        assert(ps.take(i as int) =~= ps);
        assert(self.map.rows() =~~= settled_rows(old(self).map.rows(), ps));
    }
}

/// Whether the falling piece could move one column left.
pub fn can_move_left(state: &GameState) -> (r: bool)
    requires
        state.inv(),
    ensures
        r == valid_positions(state.map, shifted(state.falling_piece@.tiles, (-1, 0))),
{
    let tiles = &state.falling_piece.tiles;
    let ghost moved = shifted(state.falling_piece@.tiles, (-1, 0));
    let mut i: usize = 0;
    while i < tiles.len()
        invariant
            state.inv(),
            tiles == state.falling_piece.tiles,
            moved == shifted(state.falling_piece@.tiles, (-1, 0)),
            0 <= i <= tiles.len(),
            valid_positions(state.map, moved.take(i as int)),
        decreases tiles.len() - i,
    {
        let tile = tiles[i];
        assert(on_board(state.falling_piece@.tiles[i as int]));
        assert(moved[i as int] == (tile.x - 1, tile.y as int));
        if tile.x == 0 {
            return false;
        }
        if state.map.is_set(tile.plus(Tile::new(-1, 0))) {
            return false;
        }
        assert(moved.take(i + 1) =~= moved.take(i as int).push(moved[i as int]));
        i += 1;
    }
    assert(moved.take(i as int) =~= moved);
    true
}

/// Whether the falling piece could move one column right.
pub fn can_move_right(state: &GameState) -> (r: bool)
    requires
        state.inv(),
    ensures
        r == valid_positions(state.map, shifted(state.falling_piece@.tiles, (1, 0))),
{
    let tiles = &state.falling_piece.tiles;
    let ghost moved = shifted(state.falling_piece@.tiles, (1, 0));
    let mut i: usize = 0;
    while i < tiles.len()
        invariant
            state.inv(),
            tiles == state.falling_piece.tiles,
            moved == shifted(state.falling_piece@.tiles, (1, 0)),
            0 <= i <= tiles.len(),
            valid_positions(state.map, moved.take(i as int)),
        decreases tiles.len() - i,
    {
        let tile = tiles[i];
        assert(on_board(state.falling_piece@.tiles[i as int]));
        assert(moved[i as int] == (tile.x + 1, tile.y as int));
        if tile.x + 1 >= WIDTH as i16 {
            return false;
        }
        if state.map.is_set(tile.plus(Tile::new(1, 0))) {
            return false;
        }
        assert(moved.take(i + 1) =~= moved.take(i as int).push(moved[i as int]));
        i += 1;
    }
    assert(moved.take(i as int) =~= moved);
    true
}

/// A piece moved onto free cells of the board keeps its rotation square, and
/// the square and the tiles stay representable.
proof fn lemma_translate_keeps_box(v: PieceView, d: (int, int), map: Board)
    requires
        v.tiles.len() == 4,
        in_box(v),
        2 <= v.size <= 4,
        valid_positions(map, shifted(v.tiles, d)),
    ensures
        in_box(translated(v, d)),
        all_fit(shifted(v.tiles, d)),
        all_on_board(translated(v, d).tiles),
        fits_i16(point_add(v.origin, d)),
{
    let t = translated(v, d);
    assert(on_board(t.tiles[0]));
    assert(0 <= v.tiles[0].0 - v.origin.0 < v.size);
    assert(0 <= v.tiles[0].1 - v.origin.1 < v.size);
    assert forall|i: int| 0 <= i < t.tiles.len() implies {
        &&& on_board(#[trigger] t.tiles[i])
        &&& fits_i16(t.tiles[i])
        &&& 0 <= t.tiles[i].0 - t.origin.0 < t.size
        &&& 0 <= t.tiles[i].1 - t.origin.1 < t.size
    } by {
        assert(on_board(shifted(v.tiles, d)[i]));
        assert(0 <= v.tiles[i].0 - v.origin.0 < v.size);
    }
}

/// Tries each offset in turn on a turned piece: the piece takes the first
/// offset that puts it on free cells and `true` is returned, or it stays as it
/// was and `false` is returned.
pub fn kick_piece_with(state: &GameState, piece: &mut Piece, test_delta_tiles: [Tile; 4]) -> (r: bool)
    requires
        forall|k: int| 0 <= k < 4 ==> can_shift(old(piece)@, #[trigger] points(test_delta_tiles@)[k]),
    ensures
        r == exists|k: int| is_first_fit(state.map, old(piece)@.tiles, points(test_delta_tiles@), k),
        r ==> exists|k: int|
            is_first_fit(state.map, old(piece)@.tiles, points(test_delta_tiles@), k)
                && final(piece)@ == translated(old(piece)@, points(test_delta_tiles@)[k]),
        !r ==> *final(piece) == *old(piece),
        !r ==> forall|j: int|
            0 <= j < 4 ==> !fits_after(state.map, old(piece)@.tiles, #[trigger] points(test_delta_tiles@)[j]),
{
    let ghost trials = points(test_delta_tiles@);
    let ghost ps = piece@.tiles;
    let mut i: usize = 0;
    while i < 4
        invariant
            i <= 4,
            trials == points(test_delta_tiles@),
            ps == old(piece)@.tiles,
            *piece == *old(piece),
            forall|k: int| 0 <= k < 4 ==> can_shift(old(piece)@, #[trigger] points(test_delta_tiles@)[k]),
            forall|j: int| 0 <= j < i ==> !fits_after(state.map, ps, #[trigger] trials[j]),
        decreases 4 - i,
    {
        let test_delta_tile = test_delta_tiles[i];
        assert(trials[i as int] == test_delta_tile@);
        assert(can_shift(old(piece)@, trials[i as int]));
        let mut test_tiles = piece.tiles.clone();
        assert(test_tiles@ =~= piece.tiles@);
        move_tiles(&mut test_tiles, test_delta_tile);
        if are_valid_positions(&state.map, &test_tiles) {
            piece.tiles = test_tiles;
            piece.origin = piece.origin.plus(test_delta_tile);
            assert(is_first_fit(state.map, ps, trials, i as int));
            return true;
        }
        i += 1;
    }
    assert forall|k: int| !is_first_fit(state.map, ps, trials, k) by {
        if 0 <= k < 4 {
            assert(!fits_after(state.map, ps, trials[k]));
        }
    }
    false
}

/// The kick offsets move a piece by at most two cells on each axis.
proof fn lemma_kicks_small(size: int, row: int)
    requires
        0 <= row < 8,
    ensures
        size == 3 || size == 4 ==> kick_trials(size, row).len() == 4,
        forall|k: int|
            0 <= k < kick_trials(size, row).len() ==> -2 <= (#[trigger] kick_trials(size, row)[k]).0 <= 2
                && -2 <= kick_trials(size, row)[k].1 <= 2,
{
}

/// A turned piece of a well-formed state can be moved by any of its kicks.
proof fn lemma_kicks_apply(v: PieceView, t: PieceView, row: int)
    requires
        0 <= row < 8,
        v.tiles.len() == 4,
        in_box(v),
        all_on_board(v.tiles),
        t.origin == v.origin,
        t.size == v.size,
        in_box(t),
    ensures
        forall|k: int|
            0 <= k < kick_trials(t.size, row).len() ==> can_shift(t, #[trigger] kick_trials(t.size, row)[k]),
{
    lemma_kicks_small(t.size, row);
    assert(on_board(v.tiles[0]));
    assert(0 <= v.tiles[0].0 - v.origin.0 < v.size);
    assert forall|k: int| 0 <= k < kick_trials(t.size, row).len() implies can_shift(
        t,
        #[trigger] kick_trials(t.size, row)[k],
    ) by {
        let d = kick_trials(t.size, row)[k];
        assert forall|i: int| 0 <= i < t.tiles.len() implies #[trigger] fits_i16(shifted(t.tiles, d)[i]) by {
            assert(0 <= t.tiles[i].0 - t.origin.0 < t.size);
        }
    }
}

/// When the settled piece completes a single row, clearing removes just that
/// row: it takes the contents of the row above it, the rows below it stay,
/// and the top row becomes empty.
pub proof fn lemma_single_full_row_cleared(rows: Seq<Seq<bool>>, line: int)
    requires
        0 <= line < rows.len(),
        full_row(rows[line]),
        forall|y: int| 0 <= y < rows.len() && y != line ==> !full_row(#[trigger] rows[y]),
    ensures
        cleared_rows(rows) == without_row(rows, line),
        0 < line ==> cleared_rows(rows)[line] == rows[line - 1],
        forall|y: int| line < y < rows.len() ==> #[trigger] cleared_rows(rows)[y] == rows[y],
        cleared_rows(rows)[0] == Seq::new(WIDTH as nat, |x: int| false),
{
    let pred = |r: Seq<bool>| !full_row(r);
    let above = rows.take(line);
    let below = rows.skip(line + 1);
    assert(rows =~= above + seq![rows[line]] + below);
    Seq::filter_distributes_over_add(above + seq![rows[line]], below, pred);
    Seq::filter_distributes_over_add(above, seq![rows[line]], pred);
    lemma_filter_keeps_all(above, pred);
    lemma_filter_keeps_all(below, pred);
    seq![rows[line]].drop_last().lemma_filter_push(rows[line], pred);
    assert(seq![rows[line]].drop_last() =~= Seq::<Seq<bool>>::empty());
    assert(seq![rows[line]].drop_last().push(rows[line]) =~= seq![rows[line]]);
    reveal(Seq::filter);
    assert(Seq::<Seq<bool>>::empty().filter(pred) =~= Seq::<Seq<bool>>::empty());
    let kept = rows.filter(pred);
    assert(kept =~= above + below);
    assert(cleared_rows(rows) =~= without_row(rows, line));
}

/// Filtering by a predicate that every element meets keeps the sequence.
proof fn lemma_filter_keeps_all(s: Seq<Seq<bool>>, pred: spec_fn(Seq<bool>) -> bool)
    requires
        forall|i: int| 0 <= i < s.len() ==> pred(#[trigger] s[i]),
    ensures
        s.filter(pred) == s,
    decreases s.len(),
{
    if s.len() > 0 {
        let init = s.drop_last();
        assert forall|i: int| 0 <= i < init.len() implies pred(#[trigger] init[i]) by {
            assert(init[i] == s[i]);
        }
        lemma_filter_keeps_all(init, pred);
        init.lemma_filter_push(s.last(), pred);
        assert(init.push(s.last()) =~= s);
    } else {
        reveal(Seq::filter);
    }
}

proof fn lemma_clear_step(
    start: Seq<Seq<bool>>,
    before: Seq<Seq<bool>>,
    after: Seq<Seq<bool>>,
    i: int,
    full: bool,
)
    requires
        0 <= i < start.len(),
        before.len() == start.len(),
        before.take(i) == cleared_rows(start.take(i)),
        before.skip(i) == start.skip(i),
        before[i] == start[i],
        full == full_row(start[i]),
        full ==> after == without_row(before, i),
        !full ==> after == before,
    ensures
        after.len() == start.len(),
        after.take(i + 1) == cleared_rows(start.take(i + 1)),
        after.skip(i + 1) == start.skip(i + 1),
{
    let pred = |r: Seq<bool>| !full_row(r);
    let prefix = start.take(i);
    assert(start.take(i + 1) == prefix.push(start[i]));
    prefix.lemma_filter_push(start[i], pred);
    let kept = prefix.filter(pred);
    prefix.lemma_filter_len(pred);
    start.take(i + 1).lemma_filter_len(pred);
    if full {
        assert(start.take(i + 1).filter(pred) == kept);
        assert(after.take(i + 1) =~= empty_rows(1) + before.take(i));
        assert(empty_rows(1) + empty_rows((i - kept.len()) as nat) =~= empty_rows(
            (i + 1 - kept.len()) as nat,
        ));
        assert(after.take(i + 1) =~= cleared_rows(start.take(i + 1)));
        assert(after.skip(i + 1) =~= before.skip(i + 1));
        assert(before.skip(i + 1) =~= before.skip(i).skip(1));
        assert(start.skip(i + 1) =~= start.skip(i).skip(1));
    } else {
        assert(start.take(i + 1).filter(pred) == kept.push(start[i]));
        assert(after.take(i + 1) =~= before.take(i).push(before[i]));
        assert(after.take(i + 1) =~= cleared_rows(start.take(i + 1)));
        assert(after.skip(i + 1) =~= before.skip(i).skip(1));
        assert(start.skip(i + 1) =~= start.skip(i).skip(1));
    }
}

} // verus!
