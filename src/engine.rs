//! The game: spawning pieces, applying commands and gravity, one frame at a time.

use crate::drawing::Drawing;
use crate::game::{
    all_on_board, are_valid_positions, can_fall, ccw_outcome, cw_outcome, empty_rows, landed_rows,
    on_board, shift_outcome, Board, Game, GameState, MapTile, HEIGHT, WIDTH,
};
use crate::input::{InputResult, InputSource};
use crate::pieces::{
    all_fit, all_pieces, catalog_shape, in_box, translated, Piece, PieceType, PieceTypeSelector,
    PieceView,
};
use crate::tiles::{fits_i16, Tile};
use crate::time::{gravity_due, is_gravity_due, Clock, ClockInstant};
use vstd::prelude::*;

verus! {

/// Upper bound on the commands taken from the input source in one frame; any
/// beyond it stay pending for the next frame.
pub const MAX_COMMANDS_PER_FRAME: u64 = u64::MAX;

/// How a frame ended.
#[derive(Clone, Copy, PartialEq, Eq, Structural, Debug)]
pub enum FrameResult {
    GameInProgress,
    PlayerLost,
    GameQuitRequested,
}

/// Leftmost column of a new piece whose rotation square has side `size`, so
/// that the square sits in the middle of the board.
pub open spec fn spawn_column(size: int) -> int {
    WIDTH as int / 2 - (size + 1) / 2
}

/// A catalog shape placed where new pieces appear.
pub open spec fn spawned(v: PieceView) -> PieceView {
    translated(v, (spawn_column(v.size), 0))
}

/// Whether the piece is a catalog shape where new pieces appear.
pub open spec fn is_spawn(v: PieceView) -> bool {
    exists|i: int| 0 <= i < 7 && v == spawned(catalog_shape(i))
}

/// Every shape of the catalog appears on the board, inside its rotation square.
proof fn lemma_spawn_shapes(i: int)
    requires
        0 <= i < 7,
    ensures
        spawned(catalog_shape(i)).tiles.len() == 4,
        2 <= catalog_shape(i).size <= 4,
        catalog_shape(i).rotation == 0,
        in_box(spawned(catalog_shape(i))),
        all_on_board(spawned(catalog_shape(i)).tiles),
        all_fit(spawned(catalog_shape(i)).tiles),
        in_box(catalog_shape(i)),
{
    let c = catalog_shape(i);
    let p = spawned(c);
    assert(c.tiles.len() == 4);
    assert forall|k: int| 0 <= k < 4 implies {
        &&& 0 <= #[trigger] c.tiles[k].0 - c.origin.0 < c.size
        &&& 0 <= c.tiles[k].1 - c.origin.1 < c.size
        &&& 0 <= c.tiles[k].0 < c.size
        &&& 0 <= c.tiles[k].1 < 2
    } by {}
    assert forall|k: int| 0 <= k < 4 implies on_board(#[trigger] p.tiles[k]) by {}
}

/// The game after the falling piece is pushed down one row: it moves down if
/// it can; else it settles, full rows are cleared and a new piece appears,
/// and the game is lost when that piece covers a settled cell.
#[verifier::opaque]
pub open spec fn dropped(s: GameState, t: GameState, lost: bool) -> bool {
    if can_fall(s) {
        &&& t.map == s.map
        &&& t.falling_piece@ == translated(s.falling_piece@, (0, 1))
        &&& !lost
    } else {
        &&& t.map.rows() == landed_rows(s)
        &&& is_spawn(t.falling_piece@)
        &&& lost == !t.piece_is_free()
    }
}

/// The game after one command, and whether it is lost: the moves and turns
/// of the falling piece, a soft drop, or a request to quit, which changes
/// nothing.
pub open spec fn command_step(s: GameState, input: InputResult, t: GameState, lost: bool) -> bool {
    match input {
        InputResult::MoveLeft => t.map == s.map && t.falling_piece@ == shift_outcome(s, (-1, 0)) && !lost,
        InputResult::MoveRight => t.map == s.map && t.falling_piece@ == shift_outcome(s, (1, 0)) && !lost,
        InputResult::MoveDown => dropped(s, t, lost),
        InputResult::RotateClockwise => t.map == s.map && t.falling_piece@ == cw_outcome(s) && !lost,
        InputResult::RotateCounterClockwise => t.map == s.map && t.falling_piece@ == ccw_outcome(s)
            && !lost,
        InputResult::ExitGame => t == s && !lost,
    }
}

/// `states[k + 1]` follows from `states[k]` by `inputs[k]`; only the last
/// command may ask to quit, and only the last may lose the game, as `lost`
/// says.
#[verifier::opaque]
pub open spec fn command_trace(states: Seq<GameState>, inputs: Seq<InputResult>, lost: bool) -> bool {
    &&& states.len() == inputs.len() + 1
    &&& forall|k: int|
        0 <= k < inputs.len() ==> command_step(
            #[trigger] states[k],
            inputs[k],
            states[k + 1],
            k == inputs.len() - 1 && lost,
        )
    &&& forall|k: int| 0 <= k < inputs.len() - 1 ==> #[trigger] inputs[k] != InputResult::ExitGame
}

/// A trace holds one more state than commands, and only its last command may
/// ask to quit.
proof fn lemma_command_trace_shape(states: Seq<GameState>, inputs: Seq<InputResult>, lost: bool)
    requires
        command_trace(states, inputs, lost),
    ensures
        states.len() == inputs.len() + 1,
        forall|k: int| 0 <= k < inputs.len() - 1 ==> #[trigger] inputs[k] != InputResult::ExitGame,
{
    reveal(command_trace);
}

/// One frame from `s` to `t`, given the commands taken and the states they
/// led through: a frame ends on a request to quit, or on a loss during the
/// commands, and otherwise lets gravity push the piece down at most once.
pub open spec fn frame_trace(
    s: GameState,
    states: Seq<GameState>,
    inputs: Seq<InputResult>,
    drained_lost: bool,
    t: GameState,
    lost: bool,
    r: FrameResult,
) -> bool {
    &&& command_trace(states, inputs, drained_lost)
    &&& states[0] == s
    &&& (r == FrameResult::PlayerLost) == lost
    &&& if r == FrameResult::GameQuitRequested {
        &&& inputs.len() > 0
        &&& inputs.last() == InputResult::ExitGame
        &&& t == states.last()
    } else {
        &&& forall|k: int| 0 <= k < inputs.len() ==> #[trigger] inputs[k] != InputResult::ExitGame
        &&& if drained_lost {
            t == states.last() && lost
        } else {
            (t == states.last() && !lost) || dropped(states.last(), t, lost)
        }
    }
}

/// Whether the shape is one of the catalog's.
pub open spec fn is_catalog_shape(v: PieceView) -> bool {
    exists|i: int| 0 <= i < 7 && v == catalog_shape(i)
}

/// The piece made from a catalog shape: its square centred on the top of the
/// board, at rotation index 0.
pub fn spawn(piece_type: &PieceType) -> (r: Piece)
    requires
        is_catalog_shape(piece_type@),
    ensures
        r@ == spawned(piece_type@),
        r.tiles.len() == 4,
{
    let ghost i = choose|i: int| 0 <= i < 7 && piece_type@ == catalog_shape(i);
    let ghost c = catalog_shape(i);
    proof { lemma_spawn_shapes(i); }
    let start_x: i16 = WIDTH as i16 / 2 - (piece_type.bounding_box_size + 1) / 2;
    assert(start_x == spawn_column(c.size));
    let shift = Tile::new(start_x, 0);
    let mut tiles: Vec<Tile> = Vec::new();
    let mut k: usize = 0;
    while k < 4
        invariant
            k <= 4,
            piece_type@ == c,
            shift@ == (spawn_column(c.size), 0int),
            all_fit(spawned(c).tiles),
            spawned(c).tiles.len() == 4,
            tiles@.len() == k,
            forall|j: int| 0 <= j < k ==> #[trigger] tiles@[j]@ == spawned(c).tiles[j],
        decreases 4 - k,
    {
        assert(fits_i16(spawned(c).tiles[k as int]));
        assert(piece_type@.tiles[k as int] == piece_type.tiles@[k as int]@);
        tiles.push(piece_type.tiles[k].plus(shift));
        k += 1;
    }
    let r = Piece {
        tiles,
        origin: piece_type.origin.plus(shift),
        bounding_box_size: piece_type.bounding_box_size,
        rotation_index: 0,
    };
    assert(r@.tiles =~= spawned(c).tiles);
    r
}

impl<TInput: InputSource, TPTS: PieceTypeSelector, TCI: ClockInstant, TC: Clock<TCI>, TD: Drawing> Game<
    TInput,
    TPTS,
    TCI,
    TC,
    TD,
> {
    /// The state is well formed, and while the game goes on the falling piece
    /// covers no settled cell.
    pub open spec fn wf(&self) -> bool {
        &&& self.state.inv()
        &&& !self.ended ==> self.state.piece_is_free()
    }

    /// The collaborators other than the renderer are those of `other`.
    pub open spec fn same_sources(&self, other: &Self) -> bool {
        &&& self.input == other.input
        &&& self.piece_type_selector == other.piece_type_selector
        &&& self.clock == other.clock
    }

    /// A new piece of a shape the selector picks, centred at the top.
    pub fn create_piece(piece_type_selector: &TPTS) -> (r: Piece)
        ensures
            is_spawn(r@),
            r.tiles.len() == 4,
    {
        let catalog = all_pieces();
        let piece_type = piece_type_selector.select_piece_type(&catalog);
        assert(is_catalog_shape(piece_type@));
        spawn(piece_type)
    }

    /// An empty board whose cells know their coordinates.
    pub fn initialize_map() -> (r: Board)
        ensures
            r.wf(),
            r.rows() == empty_rows(HEIGHT as nat),
    {
        let mut tiles = [[MapTile { tile: Tile::new(0, 0), is_set: false };20];10];
        let mut x: usize = 0;
        while x < WIDTH as usize
            invariant
                x <= WIDTH,
                forall|c: int, y: int|
                    0 <= c < WIDTH && 0 <= y < HEIGHT ==> !(#[trigger] tiles@[c]@[y]).is_set,
                forall|c: int, y: int|
                    0 <= c < x && 0 <= y < HEIGHT ==> (#[trigger] tiles@[c]@[y]).tile@ == (c, y),
            decreases WIDTH - x,
        {
            let mut y: usize = 0;
            while y < HEIGHT as usize
                invariant
                    x < WIDTH,
                    y <= HEIGHT,
                    forall|c: int, r: int|
                        0 <= c < WIDTH && 0 <= r < HEIGHT ==> !(#[trigger] tiles@[c]@[r]).is_set,
                    forall|c: int, r: int|
                        0 <= c < x && 0 <= r < HEIGHT ==> (#[trigger] tiles@[c]@[r]).tile@ == (c, r),
                    forall|r: int| 0 <= r < y ==> (#[trigger] tiles@[x as int]@[r]).tile@ == (x as int, r),
                decreases HEIGHT - y,
            {
                tiles[x][y].tile = Tile::new(x as i16, y as i16);
                y += 1;
            }
            x += 1;
        }
        let r = Board { tiles };
        assert(r.rows() =~~= empty_rows(HEIGHT as nat));
        r
    }

    /// A game on an empty board with a new piece at the top.
    pub fn new(input: TInput, piece_type_selector: TPTS, clock: TC, drawing: TD) -> (r: Game<
        TInput,
        TPTS,
        TCI,
        TC,
        TD,
    >)
        ensures
            r.wf(),
            !r.ended,
            r.state.map.rows() == empty_rows(HEIGHT as nat),
            is_spawn(r.state.falling_piece@),
            r.input == input,
            r.piece_type_selector == piece_type_selector,
            r.clock == clock,
            r.drawing == drawing,
    {
        let now = clock.now();
        let map = Self::initialize_map();
        let falling_piece = Self::create_piece(&piece_type_selector);
        let r = Game {
            state: GameState { map, falling_piece },
            clock,
            last_move_instant: now,
            ended: false,
            input,
            piece_type_selector,
            drawing,
        };
        proof { r.lemma_spawn_is_well_formed(); }
        r
    }

    /// A new piece is well formed, and on an empty board it is free.
    proof fn lemma_spawn_is_well_formed(&self)
        requires
            self.state.map.wf(),
            is_spawn(self.state.falling_piece@),
            self.state.falling_piece.tiles.len() == 4,
        ensures
            self.state.inv(),
            self.state.map.rows() == empty_rows(HEIGHT as nat) ==> self.state.piece_is_free(),
    {
        let i = choose|i: int| 0 <= i < 7 && self.state.falling_piece@ == spawned(catalog_shape(i));
        lemma_spawn_shapes(i);
        if self.state.map.rows() == empty_rows(HEIGHT as nat) {
            let ps = self.state.falling_piece@.tiles;
            assert forall|k: int| 0 <= k < ps.len() implies on_board(#[trigger] ps[k]) && !self.state.map.occupied(ps[k]) by {
                assert(on_board(ps[k]));
                assert(self.state.map.rows()[ps[k].1][ps[k].0] == self.state.map.occupied(ps[k]));
            }
        }
    }

    /// Pushes the falling piece down one row; when it cannot move it settles,
    /// full rows are cleared and a new piece appears, which ends the game if it
    /// covers a settled cell. A move restarts the gravity timer.
    pub fn fall_piece(&mut self)
        requires
            old(self).wf(),
            !old(self).ended,
        ensures
            final(self).wf(),
            final(self).same_sources(old(self)),
            final(self).drawing == old(self).drawing,
            dropped(old(self).state, final(self).state, final(self).ended),
    {
        reveal(dropped);
        if !self.state.can_move_down() {
            self.state.settle_piece();
            self.state.clear_complete_lines();
            self.state.falling_piece = Self::create_piece(&self.piece_type_selector);
            proof { self.lemma_spawn_is_well_formed(); }
            if !are_valid_positions(&self.state.map, &self.state.falling_piece.tiles) {
                self.ended = true;
                return;
            }
            self.last_move_instant = self.clock.now();
            return;
        }
        self.state.move_piece(Tile::new(0, 1));
        self.last_move_instant = self.clock.now();
    }

    /// Pushes the falling piece down one row once more than the gravity
    /// interval has passed since its last downward move.
    fn apply_gravity(&mut self)
        requires
            old(self).wf(),
            !old(self).ended,
        ensures
            final(self).wf(),
            final(self).same_sources(old(self)),
            final(self).drawing == old(self).drawing,
            *final(self) == *old(self) || dropped(old(self).state, final(self).state, final(self).ended),
    {
        let now = self.clock.now();
        let elapsed_millis = self.last_move_instant.difference_millis(&now);
        self.gravity_step(elapsed_millis);
    }

    /// The gravity decision for `elapsed_millis` milliseconds since the last
    /// downward move: one push down when strictly more than the interval has
    /// passed, nothing otherwise.
    pub fn gravity_step(&mut self, elapsed_millis: u128)
        requires
            old(self).wf(),
            !old(self).ended,
        ensures
            final(self).wf(),
            final(self).same_sources(old(self)),
            final(self).drawing == old(self).drawing,
            is_gravity_due(elapsed_millis as int) ==> dropped(
                old(self).state,
                final(self).state,
                final(self).ended,
            ),
            !is_gravity_due(elapsed_millis as int) ==> *final(self) == *old(self),
    {
        if gravity_due(elapsed_millis) {
            self.fall_piece();
        }
    }

    /// What the frame does with one poll of the input source: `None` ends the
    /// taking of commands and changes nothing; a command is applied, and the
    /// taking stops when it asks to quit or loses the game.
    pub fn take_command(&mut self, polled: Option<InputResult>) -> (stop: bool)
        requires
            old(self).wf(),
            !old(self).ended,
        ensures
            final(self).wf(),
            final(self).same_sources(old(self)),
            final(self).drawing == old(self).drawing,
            polled is None ==> stop && *final(self) == *old(self),
            polled matches Some(c) ==> command_step(old(self).state, c, final(self).state, final(self).ended)
                && stop == (c == InputResult::ExitGame || final(self).ended),
    {
        match polled {
            Some(input) => {
                let quit = self.handle_input(input);
                quit || self.ended
            },
            None => true,
        }
    }

    /// Applies one command and reports whether it asks to quit.
    pub fn handle_input(&mut self, input: InputResult) -> (quit: bool)
        requires
            old(self).wf(),
            !old(self).ended,
        ensures
            final(self).wf(),
            final(self).same_sources(old(self)),
            final(self).drawing == old(self).drawing,
            quit == (input == InputResult::ExitGame),
            command_step(old(self).state, input, final(self).state, final(self).ended),
            input == InputResult::ExitGame ==> *final(self) == *old(self),
    {
        match input {
            InputResult::MoveLeft => {
                self.state.move_left();
                false
            },
            InputResult::MoveRight => {
                self.state.move_right();
                false
            },
            InputResult::MoveDown => {
                self.fall_piece();
                false
            },
            InputResult::RotateClockwise => {
                self.state.try_rotate_clockwise();
                false
            },
            InputResult::RotateCounterClockwise => {
                self.state.try_rotate_counterclockwise();
                false
            },
            InputResult::ExitGame => true,
        }
    }

    /// Takes pending commands and applies each in turn, until the source has
    /// none, a command asks to quit (reported by `true`; later commands are
    /// not taken) or the game is lost.
    fn read_input(&mut self) -> (quit: bool)
        requires
            old(self).wf(),
            !old(self).ended,
        ensures
            final(self).wf(),
            final(self).same_sources(old(self)),
            final(self).drawing == old(self).drawing,
            quit ==> !final(self).ended,
            exists|states: Seq<GameState>, inputs: Seq<InputResult>|
                {
                    &&& #[trigger] command_trace(states, inputs, final(self).ended)
                    &&& states[0] == old(self).state
                    &&& states.last() == final(self).state
                    &&& quit == (inputs.len() > 0 && inputs.last() == InputResult::ExitGame)
                },
    {
        reveal(command_trace);
        let ghost mut states: Seq<GameState> = seq![self.state];
        let ghost mut inputs: Seq<InputResult> = seq![];
        let mut taken: u64 = 0;
        while taken < MAX_COMMANDS_PER_FRAME
            invariant
                self.wf(),
                !self.ended,
                self.same_sources(old(self)),
                self.drawing == old(self).drawing,
                command_trace(states, inputs, false),
                states[0] == old(self).state,
                states.last() == self.state,
                inputs.len() == 0 || inputs.last() != InputResult::ExitGame,
            decreases MAX_COMMANDS_PER_FRAME - taken,
        {
            let polled = self.input.read_input();
            let stop = self.take_command(polled);
            if let Some(input) = polled {
                proof {
                    reveal(command_trace);
                    let ghost old_states = states;
                    let ghost old_inputs = inputs;
                    states = states.push(self.state);
                    inputs = inputs.push(input);
                    assert forall|k: int| 0 <= k < inputs.len() implies command_step(
                        #[trigger] states[k],
                        inputs[k],
                        states[k + 1],
                        k == inputs.len() - 1 && self.ended,
                    ) by {
                        if k < inputs.len() - 1 {
                            assert(states[k] == old_states[k]);
                            assert(states[k + 1] == old_states[k + 1]);
                            assert(inputs[k] == old_inputs[k]);
                        }
                    }
                    assert forall|k: int| 0 <= k < inputs.len() - 1 implies #[trigger] inputs[k]
                        != InputResult::ExitGame by {
                        assert(inputs[k] == old_inputs[k]);
                        if k == inputs.len() - 2 {
                            assert(old_inputs.last() == old_inputs[k]);
                        }
                    }
                    assert(command_trace(states, inputs, self.ended));
                }
                if stop {
                    return matches!(input, InputResult::ExitGame);
                }
            } else {
                return false;
            }
            taken += 1;
        }
        false
    }

    /// One frame: takes the pending commands, applies gravity, and hands the
    /// state to the renderer unless the frame ended the game. A game that is
    /// over stays over and is left as it is.
    pub fn run_frame(&mut self) -> (r: FrameResult)
        requires
            old(self).wf(),
        ensures
            final(self).wf(),
            final(self).same_sources(old(self)),
            old(self).ended ==> r == FrameResult::PlayerLost && *final(self) == *old(self),
            !old(self).ended ==> exists|
                states: Seq<GameState>,
                inputs: Seq<InputResult>,
                drained_lost: bool,
            |
                #[trigger] frame_trace(
                    old(self).state,
                    states,
                    inputs,
                    drained_lost,
                    final(self).state,
                    final(self).ended,
                    r,
                ),
            (r == FrameResult::PlayerLost) == final(self).ended,
            r == FrameResult::GameQuitRequested || r == FrameResult::PlayerLost ==> final(self).drawing
                == old(self).drawing,
    {
        if self.ended {
            return FrameResult::PlayerLost;
        }
        let ghost start = self.state;
        let quit = self.read_input();
        let ghost (states, inputs) = choose|states: Seq<GameState>, inputs: Seq<InputResult>|
            {
                &&& #[trigger] command_trace(states, inputs, self.ended)
                &&& states[0] == start
                &&& states.last() == self.state
                &&& quit == (inputs.len() > 0 && inputs.last() == InputResult::ExitGame)
            };
        let ghost drained_lost = self.ended;
        proof { lemma_command_trace_shape(states, inputs, drained_lost); }
        if quit {
            assert(frame_trace(
                start,
                states,
                inputs,
                drained_lost,
                self.state,
                self.ended,
                FrameResult::GameQuitRequested,
            ));
            return FrameResult::GameQuitRequested;
        }
        assert forall|k: int| 0 <= k < inputs.len() implies #[trigger] inputs[k] != InputResult::ExitGame by {
            if k < inputs.len() - 1 {
            } else {
                assert(inputs.last() == inputs[k]);
            }
        }
        if self.ended {
            assert(frame_trace(
                start,
                states,
                inputs,
                drained_lost,
                self.state,
                self.ended,
                FrameResult::PlayerLost,
            ));
            return FrameResult::PlayerLost;
        }
        self.apply_gravity();
        if self.ended {
            assert(frame_trace(
                start,
                states,
                inputs,
                drained_lost,
                self.state,
                self.ended,
                FrameResult::PlayerLost,
            ));
            return FrameResult::PlayerLost;
        }
        self.drawing.draw(&self.state);
        assert(frame_trace(
                start,
                states,
                inputs,
                drained_lost,
                self.state,
                self.ended,
                FrameResult::GameInProgress,
            ));
        FrameResult::GameInProgress
    }
}

} // verus!
