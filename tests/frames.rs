use std::cell::RefCell;
use std::time::Instant;
use tetris::drawing::NoopDrawing;
use tetris::engine::{spawn, FrameResult};
use tetris::game::{are_valid_positions, can_move_left, Game, GameState, HEIGHT, WIDTH};
use tetris::input::{convert_input, InputResult, InputSource, Key};
use tetris::pieces::{all_pieces, PieceType, PieceTypeSelector, RandomPieceTypeSelector};
use tetris::tiles::Tile;
use tetris::time::{gravity_due, ClockInstant, ManualClock, ManualClockInstant};

struct ManualInput<F> {
    next_input_func: RefCell<F>,
}

impl<F> InputSource for ManualInput<F>
where
    F: FnMut() -> Option<InputResult>,
{
    fn read_input(&self) -> Option<InputResult> {
        (self.next_input_func.borrow_mut())()
    }
}

struct ManualPieceTypeSelector {
    piece_index: usize,
}

impl PieceTypeSelector for ManualPieceTypeSelector {
    fn select_piece_type<'a>(&self, available_piece_types: &'a [PieceType; 7]) -> &'a PieceType {
        &available_piece_types[self.piece_index]
    }
}

type TestGame<F> = Game<ManualInput<F>, ManualPieceTypeSelector, ManualClockInstant, ManualClock, NoopDrawing>;

fn create_test_game<F>(next_input_func: F) -> TestGame<F>
where
    F: FnMut() -> Option<InputResult>,
{
    create_game_with_piece(next_input_func, 0)
}

fn create_game_with_piece<F>(next_input_func: F, piece_index: usize) -> TestGame<F>
where
    F: FnMut() -> Option<InputResult>,
{
    Game::new(
        ManualInput { next_input_func: RefCell::new(next_input_func) },
        ManualPieceTypeSelector { piece_index },
        ManualClock { now_milliseconds: 0 },
        NoopDrawing {},
    )
}

fn assert_line(state: &GameState, index: usize, is_set_values: [bool; WIDTH as usize]) {
    for i in 0..WIDTH as usize {
        assert_eq!(state.map.tiles[i][index].is_set, is_set_values[i]);
    }
}

fn line(state: &GameState, index: usize) -> Vec<bool> {
    (0..WIDTH as usize).map(|x| state.map.tiles[x][index].is_set).collect()
}

struct InputList(Vec<InputResult>);

impl InputList {
    fn pop_front(&mut self) -> Option<InputResult> {
        match self.0.len() {
            0 => None,
            _ => Some(self.0.remove(0)),
        }
    }

    fn push(&mut self, input: InputResult) {
        self.0.push(input);
    }

    fn push_many(&mut self, input: InputResult, count: u32) {
        for _ in 0..count {
            self.0.push(input);
        }
    }
}

#[test]
fn lost_game() {
    let mut game = create_test_game(|| None);

    let instant = Instant::now();

    loop {
        match game.run_frame() {
            FrameResult::GameInProgress => {}
            FrameResult::PlayerLost => break,
            _ => assert!(false),
        }

        let elapsed_millis = instant.elapsed().as_millis();
        game.clock.now_milliseconds = elapsed_millis * 1000;
    }
}

#[test]
fn quit_game() {
    let quit_game_input_func = || Some(InputResult::ExitGame);
    let mut game = create_test_game(quit_game_input_func);

    let result = game.run_frame();

    assert_eq!(result, FrameResult::GameQuitRequested);
}

#[test]
fn multiple_inputs_on_single_frame() {
    let mut input_queue = Vec::new();
    input_queue.push(InputResult::MoveLeft);
    input_queue.push(InputResult::MoveLeft);
    input_queue.push(InputResult::MoveLeft);

    let mut game = create_test_game(|| input_queue.pop());

    game.run_frame();

    let mut falling_piece_tiles = game.state.falling_piece.tiles.iter();
    assert!(falling_piece_tiles.any(|&tile| tile == Tile { x: 0, y: 0 }));
    assert!(falling_piece_tiles.any(|&tile| tile == Tile { x: 1, y: 0 }));
    assert!(falling_piece_tiles.any(|&tile| tile == Tile { x: 2, y: 0 }));
    assert!(falling_piece_tiles.any(|&tile| tile == Tile { x: 3, y: 0 }));
}

#[test]
fn clear_single_line() {
    let mut input_queue = InputList { 0: Vec::new() };
    // Planks appear on row 0 and turn upright into column 3.
    input_queue.push_many(InputResult::MoveLeft, 3);
    input_queue.push_many(InputResult::MoveDown, 20);
    input_queue.push_many(InputResult::MoveRight, 3);
    input_queue.push_many(InputResult::MoveDown, 20);
    input_queue.push(InputResult::RotateClockwise);
    input_queue.push(InputResult::MoveRight);
    input_queue.push_many(InputResult::MoveDown, 17);
    input_queue.push(InputResult::RotateClockwise);
    input_queue.push_many(InputResult::MoveRight, 2);
    input_queue.push_many(InputResult::MoveDown, 17);

    let mut game = create_test_game(|| input_queue.pop_front());

    game.run_frame();

    assert_line(&game.state, 19, [false, false, false, false, true, true, false, false, false, false]);
}

#[test]
fn clear_multiple_lines() {
    // Ten upright planks, one per column; each turns upright into column 3.
    let mut input_queue = InputList { 0: Vec::new() };
    for (input, count) in [
        (InputResult::MoveLeft, 3),
        (InputResult::MoveLeft, 2),
        (InputResult::MoveLeft, 1),
        (InputResult::MoveRight, 0),
        (InputResult::MoveRight, 1),
        (InputResult::MoveRight, 2),
        (InputResult::MoveRight, 3),
        (InputResult::MoveRight, 4),
        (InputResult::MoveRight, 5),
        (InputResult::MoveRight, 6),
    ] {
        input_queue.push(InputResult::RotateClockwise);
        input_queue.push_many(input, count);
        input_queue.push_many(InputResult::MoveDown, 17);
    }

    let mut game = create_test_game(|| input_queue.pop_front());

    game.run_frame();

    assert_line(&game.state, 16, [false, false, false, false, false, false, false, false, false, false]);
    assert_line(&game.state, 17, [false, false, false, false, false, false, false, false, false, false]);
    assert_line(&game.state, 18, [false, false, false, false, false, false, false, false, false, false]);
    assert_line(&game.state, 19, [false, false, false, false, false, false, false, false, false, false]);
}

#[test]
fn new_game_spawns_centred_piece_on_empty_board() {
    let game = create_game_with_piece(|| None, 0);
    assert!(!game.ended);
    for y in 0..HEIGHT as usize {
        assert_eq!(line(&game.state, y), vec![false; WIDTH as usize]);
        for x in 0..WIDTH as usize {
            assert_eq!(game.state.map.tiles[x][y].tile, Tile::new(x as i16, y as i16));
        }
    }
    assert_eq!(
        game.state.falling_piece.tiles,
        vec![Tile::new(3, 0), Tile::new(4, 0), Tile::new(5, 0), Tile::new(6, 0)]
    );
    assert_eq!(game.state.falling_piece.origin, Tile::new(3, -1));
    assert_eq!(game.state.falling_piece.rotation_index, 0);

    let square = create_game_with_piece(|| None, 3);
    assert_eq!(
        square.state.falling_piece.tiles,
        vec![Tile::new(4, 0), Tile::new(5, 0), Tile::new(4, 1), Tile::new(5, 1)]
    );
    let t_piece = create_game_with_piece(|| None, 6);
    assert_eq!(
        t_piece.state.falling_piece.tiles,
        vec![Tile::new(4, 0), Tile::new(3, 1), Tile::new(4, 1), Tile::new(5, 1)]
    );
}

#[test]
fn validity_check_bounds_and_occupancy() {
    let mut game = create_test_game(|| None);
    game.state.map.tiles[2][7].is_set = true;
    let map = &game.state.map;
    let ok = vec![Tile::new(0, 0), Tile::new(9, 19), Tile::new(2, 6)];
    assert!(are_valid_positions(map, &ok));
    for bad in [
        Tile::new(-1, 5),
        Tile::new(10, 5),
        Tile::new(4, -1),
        Tile::new(4, 20),
        Tile::new(2, 7),
    ] {
        assert!(!are_valid_positions(map, &vec![Tile::new(1, 1), bad]));
    }
    assert!(are_valid_positions(map, &Vec::new()));
}

#[test]
fn completed_row_takes_the_row_above() {
    // Square pieces, with row 19 full but for columns 4 and 5.
    let mut input_queue = InputList { 0: Vec::new() };
    input_queue.push_many(InputResult::MoveDown, 19);
    let mut game = create_game_with_piece(|| input_queue.pop_front(), 3);
    for x in 0..WIDTH as usize {
        if x != 4 && x != 5 {
            game.state.map.tiles[x][19].is_set = true;
        }
    }
    game.state.map.tiles[7][18].is_set = true;
    game.state.map.tiles[0][0].is_set = true;
    let above_before = line(&game.state, 18);

    assert_eq!(game.run_frame(), FrameResult::GameInProgress);

    // The square filled (4,18), (5,18), (4,19) and (5,19); row 19 was cleared.
    let mut expected = above_before.clone();
    expected[4] = true;
    expected[5] = true;
    assert_eq!(line(&game.state, 19), expected);
    assert_eq!(line(&game.state, 18), vec![false; WIDTH as usize]);
    assert_eq!(line(&game.state, 0), vec![false; WIDTH as usize]);
    assert!(game.state.map.tiles[0][1].is_set);
}

#[test]
fn clear_line_shifts_rows_down() {
    let mut game = create_test_game(|| None);
    for x in 0..WIDTH as usize {
        game.state.map.tiles[x][12].is_set = true;
    }
    game.state.map.tiles[3][11].is_set = true;
    game.state.map.tiles[6][0].is_set = true;
    game.state.map.tiles[8][13].is_set = true;

    game.state.clear_complete_lines();

    let mut row12 = vec![false; WIDTH as usize];
    row12[3] = true;
    assert_eq!(line(&game.state, 12), row12);
    assert_eq!(line(&game.state, 11), vec![false; WIDTH as usize]);
    assert!(game.state.map.tiles[6][1].is_set);
    assert!(!game.state.map.tiles[6][0].is_set);
    assert!(game.state.map.tiles[8][13].is_set);
}

#[test]
fn soft_drops_until_spawn_is_blocked_end_the_game() {
    let mut game = create_test_game(|| Some(InputResult::MoveDown));

    assert_eq!(game.run_frame(), FrameResult::PlayerLost);
    assert!(game.ended);
    // A game that is over stays over.
    assert_eq!(game.run_frame(), FrameResult::PlayerLost);
}

#[test]
fn gravity_waits_for_more_than_the_interval() {
    let mut game = create_test_game(|| None);
    let row = |g: &TestGame<_>| g.state.falling_piece.tiles[0].y;

    game.clock.now_milliseconds = 1000;
    assert_eq!(game.run_frame(), FrameResult::GameInProgress);
    assert_eq!(row(&game), 0);

    game.clock.now_milliseconds = 1001;
    game.run_frame();
    assert_eq!(row(&game), 1);
    game.run_frame();
    assert_eq!(row(&game), 1);

    game.clock.now_milliseconds = 2001;
    game.run_frame();
    assert_eq!(row(&game), 1);

    game.clock.now_milliseconds = 2002;
    game.run_frame();
    assert_eq!(row(&game), 2);

    game.clock.now_milliseconds = 10_000;
    game.run_frame();
    assert_eq!(row(&game), 3);
}

#[test]
fn quit_stops_taking_commands() {
    let mut input_queue = InputList { 0: Vec::new() };
    input_queue.push(InputResult::MoveLeft);
    input_queue.push(InputResult::ExitGame);
    input_queue.push(InputResult::MoveLeft);
    let mut game = create_test_game(|| input_queue.pop_front());

    assert_eq!(game.run_frame(), FrameResult::GameQuitRequested);
    assert_eq!(game.state.falling_piece.tiles[0], Tile::new(2, 0));
}

#[test]
fn moves_stop_at_walls() {
    let mut input_queue = InputList { 0: Vec::new() };
    input_queue.push_many(InputResult::MoveLeft, 8);
    let mut game = create_test_game(|| input_queue.pop_front());
    game.run_frame();
    assert_eq!(game.state.falling_piece.tiles[0], Tile::new(0, 0));
    assert!(!can_move_left(&game.state));

    let mut input_queue = InputList { 0: Vec::new() };
    input_queue.push_many(InputResult::MoveRight, 8);
    let mut game = create_test_game(|| input_queue.pop_front());
    game.run_frame();
    assert_eq!(game.state.falling_piece.tiles[3], Tile::new(9, 0));
    assert_eq!(game.state.falling_piece.origin, Tile::new(6, -1));
}

#[test]
fn rotation_uses_first_fitting_kick() {
    // Turned in place the plank would reach row -1; the kicks (-2, 0) and
    // (1, 0) leave it there and (-2, 1) fits.
    let mut input_queue = InputList { 0: Vec::new() };
    input_queue.push(InputResult::RotateClockwise);
    let mut game = create_test_game(|| input_queue.pop_front());

    game.run_frame();

    assert_eq!(
        game.state.falling_piece.tiles,
        vec![Tile::new(3, 0), Tile::new(3, 1), Tile::new(3, 2), Tile::new(3, 3)]
    );
    assert_eq!(game.state.falling_piece.origin, Tile::new(1, 0));
    assert_eq!(game.state.falling_piece.rotation_index, 1);
}

#[test]
fn rotation_without_room_leaves_piece() {
    let mut input_queue = InputList { 0: Vec::new() };
    input_queue.push(InputResult::RotateClockwise);
    let mut game = create_test_game(|| input_queue.pop_front());
    for x in 0..WIDTH as usize {
        for y in 0..5 {
            if y >= 1 || !(3..=6).contains(&x) {
                game.state.map.tiles[x][y].is_set = true;
            }
        }
    }

    game.run_frame();

    assert_eq!(
        game.state.falling_piece.tiles,
        vec![Tile::new(3, 0), Tile::new(4, 0), Tile::new(5, 0), Tile::new(6, 0)]
    );
    assert_eq!(game.state.falling_piece.origin, Tile::new(3, -1));
    assert_eq!(game.state.falling_piece.rotation_index, 0);
}

#[test]
fn spawn_centres_catalog_shapes() {
    let shapes = all_pieces();
    let plank = spawn(&shapes[0]);
    assert_eq!(
        plank.tiles,
        vec![Tile::new(3, 0), Tile::new(4, 0), Tile::new(5, 0), Tile::new(6, 0)]
    );
    assert_eq!(plank.origin, Tile::new(3, -1));
    assert_eq!(plank.bounding_box_size, 4);
    assert_eq!(plank.rotation_index, 0);

    let square = spawn(&shapes[3]);
    assert_eq!(
        square.tiles,
        vec![Tile::new(4, 0), Tile::new(5, 0), Tile::new(4, 1), Tile::new(5, 1)]
    );
    assert_eq!(square.origin, Tile::new(4, 0));
    assert_eq!(square.bounding_box_size, 2);
}

#[test]
fn take_command_stops_on_none_quit_or_loss() {
    let mut game = create_test_game(|| None);
    assert!(game.take_command(None));
    assert!(!game.take_command(Some(InputResult::MoveLeft)));
    assert_eq!(game.state.falling_piece.tiles[0], Tile::new(2, 0));
    assert!(game.take_command(Some(InputResult::ExitGame)));
    assert_eq!(game.state.falling_piece.tiles[0], Tile::new(2, 0));

    for x in 0..WIDTH as usize {
        if x != 0 {
            game.state.map.tiles[x][1].is_set = true;
        }
    }
    // The plank settles on row 0, where the next one appears.
    assert!(game.take_command(Some(InputResult::MoveDown)));
    assert!(game.ended);
}

#[test]
fn gravity_step_follows_the_interval() {
    let mut game = create_test_game(|| None);
    game.gravity_step(1000);
    assert_eq!(game.state.falling_piece.tiles[0], Tile::new(3, 0));
    game.gravity_step(1001);
    assert_eq!(game.state.falling_piece.tiles[0], Tile::new(3, 1));
}

#[test]
fn keys_map_to_commands() {
    assert_eq!(convert_input(Key::Left), Some(InputResult::MoveLeft));
    assert_eq!(convert_input(Key::Right), Some(InputResult::MoveRight));
    assert_eq!(convert_input(Key::Up), Some(InputResult::RotateClockwise));
    assert_eq!(convert_input(Key::Down), Some(InputResult::MoveDown));
    assert_eq!(convert_input(Key::Char('z')), Some(InputResult::RotateCounterClockwise));
    assert_eq!(convert_input(Key::Esc), Some(InputResult::ExitGame));
    assert_eq!(convert_input(Key::Char('x')), None);
    assert_eq!(convert_input(Key::Other), None);
}

#[test]
fn manual_clock_differences() {
    let earlier = ManualClockInstant { milliseconds: 250 };
    let later = ManualClockInstant { milliseconds: 1300 };
    assert_eq!(earlier.difference_millis(&later), 1050);
    assert_eq!(later.difference_millis(&earlier), 0);
    assert!(!gravity_due(1000));
    assert!(gravity_due(1001));
}

#[test]
fn random_selector_picks_a_catalog_shape() {
    let shapes = all_pieces();
    for _ in 0..50 {
        let picked = RandomPieceTypeSelector {}.select_piece_type(&shapes);
        assert!(shapes.iter().any(|s| std::ptr::eq(s, picked)));
    }
}
