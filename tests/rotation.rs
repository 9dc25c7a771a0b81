use tetris::pieces::{
    all_pieces, rotate_clockwise, rotate_counterclockwise, size_3_kick_tests, size_4_kick_tests,
    Piece,
};
use tetris::tiles::Tile;

fn plank() -> Piece {
    Piece {
        tiles: vec![Tile::new(5, 5), Tile::new(6, 5), Tile::new(7, 5), Tile::new(8, 5)],
        bounding_box_size: 4,
        origin: Tile::new(5, 4),
        rotation_index: 0,
    }
}

fn l_piece() -> Piece {
    Piece {
        tiles: vec![Tile::new(5, 5), Tile::new(6, 5), Tile::new(7, 5), Tile::new(7, 6)],
        bounding_box_size: 3,
        origin: Tile::new(5, 4),
        rotation_index: 2,
    }
}

#[test]
fn rotate_clockwise_plank_piece() {
    let mut piece = plank();

    rotate_clockwise(&mut piece);

    assert_eq!(piece.tiles[0], Tile::new(7, 4));
    assert_eq!(piece.tiles[1], Tile::new(7, 5));
    assert_eq!(piece.tiles[2], Tile::new(7, 6));
    assert_eq!(piece.tiles[3], Tile::new(7, 7));
}

#[test]
fn rotate_counterclockwise_plank_piece() {
    let mut piece = plank();

    rotate_counterclockwise(&mut piece);

    assert_eq!(piece.tiles[0], Tile::new(6, 7));
    assert_eq!(piece.tiles[1], Tile::new(6, 6));
    assert_eq!(piece.tiles[2], Tile::new(6, 5));
    assert_eq!(piece.tiles[3], Tile::new(6, 4));
}

#[test]
fn rotate_clockwise_l_piece() {
    let mut piece = l_piece();

    rotate_clockwise(&mut piece);

    assert_eq!(piece.tiles[0], Tile::new(6, 4));
    assert_eq!(piece.tiles[1], Tile::new(6, 5));
    assert_eq!(piece.tiles[2], Tile::new(6, 6));
    assert_eq!(piece.tiles[3], Tile::new(5, 6));
}

#[test]
fn rotate_counterclockwise_l_piece() {
    let mut piece = l_piece();

    rotate_counterclockwise(&mut piece);

    assert_eq!(piece.tiles[0], Tile::new(6, 6));
    assert_eq!(piece.tiles[1], Tile::new(6, 5));
    assert_eq!(piece.tiles[2], Tile::new(6, 4));
    assert_eq!(piece.tiles[3], Tile::new(7, 4));
}

#[test]
fn rotation_index_cycles_both_ways() {
    let mut piece = plank();
    let mut seen = Vec::new();
    for _ in 0..4 {
        rotate_clockwise(&mut piece);
        seen.push(piece.rotation_index);
    }
    assert_eq!(seen, vec![1, 2, 3, 0]);

    let mut piece = plank();
    let mut seen = Vec::new();
    for _ in 0..4 {
        rotate_counterclockwise(&mut piece);
        seen.push(piece.rotation_index);
    }
    assert_eq!(seen, vec![3, 2, 1, 0]);
}

#[test]
fn four_quarter_turns_restore_the_tiles() {
    for start in [plank(), l_piece()] {
        let mut cw = start.clone();
        let mut ccw = start.clone();
        for _ in 0..4 {
            rotate_clockwise(&mut cw);
            rotate_counterclockwise(&mut ccw);
        }
        assert_eq!(cw.tiles, start.tiles);
        assert_eq!(cw.rotation_index, start.rotation_index);
        assert_eq!(ccw.tiles, start.tiles);
        assert_eq!(ccw.rotation_index, start.rotation_index);
    }
}

#[test]
fn turn_and_turn_back_restores_the_piece() {
    for start in [plank(), l_piece()] {
        let mut piece = start.clone();
        rotate_clockwise(&mut piece);
        assert_ne!(piece.tiles, start.tiles);
        rotate_counterclockwise(&mut piece);
        assert_eq!(piece.tiles, start.tiles);
        assert_eq!(piece.rotation_index, start.rotation_index);

        rotate_counterclockwise(&mut piece);
        rotate_clockwise(&mut piece);
        assert_eq!(piece.tiles, start.tiles);
        assert_eq!(piece.rotation_index, start.rotation_index);
    }
}

#[test]
fn catalog_holds_the_seven_shapes() {
    let shapes = all_pieces();
    let sizes: Vec<i16> = shapes.iter().map(|s| s.bounding_box_size).collect();
    assert_eq!(sizes, vec![4, 3, 3, 2, 3, 3, 3]);
    assert_eq!(
        shapes[0].tiles,
        [Tile::new(0, 0), Tile::new(1, 0), Tile::new(2, 0), Tile::new(3, 0)]
    );
    assert_eq!(shapes[0].origin, Tile::new(0, -1));
    assert_eq!(
        shapes[6].tiles,
        [Tile::new(1, 0), Tile::new(0, 1), Tile::new(1, 1), Tile::new(2, 1)]
    );
}

#[test]
fn kick_tables_rows() {
    assert_eq!(
        size_3_kick_tests(0),
        [Tile::new(-1, 0), Tile::new(-1, -1), Tile::new(0, 2), Tile::new(-1, 2)]
    );
    assert_eq!(
        size_3_kick_tests(7),
        [Tile::new(1, 0), Tile::new(1, -1), Tile::new(0, 2), Tile::new(1, 2)]
    );
    assert_eq!(
        size_4_kick_tests(3),
        [Tile::new(1, 0), Tile::new(-2, 0), Tile::new(1, 2), Tile::new(-2, -1)]
    );
}

#[test]
fn tile_arithmetic() {
    assert_eq!(Tile::new(3, -2).plus(Tile::new(-1, 5)), Tile::new(2, 3));
    assert_eq!(Tile::new(3, -2).minus(Tile::new(-1, 5)), Tile::new(4, -7));
    assert_eq!(Tile::new(4, 7).to_screen_space(), Tile::new(10, 8));
}

#[test]
fn covers_reports_piece_tiles() {
    let piece = plank();
    assert!(piece.covers(Tile::new(7, 5)));
    assert!(!piece.covers(Tile::new(7, 4)));
}
