use tetris_core::board::Block;
use tetris_core::game::Game;
use tetris_core::game::Key;
use tetris_core::tetromino::Orientation;
use tetris_core::tetromino::PieceKind;
use tetris_core::HEIGHT;
use tetris_core::LINES_TO_LEVEL;
use tetris_core::WIDTH;

const KINDS: [PieceKind; 7] = [
    PieceKind::L,
    PieceKind::J,
    PieceKind::O,
    PieceKind::I,
    PieceKind::T,
    PieceKind::Z,
    PieceKind::S,
];

fn block(y: usize, x: usize) -> Block {
    Block { x, y, color: 0x80_80_80 }
}

fn positions(game: &Game) -> Vec<(usize, usize)> {
    game.blocks().iter().map(|b| (b.y, b.x)).collect()
}

#[test]
fn board_dimensions_are_standard() {
    assert_eq!(WIDTH, 10);
    assert_eq!(HEIGHT, 20);
    assert_eq!(LINES_TO_LEVEL, 10);
}

#[test]
fn fresh_spawn_has_no_horizontal_collision() {
    for kind in KINDS {
        let game = Game::with_piece(kind);
        assert_eq!(game.dx, 4);
        assert_eq!(game.dy, 0);
        assert!(!game.is_horizontal_collision());
        assert!(!game.is_vertical_collision());
    }
}

#[test]
fn spawn_cells_sit_at_board_center() {
    let game = Game::with_piece(PieceKind::T);
    assert_eq!(game.active_cells(), [(0, 5), (1, 4), (1, 5), (1, 6)]);
    let game = Game::with_piece(PieceKind::I);
    assert_eq!(game.active_cells(), [(1, 4), (1, 5), (1, 6), (1, 7)]);
}

#[test]
fn hard_drop_lands_on_the_bottom_row() {
    let mut game = Game::with_piece(PieceKind::I);
    game.handle_input(Key::HardDrop);
    assert_eq!(positions(&game), vec![(19, 4), (19, 5), (19, 6), (19, 7)]);
    assert_eq!(game.lines_cleared, 0);

    let mut game = Game::with_piece(PieceKind::T);
    game.handle_input(Key::HardDrop);
    assert_eq!(positions(&game), vec![(18, 5), (19, 4), (19, 5), (19, 6)]);
}

#[test]
fn gravity_advances_one_row_per_tick() {
    let mut game = Game::with_piece(PieceKind::I);
    assert_eq!(game.projection_dy, 18);
    game.update();
    assert_eq!(game.dy, 1);
    game.update();
    assert_eq!(game.dy, 2);
    assert!(game.blocks().is_empty());
}

#[test]
fn piece_locks_when_it_reaches_its_projection() {
    let mut game = Game::with_piece(PieceKind::I);
    for expected in 1..=18 {
        game.update();
        assert_eq!(game.dy, expected);
    }
    assert_eq!(game.dy, game.projection_dy);
    game.update();
    assert_eq!(positions(&game), vec![(19, 4), (19, 5), (19, 6), (19, 7)]);
    assert_eq!(game.dy, 0);
    assert_eq!(game.dx, 4);
}

#[test]
fn move_left_at_the_wall_is_rejected() {
    let mut game = Game::with_piece(PieceKind::O);
    for _ in 0..5 {
        game.handle_input(Key::Left);
    }
    assert_eq!(game.dx, -1);
    assert_eq!(game.active_cells(), [(0, 0), (0, 1), (1, 0), (1, 1)]);
    game.handle_input(Key::Left);
    assert_eq!(game.dx, -1);
    assert_eq!(game.active_cells(), [(0, 0), (0, 1), (1, 0), (1, 1)]);
}

#[test]
fn move_right_at_the_wall_is_rejected() {
    let mut game = Game::with_piece(PieceKind::I);
    game.handle_input(Key::Right);
    game.handle_input(Key::Right);
    assert_eq!(game.active_cells(), [(1, 6), (1, 7), (1, 8), (1, 9)]);
    game.handle_input(Key::Right);
    assert_eq!(game.dx, 6);
    assert_eq!(game.active_cells(), [(1, 6), (1, 7), (1, 8), (1, 9)]);
}

#[test]
fn rotation_cycles_and_recomputes_projection() {
    let mut game = Game::with_piece(PieceKind::I);
    game.handle_input(Key::RotateCW);
    assert_eq!(game.tetromino.orientation, Orientation::Right);
    assert_eq!(game.active_cells(), [(0, 6), (1, 6), (2, 6), (3, 6)]);
    assert_eq!(game.projection_dy, 16);
    game.handle_input(Key::RotateCCW);
    assert_eq!(game.tetromino.orientation, Orientation::Up);
    assert_eq!(game.projection_dy, 18);
}

#[test]
fn rotation_into_the_floor_is_reverted() {
    let mut game = Game::with_piece(PieceKind::I);
    for _ in 0..18 {
        game.update();
    }
    assert_eq!(game.dy, 18);
    assert_eq!(game.active_cells(), [(19, 4), (19, 5), (19, 6), (19, 7)]);
    game.handle_input(Key::RotateCW);
    assert_eq!(game.tetromino.orientation, Orientation::Up);
    assert_eq!(game.active_cells(), [(19, 4), (19, 5), (19, 6), (19, 7)]);
}

#[test]
fn rotation_into_the_wall_is_reverted() {
    let mut game = Game::with_piece(PieceKind::I);
    game.handle_input(Key::RotateCW);
    for _ in 0..6 {
        game.handle_input(Key::Left);
    }
    assert_eq!(game.active_cells(), [(0, 0), (1, 0), (2, 0), (3, 0)]);
    game.handle_input(Key::RotateCW);
    assert_eq!(game.tetromino.orientation, Orientation::Right);
    assert_eq!(game.active_cells(), [(0, 0), (1, 0), (2, 0), (3, 0)]);
}

#[test]
fn counterclockwise_rotation_reaches_the_left_table() {
    let mut game = Game::with_piece(PieceKind::Z);
    game.handle_input(Key::RotateCCW);
    assert_eq!(game.tetromino.orientation, Orientation::Left);
    assert_eq!(game.active_cells(), [(0, 5), (1, 4), (1, 5), (2, 4)]);

    let mut game = Game::with_piece(PieceKind::S);
    game.handle_input(Key::RotateCCW);
    assert_eq!(game.tetromino.orientation, Orientation::Left);
    assert_eq!(game.active_cells(), [(0, 4), (1, 4), (1, 5), (2, 5)]);
}

#[test]
fn ghost_projection_matches_the_hard_drop() {
    let stack = vec![block(19, 4), block(19, 5), block(18, 5)];
    let mut game = Game::from_state(stack, PieceKind::J, 0).unwrap();
    let ghost = game.ghost_cells();
    assert_eq!(ghost, [(16, 4), (17, 4), (17, 5), (17, 6)]);
    game.handle_input(Key::HardDrop);
    let settled = positions(&game);
    assert_eq!(settled.len(), 7);
    for cell in ghost {
        assert!(settled.contains(&cell));
    }
}

#[test]
fn completing_a_row_clears_it_and_shifts_the_rows_above() {
    let mut blocks = vec![block(5, 0)];
    for x in [0, 1, 2, 7, 8, 9] {
        blocks.push(block(18, x));
    }
    for x in [3, 4, 5, 6] {
        blocks.push(block(19, x));
    }
    let mut game = Game::from_state(blocks, PieceKind::I, 0).unwrap();
    game.handle_input(Key::Left);
    game.handle_input(Key::HardDrop);
    assert_eq!(game.lines_cleared, 1);
    let settled = positions(&game);
    assert_eq!(settled.len(), 5);
    // The marker above the cleared row dropped by one; the support row
    // below it is untouched.
    assert!(settled.contains(&(6, 0)));
    for x in [3, 4, 5, 6] {
        assert!(settled.contains(&(19, x)));
    }
}

#[test]
fn level_advances_every_ten_lines() {
    let mut lines = 0;
    for round in 1..=10 {
        let mut blocks = Vec::new();
        for x in [0, 1, 2, 7, 8, 9] {
            blocks.push(block(19, x));
        }
        let mut game = Game::from_state(blocks, PieceKind::I, lines).unwrap();
        game.handle_input(Key::Left);
        game.handle_input(Key::HardDrop);
        assert!(game.blocks().is_empty());
        lines = game.lines_cleared;
        assert_eq!(lines, round);
        if round == 9 {
            assert_eq!(game.level(), 0);
        }
        if round == 10 {
            assert_eq!(game.level(), 1);
        }
    }
}

#[test]
fn restoring_an_invalid_state_is_refused() {
    // A block outside the board.
    assert!(Game::from_state(vec![block(5, 10)], PieceKind::O, 0).is_none());
    assert!(Game::from_state(vec![block(20, 0)], PieceKind::O, 0).is_none());
    // Two settled blocks on one cell.
    let twice = vec![block(5, 5), Block { x: 5, y: 5, color: 0x01 }];
    assert!(Game::from_state(twice, PieceKind::O, 0).is_none());
    // A spawn cell already settled.
    let mut full_top = Vec::new();
    for y in [0, 1] {
        for x in [4, 5, 6, 7] {
            full_top.push(block(y, x));
        }
    }
    assert!(Game::from_state(full_top, PieceKind::I, 0).is_none());
}

#[test]
fn blocked_spawn_resets_the_whole_game() {
    let mut blocks = vec![block(0, 4), block(1, 4), block(0, 7), block(1, 7)];
    for y in 2..HEIGHT {
        blocks.push(block(y, 5));
        blocks.push(block(y, 6));
    }
    let mut game = Game::from_state(blocks, PieceKind::O, 3).unwrap();
    assert_eq!(game.lines_cleared, 3);
    assert_eq!(game.projection_dy, 0);
    // Locking the O leaves every spawn cell of every kind settled, so the
    // next spawn cannot fit and the game restarts from scratch.
    game.update();
    assert!(game.blocks().is_empty());
    assert_eq!(game.lines_cleared, 0);
    assert_eq!(game.dy, 0);
    assert_eq!(game.dx, 4);
}

#[test]
fn score_saturates_at_the_top_of_usize() {
    let mut blocks = Vec::new();
    for x in [0, 1, 2, 7, 8, 9] {
        blocks.push(block(19, x));
    }
    let mut game = Game::from_state(blocks, PieceKind::I, usize::MAX).unwrap();
    game.handle_input(Key::Left);
    game.handle_input(Key::HardDrop);
    assert!(game.blocks().is_empty());
    assert_eq!(game.lines_cleared, usize::MAX);
}

#[test]
fn moving_sideways_recomputes_the_projection() {
    let stack = vec![block(19, 3), block(18, 3), block(17, 3)];
    let mut game = Game::from_state(stack, PieceKind::I, 0).unwrap();
    assert_eq!(game.projection_dy, 18);
    game.handle_input(Key::Left);
    assert_eq!(game.projection_dy, 15);
}

#[test]
fn update_projection_is_stable_on_an_untouched_game() {
    let mut game = Game::with_piece(PieceKind::L);
    let before = game.projection_dy;
    game.update_projection();
    assert_eq!(game.projection_dy, before);
}
