use tetris_core::board::Block;
use tetris_core::board::Board;

fn block(y: usize, x: usize) -> Block {
    Block { x, y, color: 0xFF_FF_FF }
}

fn positions(board: &Board) -> Vec<(usize, usize)> {
    board.blocks.iter().map(|b| (b.y, b.x)).collect()
}

#[test]
fn contains_is_position_only() {
    let mut board = Board::new();
    board.place([(5, 0), (5, 1), (6, 0), (7, 3)], 0x12_34_56);
    assert!(board.contains(5, 0));
    assert!(board.contains(5, 1));
    assert!(board.contains(6, 0));
    assert!(board.contains(7, 3));
    assert!(!board.contains(5, 2));
    assert!(!board.contains(4, 0));
    assert!(!board.contains(0, 0));
}

#[test]
fn is_row_full_needs_every_column() {
    let mut board = Board::new();
    board.place([(5, 0), (5, 1), (5, 2), (5, 3)], 0x01);
    board.place([(5, 4), (5, 5), (5, 6), (5, 7)], 0x02);
    assert!(!board.is_row_full(5));
    board.place([(5, 8), (5, 9), (4, 0), (4, 1)], 0x03);
    assert!(board.is_row_full(5));
    assert!(!board.is_row_full(4));
    assert!(!board.is_row_full(6));
}

#[test]
fn clear_rows_shifts_by_cleared_rows_below() {
    let mut board = Board::new();
    // Rows 5 and 7 completely filled.
    board.place([(5, 0), (5, 1), (5, 2), (5, 3)], 0x01);
    board.place([(5, 4), (5, 5), (5, 6), (5, 7)], 0x01);
    board.place([(5, 8), (5, 9), (7, 0), (7, 1)], 0x01);
    board.place([(7, 2), (7, 3), (7, 4), (7, 5)], 0x01);
    board.place([(7, 6), (7, 7), (7, 8), (7, 9)], 0x01);
    // Markers above, between and below the cleared rows.
    board.place([(3, 2), (6, 4), (9, 1), (0, 0)], 0x02);

    let count = board.clear_rows(&vec![5, 7]);
    assert_eq!(count, 2);
    // Above row 5: down by 2. Between 5 and 7: down by 1. Below 7: kept.
    assert_eq!(positions(&board), vec![(5, 2), (7, 4), (9, 1), (2, 0)]);
}

#[test]
fn clear_rows_of_nothing_keeps_the_board() {
    let mut board = Board::new();
    board.place([(19, 0), (19, 1), (18, 0), (17, 5)], 0x04);
    let count = board.clear_rows(&vec![]);
    assert_eq!(count, 0);
    assert_eq!(positions(&board), vec![(19, 0), (19, 1), (18, 0), (17, 5)]);
}

#[test]
fn clear_rows_keeps_colors_of_survivors() {
    let mut board = Board::new();
    board.place([(5, 0), (5, 1), (5, 2), (5, 3)], 0x01);
    board.place([(5, 4), (5, 5), (5, 6), (5, 7)], 0x01);
    board.place([(5, 8), (5, 9), (2, 2), (3, 3)], 0x0A_0B_0C);
    let count = board.clear_rows(&vec![5]);
    assert_eq!(count, 1);
    assert_eq!(positions(&board), vec![(3, 2), (4, 3)]);
    assert_eq!(board.blocks[0].color, 0x0A_0B_0C);
    assert_eq!(board.blocks[1].color, 0x0A_0B_0C);
}
