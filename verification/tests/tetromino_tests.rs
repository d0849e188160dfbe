use tetris_core::tetromino::Orientation;
use tetris_core::tetromino::PieceKind;
use tetris_core::tetromino::Tetromino;
use tetris_core::tetromino::shape;

const KINDS: [PieceKind; 7] = [
    PieceKind::L,
    PieceKind::J,
    PieceKind::O,
    PieceKind::I,
    PieceKind::T,
    PieceKind::Z,
    PieceKind::S,
];

const ORIENTATIONS: [Orientation; 4] = [
    Orientation::Up,
    Orientation::Right,
    Orientation::Down,
    Orientation::Left,
];

#[test]
fn shape_table_spot_checks() {
    assert_eq!(shape(PieceKind::I, Orientation::Up), [(1, 0), (1, 1), (1, 2), (1, 3)]);
    assert_eq!(shape(PieceKind::I, Orientation::Right), [(0, 2), (1, 2), (2, 2), (3, 2)]);
    assert_eq!(shape(PieceKind::L, Orientation::Up), [(0, 2), (1, 0), (1, 1), (1, 2)]);
    assert_eq!(shape(PieceKind::J, Orientation::Down), [(1, 0), (1, 1), (1, 2), (2, 2)]);
    assert_eq!(shape(PieceKind::T, Orientation::Left), [(0, 1), (1, 0), (1, 1), (2, 1)]);
    assert_eq!(shape(PieceKind::Z, Orientation::Right), [(0, 2), (1, 1), (1, 2), (2, 1)]);
    assert_eq!(shape(PieceKind::S, Orientation::Up), [(0, 1), (0, 2), (1, 0), (1, 1)]);
}

#[test]
fn z_piece_all_orientations() {
    assert_eq!(shape(PieceKind::Z, Orientation::Up), [(0, 0), (0, 1), (1, 1), (1, 2)]);
    assert_eq!(shape(PieceKind::Z, Orientation::Right), [(0, 2), (1, 1), (1, 2), (2, 1)]);
    assert_eq!(shape(PieceKind::Z, Orientation::Down), [(1, 0), (1, 1), (2, 1), (2, 2)]);
    assert_eq!(shape(PieceKind::Z, Orientation::Left), [(0, 1), (1, 0), (1, 1), (2, 0)]);
    // The Z and S tables mirror each other; no orientation is shared.
    for o in ORIENTATIONS {
        assert_ne!(shape(PieceKind::Z, o), shape(PieceKind::S, o));
    }
}

#[test]
fn o_piece_is_orientation_invariant() {
    for o in ORIENTATIONS {
        assert_eq!(shape(PieceKind::O, o), [(0, 1), (0, 2), (1, 1), (1, 2)]);
    }
}

#[test]
fn every_shape_has_four_distinct_cells_in_frame() {
    for kind in KINDS {
        for o in ORIENTATIONS {
            let cells = shape(kind, o);
            for (row, col) in cells {
                assert!(row < 4 && col < 4);
            }
            for a in 0..4 {
                for b in 0..4 {
                    if a != b {
                        assert_ne!(cells[a], cells[b]);
                    }
                }
            }
        }
    }
}

#[test]
fn four_rotations_restore_the_piece() {
    for kind in KINDS {
        let mut t = Tetromino::new(kind);
        let start = t.blocks();
        for _ in 0..4 {
            t.rotate_clockwise();
        }
        assert_eq!(t.orientation, Orientation::Up);
        assert_eq!(t.blocks(), start);
        for _ in 0..4 {
            t.rotate_counterclockwise();
        }
        assert_eq!(t.orientation, Orientation::Up);
        assert_eq!(t.blocks(), start);
    }
}

#[test]
fn rotations_are_mutually_inverse() {
    let mut t = Tetromino::new(PieceKind::T);
    t.rotate_clockwise();
    assert_eq!(t.orientation, Orientation::Right);
    t.rotate_counterclockwise();
    assert_eq!(t.orientation, Orientation::Up);
    t.rotate_counterclockwise();
    assert_eq!(t.orientation, Orientation::Left);
    t.rotate_clockwise();
    assert_eq!(t.orientation, Orientation::Up);
}

#[test]
fn colors_are_fixed_per_kind() {
    assert_eq!(Tetromino::new(PieceKind::L).color(), 0xC1_68_15);
    assert_eq!(Tetromino::new(PieceKind::J).color(), 0x14_1B_CB);
    assert_eq!(Tetromino::new(PieceKind::O).color(), 0xCB_CC_24);
    assert_eq!(Tetromino::new(PieceKind::I).color(), 0x58_CC_CD);
    assert_eq!(Tetromino::new(PieceKind::T).color(), 0x91_22_CB);
    assert_eq!(Tetromino::new(PieceKind::Z).color(), 0xBE_19_0F);
    assert_eq!(Tetromino::new(PieceKind::S).color(), 0x53_CA_1F);
}

#[test]
fn random_pieces_spawn_in_initial_orientation() {
    for _ in 0..50 {
        let t = Tetromino::random();
        assert_eq!(t.orientation, Orientation::Up);
        assert_eq!(t.blocks(), shape(t.kind, Orientation::Up));
    }
}
