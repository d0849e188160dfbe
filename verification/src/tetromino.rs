//! The falling piece: the seven tetromino kinds, the four orientations, the
//! shape table giving the four occupied local cells of every kind and
//! orientation, and the rotation operations.

use vstd::prelude::*;
use rand::Rng;

verus! {

/// One of the seven standard tetromino kinds.
#[derive(Clone, Copy, PartialEq, Eq, Structural, Debug)]
pub enum PieceKind {
    L,
    J,
    O,
    I,
    T,
    Z,
    S,
}

/// One of the four rotation states, cycling Up -> Right -> Down -> Left
/// under a clockwise rotation.
#[derive(Clone, Copy, PartialEq, Eq, Structural, Debug)]
pub enum Orientation {
    Up,
    Right,
    Down,
    Left,
}

/// The orientation reached from `o` by a clockwise rotation.
pub open spec fn clockwise(o: Orientation) -> Orientation {
    match o {
        Orientation::Up => Orientation::Right,
        Orientation::Right => Orientation::Down,
        Orientation::Down => Orientation::Left,
        Orientation::Left => Orientation::Up,
    }
}

/// The orientation reached from `o` by a counterclockwise rotation.
pub open spec fn counterclockwise(o: Orientation) -> Orientation {
    match o {
        Orientation::Up => Orientation::Left,
        Orientation::Right => Orientation::Up,
        Orientation::Down => Orientation::Right,
        Orientation::Left => Orientation::Down,
    }
}

/// The shape table: the four occupied cells of the given kind in the given
/// orientation, as (row, column) pairs of a local 4x4 frame.
pub open spec fn shape_spec(kind: PieceKind, o: Orientation) -> Seq<(usize, usize)> {
    match kind {
        PieceKind::L => match o {
            Orientation::Up => seq![(0usize, 2usize), (1, 0), (1, 1), (1, 2)],
            Orientation::Right => seq![(0usize, 1usize), (1, 1), (2, 1), (2, 2)],
            Orientation::Down => seq![(1usize, 0usize), (1, 1), (1, 2), (2, 0)],
            Orientation::Left => seq![(0usize, 0usize), (0, 1), (1, 1), (2, 1)],
        },
        PieceKind::J => match o {
            Orientation::Up => seq![(0usize, 0usize), (1, 0), (1, 1), (1, 2)],
            Orientation::Right => seq![(0usize, 1usize), (0, 2), (1, 1), (2, 1)],
            Orientation::Down => seq![(1usize, 0usize), (1, 1), (1, 2), (2, 2)],
            Orientation::Left => seq![(0usize, 1usize), (1, 1), (2, 0), (2, 1)],
        },
        PieceKind::O => seq![(0usize, 1usize), (0, 2), (1, 1), (1, 2)],
        PieceKind::I => match o {
            Orientation::Up => seq![(1usize, 0usize), (1, 1), (1, 2), (1, 3)],
            Orientation::Right => seq![(0usize, 2usize), (1, 2), (2, 2), (3, 2)],
            Orientation::Down => seq![(2usize, 0usize), (2, 1), (2, 2), (2, 3)],
            Orientation::Left => seq![(0usize, 1usize), (1, 1), (2, 1), (3, 1)],
        },
        PieceKind::T => match o {
            Orientation::Up => seq![(0usize, 1usize), (1, 0), (1, 1), (1, 2)],
            Orientation::Right => seq![(0usize, 1usize), (1, 1), (1, 2), (2, 1)],
            Orientation::Down => seq![(1usize, 0usize), (1, 1), (1, 2), (2, 1)],
            Orientation::Left => seq![(0usize, 1usize), (1, 0), (1, 1), (2, 1)],
        },
        PieceKind::Z => match o {
            Orientation::Up => seq![(0usize, 0usize), (0, 1), (1, 1), (1, 2)],
            Orientation::Right => seq![(0usize, 2usize), (1, 1), (1, 2), (2, 1)],
            Orientation::Down => seq![(1usize, 0usize), (1, 1), (2, 1), (2, 2)],
            Orientation::Left => seq![(0usize, 1usize), (1, 0), (1, 1), (2, 0)],
        },
        PieceKind::S => match o {
            Orientation::Up => seq![(0usize, 1usize), (0, 2), (1, 0), (1, 1)],
            Orientation::Right => seq![(0usize, 1usize), (1, 1), (1, 2), (2, 2)],
            Orientation::Down => seq![(1usize, 1usize), (1, 2), (2, 0), (2, 1)],
            Orientation::Left => seq![(0usize, 0usize), (1, 0), (1, 1), (2, 1)],
        },
    }
}

/// The fixed color of each kind, as packed 24-bit RGB.
pub open spec fn color_spec(kind: PieceKind) -> u32 {
    match kind {
        PieceKind::L => 0xC1_68_15,
        PieceKind::J => 0x14_1B_CB,
        PieceKind::O => 0xCB_CC_24,
        PieceKind::I => 0x58_CC_CD,
        PieceKind::T => 0x91_22_CB,
        PieceKind::Z => 0xBE_19_0F,
        PieceKind::S => 0x53_CA_1F,
    }
}

/// The four occupied local cells of `kind` in orientation `o`.
pub fn shape(kind: PieceKind, o: Orientation) -> (cells: [(usize, usize); 4])
    ensures
        cells@ == shape_spec(kind, o),
{
    let cells: [(usize, usize); 4] = match kind {
        PieceKind::L => match o {
            Orientation::Up => [(0, 2), (1, 0), (1, 1), (1, 2)],
            Orientation::Right => [(0, 1), (1, 1), (2, 1), (2, 2)],
            Orientation::Down => [(1, 0), (1, 1), (1, 2), (2, 0)],
            Orientation::Left => [(0, 0), (0, 1), (1, 1), (2, 1)],
        },
        PieceKind::J => match o {
            Orientation::Up => [(0, 0), (1, 0), (1, 1), (1, 2)],
            Orientation::Right => [(0, 1), (0, 2), (1, 1), (2, 1)],
            Orientation::Down => [(1, 0), (1, 1), (1, 2), (2, 2)],
            Orientation::Left => [(0, 1), (1, 1), (2, 0), (2, 1)],
        },
        PieceKind::O => [(0, 1), (0, 2), (1, 1), (1, 2)],
        PieceKind::I => match o {
            Orientation::Up => [(1, 0), (1, 1), (1, 2), (1, 3)],
            Orientation::Right => [(0, 2), (1, 2), (2, 2), (3, 2)],
            Orientation::Down => [(2, 0), (2, 1), (2, 2), (2, 3)],
            Orientation::Left => [(0, 1), (1, 1), (2, 1), (3, 1)],
        },
        PieceKind::T => match o {
            Orientation::Up => [(0, 1), (1, 0), (1, 1), (1, 2)],
            Orientation::Right => [(0, 1), (1, 1), (1, 2), (2, 1)],
            Orientation::Down => [(1, 0), (1, 1), (1, 2), (2, 1)],
            Orientation::Left => [(0, 1), (1, 0), (1, 1), (2, 1)],
        },
        PieceKind::Z => match o {
            Orientation::Up => [(0, 0), (0, 1), (1, 1), (1, 2)],
            Orientation::Right => [(0, 2), (1, 1), (1, 2), (2, 1)],
            Orientation::Down => [(1, 0), (1, 1), (2, 1), (2, 2)],
            Orientation::Left => [(0, 1), (1, 0), (1, 1), (2, 0)],
        },
        PieceKind::S => match o {
            Orientation::Up => [(0, 1), (0, 2), (1, 0), (1, 1)],
            Orientation::Right => [(0, 1), (1, 1), (1, 2), (2, 2)],
            Orientation::Down => [(1, 1), (1, 2), (2, 0), (2, 1)],
            Orientation::Left => [(0, 0), (1, 0), (1, 1), (2, 1)],
        },
    };
    proof {
        assert(cells@ =~= shape_spec(kind, o));
    }
    cells
}

/// An active falling piece: its kind, which fixes the shape table and the
/// color, and its current orientation.
#[derive(Clone, Copy, PartialEq, Eq, Structural, Debug)]
pub struct Tetromino {
    pub kind: PieceKind,
    pub orientation: Orientation,
}

/// Relies on rand::thread_rng and rand::Rng::gen_range: `gen_range(0..7)`
/// returns a value uniformly drawn from [0, 7), and panics only on an empty
/// range.
#[verifier::external_body]
fn random_kind_index() -> (r: u8)
    ensures
        r < 7,
{
    rand::thread_rng().gen_range(0..7)
}

impl Tetromino {
    /// A fresh piece of the given kind, in the initial orientation.
    pub fn new(kind: PieceKind) -> (t: Tetromino)
        ensures
            t.kind == kind,
            t.orientation == Orientation::Up,
    {
        Tetromino { kind, orientation: Orientation::Up }
    }

    /// A fresh piece of a kind drawn uniformly among the seven, in the
    /// initial orientation.
    pub fn random() -> (t: Tetromino)
        ensures
            t.orientation == Orientation::Up,
    {
        let kind = match random_kind_index() {
            0 => PieceKind::L,
            1 => PieceKind::J,
            2 => PieceKind::O,
            3 => PieceKind::I,
            4 => PieceKind::T,
            5 => PieceKind::Z,
            _ => PieceKind::S,
        };
        Tetromino::new(kind)
    }

    /// Advance the orientation one step along the clockwise cycle.
    pub fn rotate_clockwise(&mut self)
        ensures
            final(self).kind == old(self).kind,
            final(self).orientation == clockwise(old(self).orientation),
    {
        self.orientation = match self.orientation {
            Orientation::Up => Orientation::Right,
            Orientation::Right => Orientation::Down,
            Orientation::Down => Orientation::Left,
            Orientation::Left => Orientation::Up,
        };
    }

    /// Retreat the orientation one step along the clockwise cycle.
    pub fn rotate_counterclockwise(&mut self)
        ensures
            final(self).kind == old(self).kind,
            final(self).orientation == counterclockwise(old(self).orientation),
    {
        self.orientation = match self.orientation {
            Orientation::Up => Orientation::Left,
            Orientation::Right => Orientation::Up,
            Orientation::Down => Orientation::Right,
            Orientation::Left => Orientation::Down,
        };
    }

    /// The four occupied local cells of the piece in its current orientation.
    pub fn blocks(&self) -> (cells: [(usize, usize); 4])
        ensures
            cells@ == shape_spec(self.kind, self.orientation),
    {
        shape(self.kind, self.orientation)
    }

    /// The fixed color of the piece's kind.
    pub fn color(&self) -> (c: u32)
        ensures
            c == color_spec(self.kind),
    {
        match self.kind {
            PieceKind::L => 0xC1_68_15,
            PieceKind::J => 0x14_1B_CB,
            PieceKind::O => 0xCB_CC_24,
            PieceKind::I => 0x58_CC_CD,
            PieceKind::T => 0x91_22_CB,
            PieceKind::Z => 0xBE_19_0F,
            PieceKind::S => 0x53_CA_1F,
        }
    }
}

/// Every entry of the shape table holds exactly four pairwise distinct
/// cells, each within the local 4x4 frame.
pub proof fn lemma_shape_valid(kind: PieceKind, o: Orientation)
    ensures
        shape_spec(kind, o).len() == 4,
        forall|a: int, b: int|
            0 <= a < 4 && 0 <= b < 4 && a != b ==> shape_spec(kind, o)[a] != shape_spec(kind, o)[b],
        forall|a: int|
            0 <= a < 4 ==> (#[trigger] shape_spec(kind, o)[a]).0 < 4 && shape_spec(kind, o)[a].1
                < 4,
{
    match kind {
        PieceKind::L => {
        },
        PieceKind::J => {
        },
        PieceKind::O => {
        },
        PieceKind::I => {
        },
        PieceKind::T => {
        },
        PieceKind::Z => {
        },
        PieceKind::S => {
        },
    }
}

/// Four clockwise rotations return a piece to its original orientation, and
/// with it to its original occupied cells; so do four counterclockwise
/// rotations.
pub proof fn lemma_rotation_cycle(o: Orientation)
    ensures
        clockwise(clockwise(clockwise(clockwise(o)))) == o,
        counterclockwise(counterclockwise(counterclockwise(counterclockwise(o)))) == o,
{
}

/// The two rotations are mutually inverse, so an undone rotation restores
/// the occupied cells exactly.
pub proof fn lemma_rotations_inverse(o: Orientation)
    ensures
        counterclockwise(clockwise(o)) == o,
        clockwise(counterclockwise(o)) == o,
{
}

} // verus!
