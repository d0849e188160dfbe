//! The game state machine: the board, the active piece and its offsets,
//! the ghost projection, collision probing, the lock/clear/spawn cycle and
//! the score.

use vstd::prelude::*;

verus! {

use crate::board::Block;
use crate::board::Board;
use crate::board::board_wf;
use crate::board::cleared_seq;
use crate::board::occupied;
use crate::board::placed_blocks;
use crate::board::row_full;
use crate::board::shift_for;
use crate::board::shifted_block;
use crate::board::sorted_strict;
use crate::tetromino::Orientation;
use crate::tetromino::PieceKind;
use crate::tetromino::Tetromino;
use crate::tetromino::clockwise;
use crate::tetromino::color_spec;
use crate::tetromino::counterclockwise;
use crate::tetromino::lemma_rotations_inverse;
use crate::tetromino::lemma_shape_valid;
use crate::tetromino::shape_spec;
use crate::HEIGHT;
use crate::LINES_TO_LEVEL;
use crate::WIDTH;

/// The horizontal offset of a freshly spawned piece: board-center, with
/// the local frame straddling the middle columns.
pub const SPAWN_DX: isize = 4;

/// A discrete input event, one per call.
#[derive(Clone, Copy, PartialEq, Eq, Structural, Debug)]
pub enum Key {
    Left,
    Right,
    RotateCW,
    RotateCCW,
    HardDrop,
}

/// One local cell, translated by `dx`, leaves the board to the left or
/// right, or lands on a settled block at vertical offset `dy`.
pub open spec fn cell_h_collides(b: Seq<Block>, cell: (usize, usize), dx: int, dy: int) -> bool {
    ||| cell.1 + dx < 0
    ||| cell.1 + dx >= WIDTH
    ||| occupied(b, cell.0 + dy, cell.1 + dx)
}

/// Some occupied cell of the piece, at offsets (dx, dy), leaves the board
/// to the left or right or lands on a settled block.
pub open spec fn h_collision(b: Seq<Block>, t: Tetromino, dx: int, dy: int) -> bool {
    exists|k: int|
        0 <= k < 4 && cell_h_collides(b, #[trigger] shape_spec(t.kind, t.orientation)[k], dx, dy)
}

/// One local cell, translated by (dx, dy), leaves the board at the bottom
/// or lands on a settled block.
pub open spec fn cell_v_collides(b: Seq<Block>, cell: (usize, usize), dx: int, dy: int) -> bool {
    ||| cell.0 + dy >= HEIGHT
    ||| occupied(b, cell.0 + dy, cell.1 + dx)
}

/// Some occupied cell of the piece, at offsets (dx, dy), leaves the board
/// at the bottom or lands on a settled block.
pub open spec fn v_collision(b: Seq<Block>, t: Tetromino, dx: int, dy: int) -> bool {
    exists|k: int|
        0 <= k < 4 && cell_v_collides(b, #[trigger] shape_spec(t.kind, t.orientation)[k], dx, dy)
}

/// All occupied cells of the piece stay within the board's columns at
/// horizontal offset `dx`.
pub open spec fn cols_ok(t: Tetromino, dx: int) -> bool {
    forall|k: int|
        0 <= k < 4 ==> 0 <= (#[trigger] shape_spec(t.kind, t.orientation)[k]).1 + dx < WIDTH
}

/// The piece, at offsets (dx, dy), lies fully on the board and overlaps no
/// settled block.
pub open spec fn pose_ok(b: Seq<Block>, t: Tetromino, dx: int, dy: int) -> bool {
    forall|k: int|
        0 <= k < 4 ==> {
            let cell = #[trigger] shape_spec(t.kind, t.orientation)[k];
            &&& 0 <= cell.1 + dx < WIDTH
            &&& cell.0 + dy < HEIGHT
            &&& !occupied(b, cell.0 + dy, cell.1 + dx)
        }
}

/// `p` is the resting offset of the piece falling from `dy`: every offset
/// from `dy` down to `p` is free, and one row further the piece would
/// collide. Equivalently, `p` is the first colliding probe minus one.
pub open spec fn is_resting(b: Seq<Block>, t: Tetromino, dx: int, dy: int, p: int) -> bool {
    &&& dy <= p
    &&& forall|q: int| dy <= q <= p ==> pose_ok(b, t, dx, q)
    &&& v_collision(b, t, dx, p + 1)
}

/// The whole game: the settled board, the active piece with its offsets,
/// the ghost projection's vertical offset, and the cumulative count of
/// cleared lines.
pub struct Game {
    pub board: Board,
    pub tetromino: Tetromino,
    pub dx: isize,
    pub dy: usize,
    pub projection_dy: usize,
    pub lines_cleared: usize,
}

impl Game {
    /// The game invariant: a well-formed board, an active piece on a free
    /// pose, and an up-to-date ghost projection.
    pub open spec fn wf(self) -> bool {
        &&& board_wf(self.board@)
        &&& pose_ok(self.board@, self.tetromino, self.dx as int, self.dy as int)
        &&& is_resting(
            self.board@,
            self.tetromino,
            self.dx as int,
            self.dy as int,
            self.projection_dy as int,
        )
    }
}

/// The value `v` clamped to the range of `usize`.
pub open spec fn clamped(v: int) -> int {
    if v < 0 {
        0
    } else if v > usize::MAX {
        usize::MAX as int
    } else {
        v
    }
}

/// Saturating addition of a signed offset to an unsigned column: the sum
/// clamps at zero instead of wrapping.
fn clamped_add(x: usize, d: isize) -> (r: usize)
    ensures
        r == clamped(x + d),
{
    match x.checked_add_signed(d) {
        Some(v) => v,
        None => if d < 0 {
            0
        } else {
            usize::MAX
        },
    }
}

impl Game {
    /// Whether this one cell of the active piece collides horizontally.
    fn cell_collides_h(&self, cell: (usize, usize)) -> (r: bool)
        requires
            board_wf(self.board@),
        ensures
            r == cell_h_collides(self.board@, cell, self.dx as int, self.dy as int),
    {
        match cell.1.checked_add_signed(self.dx) {
            None => true,
            Some(col) => {
                if col >= WIDTH {
                    true
                } else {
                    match cell.0.checked_add(self.dy) {
                        None => {
                            proof {
                                let row = cell.0 + self.dy;
                                if occupied(self.board@, row, col as int) {
                                    let k = choose|k: int|
                                        0 <= k < self.board@.len() && self.board@[k].y == row
                                            && self.board@[k].x == col;
                                }
                            }
                            false
                        },
                        Some(row) => self.board.contains(row, col),
                    }
                }
            },
        }
    }

    /// Whether this one cell of the active piece collides vertically at
    /// the probed offset `dy`.
    fn cell_collides_v(&self, cell: (usize, usize), dy: usize) -> (r: bool)
        requires
            board_wf(self.board@),
            0 <= cell.1 + self.dx < WIDTH,
        ensures
            r == cell_v_collides(self.board@, cell, self.dx as int, dy as int),
    {
        match cell.0.checked_add(dy) {
            None => true,
            Some(row) => {
                if row >= HEIGHT {
                    true
                } else {
                    let col = clamped_add(cell.1, self.dx);
                    self.board.contains(row, col)
                }
            },
        }
    }

    /// Whether the active piece, at its current offsets, leaves the board
    /// to the left or right or overlaps a settled block.
    pub fn is_horizontal_collision(&self) -> (r: bool)
        requires
            board_wf(self.board@),
        ensures
            r == h_collision(self.board@, self.tetromino, self.dx as int, self.dy as int),
    {
        let cells = self.tetromino.blocks();
        let r = self.cell_collides_h(cells[0]) || self.cell_collides_h(cells[1])
            || self.cell_collides_h(cells[2]) || self.cell_collides_h(cells[3]);
        proof {
            let b = self.board@;
            let dxi = self.dx as int;
            let dyi = self.dy as int;
            let sh = shape_spec(self.tetromino.kind, self.tetromino.orientation);
            if r {
                assert(h_collision(b, self.tetromino, dxi, dyi)) by {
                    if cell_h_collides(b, sh[0], dxi, dyi) {
                    } else if cell_h_collides(b, sh[1], dxi, dyi) {
                    } else if cell_h_collides(b, sh[2], dxi, dyi) {
                    } else {
                        assert(cell_h_collides(b, sh[3], dxi, dyi));
                    }
                }
            } else {
                if h_collision(b, self.tetromino, dxi, dyi) {
                    let k = choose|k: int|
                        0 <= k < 4 && cell_h_collides(b, #[trigger] sh[k], dxi, dyi);
                    assert(false);
                }
            }
        }
        r
    }

    /// Whether the active piece would collide vertically at the probed
    /// offset `dy`.
    fn collides_at(&self, dy: usize) -> (r: bool)
        requires
            board_wf(self.board@),
            cols_ok(self.tetromino, self.dx as int),
        ensures
            r == v_collision(self.board@, self.tetromino, self.dx as int, dy as int),
    {
        let cells = self.tetromino.blocks();
        let r = self.cell_collides_v(cells[0], dy) || self.cell_collides_v(cells[1], dy)
            || self.cell_collides_v(cells[2], dy) || self.cell_collides_v(cells[3], dy);
        proof {
            let b = self.board@;
            let dxi = self.dx as int;
            let dyi = dy as int;
            let sh = shape_spec(self.tetromino.kind, self.tetromino.orientation);
            if r {
                assert(v_collision(b, self.tetromino, dxi, dyi)) by {
                    if cell_v_collides(b, sh[0], dxi, dyi) {
                    } else if cell_v_collides(b, sh[1], dxi, dyi) {
                    } else if cell_v_collides(b, sh[2], dxi, dyi) {
                    } else {
                        assert(cell_v_collides(b, sh[3], dxi, dyi));
                    }
                }
            } else {
                if v_collision(b, self.tetromino, dxi, dyi) {
                    let k = choose|k: int|
                        0 <= k < 4 && cell_v_collides(b, #[trigger] sh[k], dxi, dyi);
                    assert(false);
                }
            }
        }
        r
    }

    /// Whether the active piece, at its current offsets, leaves the board
    /// at the bottom or overlaps a settled block.
    pub fn is_vertical_collision(&self) -> (r: bool)
        requires
            board_wf(self.board@),
            cols_ok(self.tetromino, self.dx as int),
        ensures
            r == v_collision(self.board@, self.tetromino, self.dx as int, self.dy as int),
    {
        self.collides_at(self.dy)
    }

    /// Recompute the ghost projection: probe downward from the piece's
    /// current vertical offset until one row further would collide, and
    /// record that last free offset.
    pub fn update_projection(&mut self)
        requires
            board_wf(old(self).board@),
            pose_ok(
                old(self).board@,
                old(self).tetromino,
                old(self).dx as int,
                old(self).dy as int,
            ),
        ensures
            final(self).board@ == old(self).board@,
            final(self).tetromino == old(self).tetromino,
            final(self).dx == old(self).dx,
            final(self).dy == old(self).dy,
            final(self).lines_cleared == old(self).lines_cleared,
            final(self).wf(),
    {
        proof {
            let sh = shape_spec(self.tetromino.kind, self.tetromino.orientation);
            assert(sh[0].0 + self.dy < HEIGHT);
            assert(forall|k: int|
                0 <= k < 4 ==> 0 <= (#[trigger] shape_spec(
                    self.tetromino.kind,
                    self.tetromino.orientation,
                )[k]).1 + self.dx < WIDTH);
        }
        let mut probe = self.dy;
        while !self.collides_at(probe + 1)
            invariant
                board_wf(self.board@),
                cols_ok(self.tetromino, self.dx as int),
                self.dy <= probe < HEIGHT,
                forall|q: int|
                    self.dy <= q <= probe ==> pose_ok(
                        self.board@,
                        self.tetromino,
                        self.dx as int,
                        q,
                    ),
            decreases HEIGHT - probe,
        {
            proof {
                let b = self.board@;
                let t = self.tetromino;
                let dxi = self.dx as int;
                let sh = shape_spec(t.kind, t.orientation);
                assert(pose_ok(b, t, dxi, probe + 1)) by {
                    assert forall|k: int| 0 <= k < 4 implies {
                        let cell = #[trigger] shape_spec(t.kind, t.orientation)[k];
                        &&& 0 <= cell.1 + dxi < WIDTH
                        &&& cell.0 + probe + 1 < HEIGHT
                        &&& !occupied(b, cell.0 + probe + 1, cell.1 + dxi)
                    } by {
                        assert(!cell_v_collides(b, sh[k], dxi, probe + 1));
                    }
                }
                assert(sh[0].0 + probe + 1 < HEIGHT);
            }
            probe = probe + 1;
        }
        self.projection_dy = probe;
    }
}

impl Game {
    /// A fresh game over an empty board, with a piece of the given kind
    /// spawned at board-center.
    pub fn with_piece(kind: PieceKind) -> (g: Game)
        ensures
            g.wf(),
            g.board@ == Seq::<Block>::empty(),
            g.tetromino.kind == kind,
            g.tetromino.orientation == Orientation::Up,
            g.dx == SPAWN_DX,
            g.dy == 0,
            g.lines_cleared == 0,
    {
        let t = Tetromino::new(kind);
        let mut g = Game {
            board: Board::new(),
            tetromino: t,
            dx: SPAWN_DX,
            dy: 0,
            projection_dy: 0,
            lines_cleared: 0,
        };
        proof {
            lemma_shape_valid(t.kind, t.orientation);
            assert(pose_ok(g.board@, g.tetromino, g.dx as int, g.dy as int)) by {
                assert forall|k: int| 0 <= k < 4 implies {
                    let cell = #[trigger] shape_spec(t.kind, t.orientation)[k];
                    &&& 0 <= cell.1 + SPAWN_DX < WIDTH
                    &&& cell.0 + 0 < HEIGHT
                    &&& !occupied(g.board@, cell.0 + 0, cell.1 + SPAWN_DX)
                } by {
                    assert(shape_spec(t.kind, t.orientation)[k].0 < 4);
                    assert(shape_spec(t.kind, t.orientation)[k].1 < 4);
                }
            }
        }
        g.update_projection();
        g
    }

    /// A fresh game over an empty board, with a random piece spawned at
    /// board-center.
    pub fn new() -> (g: Game)
        ensures
            g.wf(),
            g.board@ == Seq::<Block>::empty(),
            g.tetromino.orientation == Orientation::Up,
            g.dx == SPAWN_DX,
            g.dy == 0,
            g.lines_cleared == 0,
    {
        let t = Tetromino::random();
        Game::with_piece(t.kind)
    }

    /// A game restored from settled blocks and a score, with a piece of
    /// the given kind spawned at board-center. Yields `None` exactly when
    /// the blocks do not form a well-formed board or the spawned piece
    /// would immediately collide.
    pub fn from_state(blocks: Vec<Block>, kind: PieceKind, lines_cleared: usize) -> (r:
        Option<Game>)
        ensures
            r is Some <==> board_wf(blocks@) && !v_collision(
                blocks@,
                Tetromino { kind, orientation: Orientation::Up },
                SPAWN_DX as int,
                0,
            ),
            r matches Some(g) ==> {
                &&& g.wf()
                &&& g.board@ == blocks@
                &&& g.tetromino == (Tetromino { kind, orientation: Orientation::Up })
                &&& g.dx == SPAWN_DX
                &&& g.dy == 0
                &&& g.lines_cleared == lines_cleared
            },
    {
        let n = blocks.len();
        let mut i: usize = 0;
        while i < n
            invariant
                i <= n,
                n == blocks@.len(),
                forall|k: int| 0 <= k < i ==> (#[trigger] blocks@[k]).y < HEIGHT && blocks@[k].x
                    < WIDTH,
            decreases n - i,
        {
            let b = blocks[i];
            if b.y >= HEIGHT || b.x >= WIDTH {
                return None;
            }
            i = i + 1;
        }
        let mut a: usize = 0;
        while a < n
            invariant
                a <= n,
                n == blocks@.len(),
                forall|k1: int, k2: int|
                    0 <= k1 < k2 < n && k1 < a ==> !((#[trigger] blocks@[k1]).y == (
                    #[trigger] blocks@[k2]).y && blocks@[k1].x == blocks@[k2].x),
            decreases n - a,
        {
            let mut j: usize = a + 1;
            while j < n
                invariant
                    a < j <= n,
                    n == blocks@.len(),
                    forall|k2: int| a < k2 < j ==> !((#[trigger] blocks@[k2]).y == blocks@[
                        a as int].y && blocks@[k2].x == blocks@[a as int].x),
                decreases n - j,
            {
                if blocks[j].y == blocks[a].y && blocks[j].x == blocks[a].x {
                    return None;
                }
                j = j + 1;
            }
            a = a + 1;
        }
        let t = Tetromino::new(kind);
        let mut g = Game {
            board: Board { blocks },
            tetromino: t,
            dx: SPAWN_DX,
            dy: 0,
            projection_dy: 0,
            lines_cleared,
        };
        proof {
            lemma_shape_valid(t.kind, t.orientation);
            assert(cols_ok(t, SPAWN_DX as int)) by {
                assert forall|k: int| 0 <= k < 4 implies 0 <= (#[trigger] shape_spec(
                    t.kind,
                    t.orientation,
                )[k]).1 + SPAWN_DX < WIDTH by {
                    assert(shape_spec(t.kind, t.orientation)[k].1 < 4);
                }
            }
        }
        if g.is_vertical_collision() {
            return None;
        }
        proof {
            let b = g.board@;
            let sh = shape_spec(t.kind, t.orientation);
            assert(pose_ok(b, t, SPAWN_DX as int, 0)) by {
                assert forall|k: int| 0 <= k < 4 implies {
                    let cell = #[trigger] shape_spec(t.kind, t.orientation)[k];
                    &&& 0 <= cell.1 + SPAWN_DX < WIDTH
                    &&& cell.0 + 0 < HEIGHT
                    &&& !occupied(b, cell.0 + 0, cell.1 + SPAWN_DX)
                } by {
                    assert(shape_spec(t.kind, t.orientation)[k].0 < 4);
                    assert(!cell_v_collides(b, sh[k], SPAWN_DX as int, 0));
                }
            }
        }
        g.update_projection();
        Some(g)
    }
}

/// The four occupied world cells of the piece at offsets (dx, dy), as
/// (row, column) pairs.
pub open spec fn world_cells(t: Tetromino, dx: int, dy: int) -> Seq<(usize, usize)> {
    Seq::new(
        4,
        |k: int|
            (
                ((shape_spec(t.kind, t.orientation)[k]).0 + dy) as usize,
                ((shape_spec(t.kind, t.orientation)[k]).1 + dx) as usize,
            ),
    )
}

/// The piece locked at vertical offset `dy` occupies some cell of row `r`.
pub open spec fn touches_row(t: Tetromino, dy: int, r: int) -> bool {
    exists|k: int| 0 <= k < 4 && (#[trigger] shape_spec(t.kind, t.orientation)[k]).0 + dy == r
}

/// The rows strictly above `r` that the locked piece touches and that are
/// completely filled on board `b`, in increasing order.
pub open spec fn full_touched_upto(b: Seq<Block>, t: Tetromino, dy: int, r: int) -> Seq<usize>
    decreases r,
{
    if r <= 0 {
        Seq::empty()
    } else {
        let rest = full_touched_upto(b, t, dy, r - 1);
        if touches_row(t, dy, r - 1) && row_full(b, r - 1) {
            rest.push((r - 1) as usize)
        } else {
            rest
        }
    }
}

/// The completely filled rows among those the locked piece touches, in
/// increasing order.
pub open spec fn full_touched_rows(b: Seq<Block>, t: Tetromino, dy: int) -> Seq<usize> {
    full_touched_upto(b, t, dy, HEIGHT as int)
}

/// The board with the piece's four world cells settled at offsets
/// (dx, dy), before any row is cleared.
pub open spec fn locked_board(b: Seq<Block>, t: Tetromino, dx: int, dy: int) -> Seq<Block> {
    b + placed_blocks(world_cells(t, dx, dy), color_spec(t.kind))
}

/// What locking the piece at offsets (dx, dy) does to board `b`: the
/// board after the piece's blocks settle and its full touched rows are
/// cleared, together with the count of cleared rows.
pub open spec fn lock_outcome(b: Seq<Block>, t: Tetromino, dx: int, dy: int) -> (Seq<Block>, int) {
    let placed = locked_board(b, t, dx, dy);
    let rows = full_touched_rows(placed, t, dy);
    (cleared_seq(placed, rows), rows.len() as int)
}

/// The lines-cleared counter after `gained` more lines, clamped at the
/// top of `usize`.
pub open spec fn saturated_score(lines: int, gained: int) -> int {
    if lines + gained > usize::MAX {
        usize::MAX as int
    } else {
        lines + gained
    }
}

/// A piece of kind `k`, freshly spawned at board-center over board `b`,
/// would already collide.
pub open spec fn spawn_blocked(b: Seq<Block>, k: PieceKind) -> bool {
    v_collision(
        b,
        Tetromino { kind: k, orientation: Orientation::Up },
        SPAWN_DX as int,
        0,
    )
}

/// The spawn transition over board `b` with score `lines`: some random
/// kind is drawn and spawned at board-center in the initial orientation;
/// if the drawn piece cannot even occupy its spawn cells, the whole game
/// resets to its initial empty state instead.
pub open spec fn spawn_step(b: Seq<Block>, lines: int, post: Game) -> bool {
    &&& post.dx == SPAWN_DX
    &&& post.dy == 0
    &&& post.tetromino.orientation == Orientation::Up
    &&& exists|k: PieceKind|
        if #[trigger] spawn_blocked(b, k) {
            post.board@ == Seq::<Block>::empty() && post.lines_cleared == 0
        } else {
            &&& post.tetromino == (Tetromino { kind: k, orientation: Orientation::Up })
            &&& post.board@ == b
            &&& post.lines_cleared == lines
        }
}

/// The lock-and-spawn transition: the piece settles at its resting offset
/// `pre.projection_dy`, its full touched rows are cleared and counted,
/// and a random piece spawns at board-center over the cleared board.
pub open spec fn lock_step(pre: Game, post: Game) -> bool {
    let outcome = lock_outcome(pre.board@, pre.tetromino, pre.dx as int, pre.projection_dy as int);
    spawn_step(outcome.0, saturated_score(pre.lines_cleared as int, outcome.1), post)
}

/// The states agree on every observable component.
pub open spec fn same_state(a: Game, b: Game) -> bool {
    &&& a.board@ == b.board@
    &&& a.tetromino == b.tetromino
    &&& a.dx == b.dx
    &&& a.dy == b.dy
    &&& a.projection_dy == b.projection_dy
    &&& a.lines_cleared == b.lines_cleared
}

/// The state after an accepted horizontal move to offset `dx`: only the
/// horizontal offset and the ghost projection change.
pub open spec fn moved_to(pre: Game, post: Game, dx: int) -> bool {
    &&& post.board@ == pre.board@
    &&& post.tetromino == pre.tetromino
    &&& post.dx == dx
    &&& post.dy == pre.dy
    &&& post.lines_cleared == pre.lines_cleared
}

/// The state after an accepted rotation to piece `t`: only the piece's
/// orientation and the ghost projection change.
pub open spec fn rotated_to(pre: Game, post: Game, t: Tetromino) -> bool {
    &&& post.board@ == pre.board@
    &&& post.tetromino == t
    &&& post.dx == pre.dx
    &&& post.dy == pre.dy
    &&& post.lines_cleared == pre.lines_cleared
}

/// The piece one clockwise step from `t`.
pub open spec fn rotated_cw(t: Tetromino) -> Tetromino {
    Tetromino { kind: t.kind, orientation: clockwise(t.orientation) }
}

/// The piece one counterclockwise step from `t`.
pub open spec fn rotated_ccw(t: Tetromino) -> Tetromino {
    Tetromino { kind: t.kind, orientation: counterclockwise(t.orientation) }
}

/// A pose that collides neither horizontally nor vertically is free.
proof fn lemma_no_hv_pose(b: Seq<Block>, t: Tetromino, dx: int, dy: int)
    requires
        !h_collision(b, t, dx, dy),
        !v_collision(b, t, dx, dy),
    ensures
        pose_ok(b, t, dx, dy),
{
    assert forall|k: int| 0 <= k < 4 implies {
        let cell = #[trigger] shape_spec(t.kind, t.orientation)[k];
        &&& 0 <= cell.1 + dx < WIDTH
        &&& cell.0 + dy < HEIGHT
        &&& !occupied(b, cell.0 + dy, cell.1 + dx)
    } by {
        assert(!cell_h_collides(b, shape_spec(t.kind, t.orientation)[k], dx, dy));
        assert(!cell_v_collides(b, shape_spec(t.kind, t.orientation)[k], dx, dy));
    }
}

/// A pose whose rows already fit and that collides nowhere horizontally
/// is free.
proof fn lemma_no_h_pose(b: Seq<Block>, t: Tetromino, dx: int, dy: int)
    requires
        !h_collision(b, t, dx, dy),
        forall|k: int|
            0 <= k < 4 ==> (#[trigger] shape_spec(t.kind, t.orientation)[k]).0 + dy < HEIGHT,
    ensures
        pose_ok(b, t, dx, dy),
{
    assert forall|k: int| 0 <= k < 4 implies {
        let cell = #[trigger] shape_spec(t.kind, t.orientation)[k];
        &&& 0 <= cell.1 + dx < WIDTH
        &&& cell.0 + dy < HEIGHT
        &&& !occupied(b, cell.0 + dy, cell.1 + dx)
    } by {
        assert(!cell_h_collides(b, shape_spec(t.kind, t.orientation)[k], dx, dy));
    }
}

impl Game {
    /// Commit the active piece's occupied cells to the board at the
    /// current offsets, then detect, count and clear the full rows among
    /// those it touched.
    fn place(&mut self)
        requires
            board_wf(old(self).board@),
            pose_ok(
                old(self).board@,
                old(self).tetromino,
                old(self).dx as int,
                old(self).dy as int,
            ),
        ensures
            final(self).tetromino == old(self).tetromino,
            final(self).dx == old(self).dx,
            final(self).dy == old(self).dy,
            final(self).projection_dy == old(self).projection_dy,
            board_wf(final(self).board@),
            final(self).board@ == lock_outcome(
                old(self).board@,
                old(self).tetromino,
                old(self).dx as int,
                old(self).dy as int,
            ).0,
            final(self).lines_cleared as int == saturated_score(
                old(self).lines_cleared as int,
                lock_outcome(
                    old(self).board@,
                    old(self).tetromino,
                    old(self).dx as int,
                    old(self).dy as int,
                ).1,
            ),
    {
        let ghost t = self.tetromino;
        let ghost dxi = self.dx as int;
        let ghost dyi = self.dy as int;
        let ghost sh = shape_spec(t.kind, t.orientation);
        let cells = self.tetromino.blocks();
        proof {
            lemma_shape_valid(t.kind, t.orientation);
            assert(sh[0].0 + dyi < HEIGHT && 0 <= sh[0].1 + dxi < WIDTH);
            assert(sh[1].0 + dyi < HEIGHT && 0 <= sh[1].1 + dxi < WIDTH);
            assert(sh[2].0 + dyi < HEIGHT && 0 <= sh[2].1 + dxi < WIDTH);
            assert(sh[3].0 + dyi < HEIGHT && 0 <= sh[3].1 + dxi < WIDTH);
        }
        let r0 = cells[0].0 + self.dy;
        let r1 = cells[1].0 + self.dy;
        let r2 = cells[2].0 + self.dy;
        let r3 = cells[3].0 + self.dy;
        let c0 = clamped_add(cells[0].1, self.dx);
        let c1 = clamped_add(cells[1].1, self.dx);
        let c2 = clamped_add(cells[2].1, self.dx);
        let c3 = clamped_add(cells[3].1, self.dx);
        let world: [(usize, usize); 4] = [(r0, c0), (r1, c1), (r2, c2), (r3, c3)];
        proof {
            assert(world@ =~= world_cells(t, dxi, dyi));
            assert forall|k1: int, k2: int| 0 <= k1 < k2 < 4 implies !((#[trigger] world@[k1]).0
                == (#[trigger] world@[k2]).0 && world@[k1].1 == world@[k2].1) by {
                let a = sh[k1];
                let b = sh[k2];
                assert(a != b);
                assert(a.0 + dyi < HEIGHT && 0 <= a.1 + dxi < WIDTH);
                assert(b.0 + dyi < HEIGHT && 0 <= b.1 + dxi < WIDTH);
            }
            assert forall|k: int| 0 <= k < 4 implies (#[trigger] world@[k]).0 < HEIGHT
                && world@[k].1 < WIDTH && !occupied(
                self.board@,
                world@[k].0 as int,
                world@[k].1 as int,
            ) by {
                assert(sh[k].0 + dyi < HEIGHT && 0 <= sh[k].1 + dxi < WIDTH && !occupied(
                    self.board@,
                    sh[k].0 + dyi,
                    sh[k].1 + dxi,
                ));
            }
        }
        let color = self.tetromino.color();
        self.board.place(world, color);
        let ghost placed = self.board@;
        proof {
            assert(placed == old(self).board@ + placed_blocks(
                world_cells(t, dxi, dyi),
                color_spec(t.kind),
            ));
        }
        let mut rows: Vec<usize> = Vec::new();
        let mut r: usize = 0;
        while r < HEIGHT
            invariant
                r <= HEIGHT,
                self.board@ == placed,
                board_wf(placed),
                rows@ == full_touched_upto(placed, t, dyi, r as int),
                forall|i: int| 0 <= i < rows@.len() ==> (#[trigger] rows@[i]) < r,
                sorted_strict(rows@),
                r0 == sh[0].0 + dyi,
                r1 == sh[1].0 + dyi,
                r2 == sh[2].0 + dyi,
                r3 == sh[3].0 + dyi,
                sh == shape_spec(t.kind, t.orientation),
            decreases HEIGHT - r,
        {
            let touched = r0 == r || r1 == r || r2 == r || r3 == r;
            proof {
                if touched {
                    assert(touches_row(t, dyi, r as int)) by {
                        if r0 == r {
                            assert(sh[0].0 + dyi == r);
                        } else if r1 == r {
                            assert(sh[1].0 + dyi == r);
                        } else if r2 == r {
                            assert(sh[2].0 + dyi == r);
                        } else {
                            assert(sh[3].0 + dyi == r);
                        }
                    }
                } else {
                    if touches_row(t, dyi, r as int) {
                        let k = choose|k: int|
                            0 <= k < 4 && (#[trigger] shape_spec(t.kind, t.orientation)[k]).0 + dyi
                                == r;
                        assert(false);
                    }
                }
            }
            let full = self.board.is_row_full(r);
            let ghost prev = rows@;
            if touched && full {
                rows.push(r);
            }
            proof {
                assert(rows@ == full_touched_upto(placed, t, dyi, r + 1));
                if touched && full {
                    assert(sorted_strict(rows@)) by {
                        assert(forall|i: int| 0 <= i < prev.len() ==> (#[trigger] prev[i]) < r);
                        assert(forall|i: int|
                            0 <= i < prev.len() ==> rows@[i] == (#[trigger] prev[i]));
                    }
                }
            }
            r = r + 1;
        }
        proof {
            assert(rows@ == full_touched_rows(placed, t, dyi));
        }
        let gained = self.board.clear_rows(&rows);
        self.lines_cleared = if self.lines_cleared <= usize::MAX - gained {
            self.lines_cleared + gained
        } else {
            usize::MAX
        };
    }

    /// Replace the active piece by a freshly drawn random one at
    /// board-center; if that piece cannot even occupy its spawn cells,
    /// reinitialize the whole game.
    fn next_tetromino(&mut self)
        requires
            board_wf(old(self).board@),
        ensures
            final(self).wf(),
            spawn_step(old(self).board@, old(self).lines_cleared as int, *final(self)),
    {
        let t = Tetromino::random();
        self.tetromino = t;
        self.dy = 0;
        self.dx = SPAWN_DX;
        proof {
            lemma_shape_valid(t.kind, t.orientation);
            assert(cols_ok(t, SPAWN_DX as int)) by {
                assert forall|k: int| 0 <= k < 4 implies 0 <= (#[trigger] shape_spec(
                    t.kind,
                    t.orientation,
                )[k]).1 + SPAWN_DX < WIDTH by {
                    assert(shape_spec(t.kind, t.orientation)[k].1 < 4);
                }
            }
        }
        if self.is_vertical_collision() {
            *self = Game::new();
            proof {
                assert(t == (Tetromino { kind: t.kind, orientation: Orientation::Up }));
                assert(spawn_blocked(old(self).board@, t.kind));
            }
        } else {
            proof {
                let b = self.board@;
                assert(pose_ok(b, t, SPAWN_DX as int, 0)) by {
                    assert forall|k: int| 0 <= k < 4 implies {
                        let cell = #[trigger] shape_spec(t.kind, t.orientation)[k];
                        &&& 0 <= cell.1 + SPAWN_DX < WIDTH
                        &&& cell.0 + 0 < HEIGHT
                        &&& !occupied(b, cell.0 + 0, cell.1 + SPAWN_DX)
                    } by {
                        assert(shape_spec(t.kind, t.orientation)[k].0 < 4);
                        assert(!cell_v_collides(
                            b,
                            shape_spec(t.kind, t.orientation)[k],
                            SPAWN_DX as int,
                            0,
                        ));
                    }
                }
            }
            self.update_projection();
            proof {
                assert(t == (Tetromino { kind: t.kind, orientation: Orientation::Up }));
                assert(!spawn_blocked(old(self).board@, t.kind));
            }
        }
    }

    /// One gravity tick: if the piece has reached its resting offset,
    /// lock it, clear and count full rows, and spawn the next piece;
    /// otherwise let it fall one row.
    pub fn update(&mut self)
        requires
            old(self).wf(),
        ensures
            final(self).wf(),
            old(self).dy == old(self).projection_dy ==> lock_step(*old(self), *final(self)),
            old(self).dy != old(self).projection_dy ==> {
                &&& final(self).board@ == old(self).board@
                &&& final(self).tetromino == old(self).tetromino
                &&& final(self).dx == old(self).dx
                &&& final(self).dy == old(self).dy + 1
                &&& final(self).projection_dy == old(self).projection_dy
                &&& final(self).lines_cleared == old(self).lines_cleared
            },
    {
        if self.dy == self.projection_dy {
            self.place();
            self.next_tetromino();
        } else {
            proof {
                let b = self.board@;
                let t = self.tetromino;
                let dxi = self.dx as int;
                let p = self.projection_dy as int;
                assert(pose_ok(b, t, dxi, p));
                assert(shape_spec(t.kind, t.orientation)[0].0 + p < HEIGHT);
                assert(pose_ok(b, t, dxi, self.dy + 1));
            }
            self.dy = self.dy + 1;
        }
    }

    /// Hard drop: move the piece straight to its resting offset and lock
    /// it there at once.
    pub fn hard_drop(&mut self)
        requires
            old(self).wf(),
        ensures
            final(self).wf(),
            lock_step(*old(self), *final(self)),
    {
        proof {
            let b = self.board@;
            let t = self.tetromino;
            let dxi = self.dx as int;
            let p = self.projection_dy as int;
            assert(pose_ok(b, t, dxi, p));
        }
        self.dy = self.projection_dy;
        self.update();
    }

    /// React to one input event: moves and rotations are tried
    /// tentatively and reverted on collision; an accepted change
    /// recomputes the ghost projection; a hard drop locks at once.
    pub fn handle_input(&mut self, key: Key)
        requires
            old(self).wf(),
        ensures
            final(self).wf(),
            match key {
                Key::Left => if h_collision(
                    old(self).board@,
                    old(self).tetromino,
                    old(self).dx - 1,
                    old(self).dy as int,
                ) {
                    same_state(*old(self), *final(self))
                } else {
                    moved_to(*old(self), *final(self), old(self).dx - 1)
                },
                Key::Right => if h_collision(
                    old(self).board@,
                    old(self).tetromino,
                    old(self).dx + 1,
                    old(self).dy as int,
                ) {
                    same_state(*old(self), *final(self))
                } else {
                    moved_to(*old(self), *final(self), old(self).dx + 1)
                },
                Key::RotateCW => if h_collision(
                    old(self).board@,
                    rotated_cw(old(self).tetromino),
                    old(self).dx as int,
                    old(self).dy as int,
                ) || v_collision(
                    old(self).board@,
                    rotated_cw(old(self).tetromino),
                    old(self).dx as int,
                    old(self).dy as int,
                ) {
                    same_state(*old(self), *final(self))
                } else {
                    rotated_to(*old(self), *final(self), rotated_cw(old(self).tetromino))
                },
                Key::RotateCCW => if h_collision(
                    old(self).board@,
                    rotated_ccw(old(self).tetromino),
                    old(self).dx as int,
                    old(self).dy as int,
                ) || v_collision(
                    old(self).board@,
                    rotated_ccw(old(self).tetromino),
                    old(self).dx as int,
                    old(self).dy as int,
                ) {
                    same_state(*old(self), *final(self))
                } else {
                    rotated_to(*old(self), *final(self), rotated_ccw(old(self).tetromino))
                },
                Key::HardDrop => lock_step(*old(self), *final(self)),
            },
    {
        match key {
            Key::Left => {
                proof {
                    lemma_shape_valid(self.tetromino.kind, self.tetromino.orientation);
                    assert(0 <= shape_spec(self.tetromino.kind, self.tetromino.orientation)[0].1
                        + self.dx);
                    assert(shape_spec(self.tetromino.kind, self.tetromino.orientation)[0].1 < 4);
                }
                self.dx = self.dx - 1;
                if self.is_horizontal_collision() {
                    self.dx = self.dx + 1;
                } else {
                    proof {
                        lemma_no_h_pose(
                            self.board@,
                            self.tetromino,
                            self.dx as int,
                            self.dy as int,
                        );
                    }
                    self.update_projection();
                }
            },
            Key::Right => {
                proof {
                    assert(shape_spec(self.tetromino.kind, self.tetromino.orientation)[0].1
                        + self.dx < WIDTH);
                }
                self.dx = self.dx + 1;
                if self.is_horizontal_collision() {
                    self.dx = self.dx - 1;
                } else {
                    proof {
                        lemma_no_h_pose(
                            self.board@,
                            self.tetromino,
                            self.dx as int,
                            self.dy as int,
                        );
                    }
                    self.update_projection();
                }
            },
            Key::RotateCW => {
                self.tetromino.rotate_clockwise();
                let collides = if self.is_horizontal_collision() {
                    true
                } else {
                    proof {
                        assert(cols_ok(self.tetromino, self.dx as int)) by {
                            assert forall|k: int| 0 <= k < 4 implies 0 <= (#[trigger] shape_spec(
                                self.tetromino.kind,
                                self.tetromino.orientation,
                            )[k]).1 + self.dx < WIDTH by {
                                assert(!cell_h_collides(
                                    self.board@,
                                    shape_spec(self.tetromino.kind, self.tetromino.orientation)[k],
                                    self.dx as int,
                                    self.dy as int,
                                ));
                            }
                        }
                    }
                    self.is_vertical_collision()
                };
                if collides {
                    self.tetromino.rotate_counterclockwise();
                    proof {
                        lemma_rotations_inverse(old(self).tetromino.orientation);
                    }
                } else {
                    proof {
                        lemma_no_hv_pose(
                            self.board@,
                            self.tetromino,
                            self.dx as int,
                            self.dy as int,
                        );
                    }
                    self.update_projection();
                }
            },
            Key::RotateCCW => {
                self.tetromino.rotate_counterclockwise();
                let collides = if self.is_horizontal_collision() {
                    true
                } else {
                    proof {
                        assert(cols_ok(self.tetromino, self.dx as int)) by {
                            assert forall|k: int| 0 <= k < 4 implies 0 <= (#[trigger] shape_spec(
                                self.tetromino.kind,
                                self.tetromino.orientation,
                            )[k]).1 + self.dx < WIDTH by {
                                assert(!cell_h_collides(
                                    self.board@,
                                    shape_spec(self.tetromino.kind, self.tetromino.orientation)[k],
                                    self.dx as int,
                                    self.dy as int,
                                ));
                            }
                        }
                    }
                    self.is_vertical_collision()
                };
                if collides {
                    self.tetromino.rotate_clockwise();
                    proof {
                        lemma_rotations_inverse(old(self).tetromino.orientation);
                    }
                } else {
                    proof {
                        lemma_no_hv_pose(
                            self.board@,
                            self.tetromino,
                            self.dx as int,
                            self.dy as int,
                        );
                    }
                    self.update_projection();
                }
            },
            Key::HardDrop => {
                self.hard_drop();
            },
        }
    }

    /// The four world cells of the active piece at the probed vertical
    /// offset.
    fn cells_at(&self, dy: usize) -> (cells: [(usize, usize); 4])
        requires
            pose_ok(self.board@, self.tetromino, self.dx as int, dy as int),
        ensures
            cells@ == world_cells(self.tetromino, self.dx as int, dy as int),
    {
        let ghost t = self.tetromino;
        let ghost dxi = self.dx as int;
        let ghost sh = shape_spec(t.kind, t.orientation);
        let local = self.tetromino.blocks();
        proof {
            assert(sh[0].0 + dy < HEIGHT && 0 <= sh[0].1 + dxi < WIDTH);
            assert(sh[1].0 + dy < HEIGHT && 0 <= sh[1].1 + dxi < WIDTH);
            assert(sh[2].0 + dy < HEIGHT && 0 <= sh[2].1 + dxi < WIDTH);
            assert(sh[3].0 + dy < HEIGHT && 0 <= sh[3].1 + dxi < WIDTH);
        }
        let cells: [(usize, usize); 4] = [
            (local[0].0 + dy, clamped_add(local[0].1, self.dx)),
            (local[1].0 + dy, clamped_add(local[1].1, self.dx)),
            (local[2].0 + dy, clamped_add(local[2].1, self.dx)),
            (local[3].0 + dy, clamped_add(local[3].1, self.dx)),
        ];
        proof {
            assert(cells@ =~= world_cells(t, dxi, dy as int));
        }
        cells
    }

    /// The settled blocks, for the renderer to read; their order is
    /// irrelevant.
    pub fn blocks(&self) -> (r: &Vec<Block>)
        ensures
            r@ == self.board@,
    {
        &self.board.blocks
    }

    /// The four occupied world cells of the active piece.
    pub fn active_cells(&self) -> (cells: [(usize, usize); 4])
        requires
            self.wf(),
        ensures
            cells@ == world_cells(self.tetromino, self.dx as int, self.dy as int),
    {
        self.cells_at(self.dy)
    }

    /// The four world cells of the ghost piece, at the resting offset the
    /// active piece would lock on.
    pub fn ghost_cells(&self) -> (cells: [(usize, usize); 4])
        requires
            self.wf(),
        ensures
            cells@ == world_cells(
                self.tetromino,
                self.dx as int,
                self.projection_dy as int,
            ),
    {
        proof {
            assert(pose_ok(
                self.board@,
                self.tetromino,
                self.dx as int,
                self.projection_dy as int,
            ));
        }
        self.cells_at(self.projection_dy)
    }

    /// The current level, one tier for every `LINES_TO_LEVEL` cleared
    /// lines.
    pub fn level(&self) -> (l: usize)
        ensures
            l == self.lines_cleared / LINES_TO_LEVEL,
    {
        self.lines_cleared / LINES_TO_LEVEL
    }
}

/// Four rotations in either direction return a piece to its original
/// orientation, and with it, at any fixed offsets, to its original
/// occupied world cells.
pub proof fn lemma_rotation_cycle_cells(t: Tetromino, dx: int, dy: int)
    ensures
        rotated_cw(rotated_cw(rotated_cw(rotated_cw(t)))) == t,
        world_cells(rotated_cw(rotated_cw(rotated_cw(rotated_cw(t)))), dx, dy) == world_cells(
            t,
            dx,
            dy,
        ),
        rotated_ccw(rotated_ccw(rotated_ccw(rotated_ccw(t)))) == t,
        world_cells(rotated_ccw(rotated_ccw(rotated_ccw(rotated_ccw(t)))), dx, dy) == world_cells(
            t,
            dx,
            dy,
        ),
{
    crate::tetromino::lemma_rotation_cycle(t.orientation);
}

/// A piece of any kind, freshly spawned at board-center over an empty
/// board, collides nowhere horizontally.
pub proof fn lemma_spawn_free(kind: PieceKind)
    ensures
        !h_collision(
            Seq::<Block>::empty(),
            Tetromino { kind, orientation: Orientation::Up },
            SPAWN_DX as int,
            0,
        ),
{
    let t = Tetromino { kind, orientation: Orientation::Up };
    let b = Seq::<Block>::empty();
    lemma_shape_valid(t.kind, t.orientation);
    if h_collision(b, t, SPAWN_DX as int, 0) {
        let k = choose|k: int|
            0 <= k < 4 && cell_h_collides(
                b,
                #[trigger] shape_spec(t.kind, t.orientation)[k],
                SPAWN_DX as int,
                0,
            );
        assert(shape_spec(t.kind, t.orientation)[k].1 < 4);
        assert(false);
    }
}

/// Over an empty board the resting offset lands the piece's lowest
/// occupied cell exactly on the bottom row: some cell rests on row
/// `HEIGHT - 1` and none lies below it.
pub proof fn lemma_resting_on_empty(t: Tetromino, dx: int, dy: int, p: int)
    requires
        is_resting(Seq::<Block>::empty(), t, dx, dy, p),
    ensures
        exists|k: int|
            0 <= k < 4 && (#[trigger] shape_spec(t.kind, t.orientation)[k]).0 + p == HEIGHT - 1,
        forall|k: int|
            0 <= k < 4 ==> (#[trigger] shape_spec(t.kind, t.orientation)[k]).0 + p <= HEIGHT - 1,
{
    let b = Seq::<Block>::empty();
    assert(pose_ok(b, t, dx, p));
    let k = choose|k: int|
        0 <= k < 4 && cell_v_collides(b, #[trigger] shape_spec(t.kind, t.orientation)[k], dx, p + 1);
    assert(shape_spec(t.kind, t.orientation)[k].0 + p == HEIGHT - 1);
}

/// A piece with an occupied cell already on column 0 cannot move further
/// left: the probed offset one step left collides, whatever the board.
pub proof fn lemma_left_wall(b: Seq<Block>, t: Tetromino, dx: int, dy: int)
    requires
        exists|k: int|
            0 <= k < 4 && (#[trigger] shape_spec(t.kind, t.orientation)[k]).1 + dx == 0,
    ensures
        h_collision(b, t, dx - 1, dy),
{
    let k = choose|k: int|
        0 <= k < 4 && (#[trigger] shape_spec(t.kind, t.orientation)[k]).1 + dx == 0;
    assert(cell_h_collides(b, shape_spec(t.kind, t.orientation)[k], dx - 1, dy));
}

/// The block `bl` after the single row `r` is cleared: blocks above it
/// drop one row, blocks below it stay.
pub open spec fn single_shifted(bl: Block, r: int) -> Block {
    Block {
        x: bl.x,
        y: if bl.y < r {
            (bl.y + 1) as usize
        } else {
            bl.y
        },
        color: bl.color,
    }
}

/// When row `r` is the only full row among those the locked piece
/// touches, the scan of the board's rows finds exactly it.
proof fn lemma_full_touched_single(placed: Seq<Block>, t: Tetromino, dy: int, r: int, m: int)
    requires
        0 <= r < HEIGHT,
        touches_row(t, dy, r),
        row_full(placed, r),
        forall|r2: int|
            0 <= r2 < HEIGHT && r2 != r && #[trigger] touches_row(t, dy, r2) ==> !row_full(
                placed,
                r2,
            ),
        0 <= m <= HEIGHT,
    ensures
        full_touched_upto(placed, t, dy, m) == if m <= r {
            Seq::<usize>::empty()
        } else {
            seq![r as usize]
        },
    decreases m,
{
    if m > 0 {
        lemma_full_touched_single(placed, t, dy, r, m - 1);
        if m - 1 == r {
            assert(full_touched_upto(placed, t, dy, m) =~= seq![r as usize]);
        } else {
            if touches_row(t, dy, m - 1) && row_full(placed, m - 1) {
                assert(false);
            }
        }
    }
}

/// Locking a piece that completes exactly one row `r` clears exactly
/// that row: the cleared-line count is one (so the score rises by one
/// through the lock transition), no settled block of row `r` survives,
/// every surviving block above it drops by exactly one row, and every
/// block below it keeps its position and color.
pub proof fn lemma_single_row_clear(b: Seq<Block>, t: Tetromino, dx: int, dy: int, r: int)
    requires
        0 <= r < HEIGHT,
        touches_row(t, dy, r),
        row_full(locked_board(b, t, dx, dy), r),
        forall|r2: int|
            0 <= r2 < HEIGHT && r2 != r && #[trigger] touches_row(t, dy, r2) ==> !row_full(
                locked_board(b, t, dx, dy),
                r2,
            ),
    ensures
        lock_outcome(b, t, dx, dy).1 == 1,
        ({
            let placed = locked_board(b, t, dx, dy);
            let out = lock_outcome(b, t, dx, dy).0;
            &&& forall|i: int|
                0 <= i < out.len() ==> exists|j: int|
                    0 <= j < placed.len() && (#[trigger] out[i]) == single_shifted(placed[j], r)
                        && placed[j].y != r
            &&& forall|j: int|
                0 <= j < placed.len() && (#[trigger] placed[j]).y != r ==> out.contains(
                    single_shifted(placed[j], r),
                )
        }),
{
    let placed = locked_board(b, t, dx, dy);
    lemma_full_touched_single(placed, t, dy, r, HEIGHT as int);
    let rows = full_touched_rows(placed, t, dy);
    assert(rows == seq![r as usize]);
    assert forall|bl: Block| #[trigger] shifted_block(bl, rows) == single_shifted(bl, r) by {
        assert(shift_for(rows.drop_last(), bl.y as int) == 0) by {
            assert(rows.drop_last() =~= Seq::<usize>::empty());
            assert(shift_for(Seq::<usize>::empty(), bl.y as int) == 0);
        }
        assert(rows.last() == r as usize);
        assert(shift_for(rows, bl.y as int) == if r > bl.y {
            1nat
        } else {
            0nat
        });
    }
    assert forall|y: usize| #[trigger] rows.contains(y) <==> y == r as usize by {
        if rows.contains(y) {
            let i = choose|i: int| 0 <= i < rows.len() && rows[i] == y;
            assert(rows[0] == r as usize);
        }
        if y == r as usize {
            assert(rows[0] == y);
        }
    }
    crate::board::lemma_cleared_elems(placed, rows);
    crate::board::lemma_cleared_complete(placed, rows);
    let out = cleared_seq(placed, rows);
    assert forall|i: int| 0 <= i < out.len() implies exists|j: int|
        0 <= j < placed.len() && (#[trigger] out[i]) == single_shifted(placed[j], r) && placed[j].y
        != r by {
        let j = choose|j: int|
            0 <= j < placed.len() && !rows.contains(placed[j].y) && #[trigger] cleared_seq(
                placed,
                rows,
            )[i] == shifted_block(placed[j], rows);
        assert(out[i] == single_shifted(placed[j], r));
        assert(placed[j].y != r);
    }
    assert forall|j: int| 0 <= j < placed.len() && (#[trigger] placed[j]).y != r implies out
        .contains(single_shifted(placed[j], r)) by {
        assert(!rows.contains(placed[j].y));
        assert(out.contains(shifted_block(placed[j], rows)));
        assert(shifted_block(placed[j], rows) == single_shifted(placed[j], r));
    }
}

/// The resting offset is unique: from the same pose, any two offsets
/// that are free down from the piece and collide one row further
/// coincide. The ghost projection's row therefore always equals the row
/// a hard drop locks on.
pub proof fn lemma_resting_unique(
    b: Seq<Block>,
    t: Tetromino,
    dx: int,
    dy: int,
    p1: int,
    p2: int,
)
    requires
        is_resting(b, t, dx, dy, p1),
        is_resting(b, t, dx, dy, p2),
    ensures
        p1 == p2,
{
    if p1 < p2 {
        assert(pose_ok(b, t, dx, p1 + 1));
        let k = choose|k: int|
            0 <= k < 4 && cell_v_collides(
                b,
                #[trigger] shape_spec(t.kind, t.orientation)[k],
                dx,
                p1 + 1,
            );
        assert(false);
    }
    if p2 < p1 {
        assert(pose_ok(b, t, dx, p2 + 1));
        let k = choose|k: int|
            0 <= k < 4 && cell_v_collides(
                b,
                #[trigger] shape_spec(t.kind, t.orientation)[k],
                dx,
                p2 + 1,
            );
        assert(false);
    }
}

} // verus!
