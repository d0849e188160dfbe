//! The board of settled blocks: occupancy and row-completeness queries,
//! placement of new blocks, and row removal with gravity compaction.

use vstd::prelude::*;

verus! {

use crate::HEIGHT;
use crate::WIDTH;

/// A settled cell: its column `x`, its row `y`, and its color. For
/// collision and containment purposes only the position counts; the color
/// is carried for rendering.
#[derive(Clone, Copy, PartialEq, Eq, Structural, Debug)]
pub struct Block {
    pub x: usize,
    pub y: usize,
    pub color: u32,
}

/// The settled blocks of the playing field.
#[derive(Clone, Debug)]
pub struct Board {
    pub blocks: Vec<Block>,
}

impl View for Board {
    type V = Seq<Block>;

    open spec fn view(&self) -> Seq<Block> {
        self.blocks@
    }
}

/// Some settled block occupies the cell (row, col); the color does not
/// matter.
pub open spec fn occupied(b: Seq<Block>, row: int, col: int) -> bool {
    exists|k: int| 0 <= k < b.len() && b[k].y == row && b[k].x == col
}

/// Every settled block lies on the board, and no two settled blocks share a
/// position.
pub open spec fn board_wf(b: Seq<Block>) -> bool {
    &&& forall|k: int| 0 <= k < b.len() ==> (#[trigger] b[k]).y < HEIGHT && b[k].x < WIDTH
    &&& forall|k1: int, k2: int|
        0 <= k1 < k2 < b.len() ==> !((#[trigger] b[k1]).y == (#[trigger] b[k2]).y && b[k1].x
            == b[k2].x)
}

/// Every column of the given row holds a settled block.
pub open spec fn row_full(b: Seq<Block>, row: int) -> bool {
    forall|c: int| 0 <= c < WIDTH ==> occupied(b, row, c)
}

impl Board {
    /// An empty board.
    pub fn new() -> (b: Board)
        ensures
            b@ == Seq::<Block>::empty(),
    {
        let b = Board { blocks: Vec::new() };
        proof {
            assert(b@ =~= Seq::<Block>::empty());
        }
        b
    }

    /// Whether some settled block occupies the cell (row, col), whatever
    /// its color.
    pub fn contains(&self, row: usize, col: usize) -> (r: bool)
        ensures
            r == occupied(self@, row as int, col as int),
    {
        let n = self.blocks.len();
        let mut i: usize = 0;
        while i < n
            invariant
                i <= n,
                n == self.blocks.len(),
                forall|k: int| 0 <= k < i ==> !((#[trigger] self.blocks@[k]).y == row
                    && self.blocks@[k].x == col),
            decreases n - i,
        {
            let b = self.blocks[i];
            if b.y == row && b.x == col {
                return true;
            }
            i = i + 1;
        }
        false
    }

    /// Whether the given row is completely filled, which for a
    /// well-formed board is the same as holding exactly `WIDTH` settled
    /// blocks.
    pub fn is_row_full(&self, row: usize) -> (r: bool)
        requires
            row < HEIGHT,
        ensures
            r == row_full(self@, row as int),
    {
        let mut c: usize = 0;
        while c < WIDTH
            invariant
                c <= WIDTH,
                forall|c0: int| 0 <= c0 < c ==> occupied(self@, row as int, c0),
            decreases WIDTH - c,
        {
            if !self.contains(row, c) {
                return false;
            }
            c = c + 1;
        }
        true
    }

    /// Append the four given cells as settled blocks of the given color.
    pub fn place(&mut self, cells: [(usize, usize); 4], color: u32)
        requires
            board_wf(old(self)@),
            forall|k: int| 0 <= k < 4 ==> (#[trigger] cells@[k]).0 < HEIGHT && cells@[k].1
                < WIDTH,
            forall|k: int| 0 <= k < 4 ==> !occupied(
                old(self)@,
                (#[trigger] cells@[k]).0 as int,
                cells@[k].1 as int,
            ),
            forall|k1: int, k2: int|
                0 <= k1 < k2 < 4 ==> !((#[trigger] cells@[k1]).0 == (#[trigger] cells@[k2]).0
                    && cells@[k1].1 == cells@[k2].1),
        ensures
            final(self)@ == old(self)@ + placed_blocks(cells@, color),
            board_wf(final(self)@),
    {
        let ghost orig = self@;
        let mut k: usize = 0;
        while k < 4
            invariant
                k <= 4,
                self@ == orig + placed_blocks(cells@, color).take(k as int),
                board_wf(orig),
                forall|j: int| 0 <= j < 4 ==> (#[trigger] cells@[j]).0 < HEIGHT && cells@[j].1
                    < WIDTH,
                forall|j: int| 0 <= j < 4 ==> !occupied(
                    orig,
                    (#[trigger] cells@[j]).0 as int,
                    cells@[j].1 as int,
                ),
                forall|j1: int, j2: int|
                    0 <= j1 < j2 < 4 ==> !((#[trigger] cells@[j1]).0 == (#[trigger] cells@[j2]).0
                        && cells@[j1].1 == cells@[j2].1),
            decreases 4 - k,
        {
            let (row, col) = cells[k];
            self.blocks.push(Block { x: col, y: row, color });
            proof {
                assert(self@ =~= orig + placed_blocks(cells@, color).take(k + 1));
            }
            k = k + 1;
        }
        proof {
            assert(placed_blocks(cells@, color).take(4) =~= placed_blocks(cells@, color));
            lemma_place_wf(orig, cells@, color);
        }
    }
}

/// The row indices are pairwise distinct and listed in increasing order:
/// the canonical encoding of a set of rows.
pub open spec fn sorted_strict(rows: Seq<usize>) -> bool {
    forall|i: int, j: int| 0 <= i < j < rows.len() ==> rows[i] < rows[j]
}

/// How far a block resting in row `y` drops when the given rows are
/// cleared: one row for every cleared row strictly below it (numerically
/// greater, since rows grow downward).
pub open spec fn shift_for(rows: Seq<usize>, y: int) -> nat
    decreases rows.len(),
{
    if rows.len() == 0 {
        0
    } else {
        shift_for(rows.drop_last(), y) + if rows.last() > y {
            1nat
        } else {
            0nat
        }
    }
}

/// The block `b` after the given rows are cleared: dropped by one row per
/// cleared row below it.
pub open spec fn shifted_block(b: Block, rows: Seq<usize>) -> Block {
    Block { x: b.x, y: (b.y + shift_for(rows, b.y as int)) as usize, color: b.color }
}

/// The settled blocks after clearing the given rows: blocks on a cleared
/// row disappear, every other block drops by one row per cleared row below
/// it, and the original order of the survivors is kept.
pub open spec fn cleared_seq(s: Seq<Block>, rows: Seq<usize>) -> Seq<Block>
    decreases s.len(),
{
    if s.len() == 0 {
        Seq::empty()
    } else {
        let rest = cleared_seq(s.drop_last(), rows);
        if rows.contains(s.last().y) {
            rest
        } else {
            rest.push(shifted_block(s.last(), rows))
        }
    }
}

/// A block strictly above `bound` can drop at most to the row just above
/// `bound` when rows strictly below `bound` are cleared.
proof fn lemma_shift_bound(rows: Seq<usize>, y: int, bound: int)
    requires
        sorted_strict(rows),
        forall|i: int| 0 <= i < rows.len() ==> rows[i] < bound,
        y < bound,
    ensures
        y + shift_for(rows, y) < bound,
    decreases rows.len(),
{
    if rows.len() > 0 {
        let l = rows.last();
        let rest = rows.drop_last();
        assert(forall|i: int| 0 <= i < rest.len() ==> rest[i] == rows[i]);
        if l > y {
            lemma_shift_bound(rest, y, l as int);
        } else {
            lemma_shift_bound(rest, y, bound);
        }
    }
}

/// A block below every given row does not move.
proof fn lemma_shift_none(rows: Seq<usize>, y: int)
    requires
        forall|i: int| 0 <= i < rows.len() ==> rows[i] <= y,
    ensures
        shift_for(rows, y) == 0,
    decreases rows.len(),
{
    if rows.len() > 0 {
        let rest = rows.drop_last();
        assert(forall|i: int| 0 <= i < rest.len() ==> rest[i] == rows[i]);
        lemma_shift_none(rest, y);
    }
}

/// Clearing rows keeps the relative order of two surviving blocks: the
/// lower block stays strictly lower.
proof fn lemma_shift_mono(rows: Seq<usize>, y1: int, y2: int)
    requires
        sorted_strict(rows),
        y1 < y2,
        forall|i: int| 0 <= i < rows.len() ==> rows[i] != y2,
    ensures
        y1 + shift_for(rows, y1) < y2 + shift_for(rows, y2),
    decreases rows.len(),
{
    if rows.len() == 0 {
    } else {
        let l = rows.last();
        let rest = rows.drop_last();
        assert(forall|i: int| 0 <= i < rest.len() ==> rest[i] == rows[i]);
        if l > y2 {
            lemma_shift_mono(rest, y1, y2);
        } else if l > y1 {
            lemma_shift_bound(rest, y1, l as int);
            lemma_shift_none(rest, y2);
        } else {
            lemma_shift_none(rows, y1);
            lemma_shift_none(rows, y2);
        }
    }
}

/// Every block of the cleared board is some surviving original block,
/// shifted.
pub proof fn lemma_cleared_elems(s: Seq<Block>, rows: Seq<usize>)
    ensures
        forall|i: int|
            0 <= i < cleared_seq(s, rows).len() ==> exists|j: int|
                0 <= j < s.len() && !rows.contains(s[j].y) && #[trigger] cleared_seq(s, rows)[i]
                    == shifted_block(s[j], rows),
    decreases s.len(),
{
    if s.len() > 0 {
        let rest = s.drop_last();
        lemma_cleared_elems(rest, rows);
        let out = cleared_seq(s, rows);
        let prev = cleared_seq(rest, rows);
        assert forall|i: int| 0 <= i < out.len() implies exists|j: int|
            0 <= j < s.len() && !rows.contains(s[j].y) && #[trigger] out[i] == shifted_block(
            s[j],
            rows,
        ) by {
            if i < prev.len() {
                let j = choose|j: int|
                    0 <= j < rest.len() && !rows.contains(rest[j].y) && #[trigger] prev[i]
                        == shifted_block(rest[j], rows);
                assert(s[j] == rest[j]);
                assert(out[i] == shifted_block(s[j], rows));
            } else {
                let j = s.len() - 1;
                assert(out[i] == shifted_block(s[j], rows));
            }
        }
    }
}

/// Clearing well-formed rows of a well-formed board leaves a well-formed
/// board.
proof fn lemma_cleared_wf(s: Seq<Block>, rows: Seq<usize>)
    requires
        board_wf(s),
        sorted_strict(rows),
        forall|i: int| 0 <= i < rows.len() ==> rows[i] < HEIGHT,
    ensures
        board_wf(cleared_seq(s, rows)),
    decreases s.len(),
{
    if s.len() > 0 {
        let rest = s.drop_last();
        let b = s.last();
        assert(forall|k: int| 0 <= k < rest.len() ==> rest[k] == s[k]);
        lemma_cleared_wf(rest, rows);
        lemma_cleared_elems(rest, rows);
        let out = cleared_seq(s, rows);
        let prev = cleared_seq(rest, rows);
        if !rows.contains(b.y) {
            let sb = shifted_block(b, rows);
            lemma_shift_bound(rows, b.y as int, HEIGHT as int);
            assert(sb.y < HEIGHT && sb.x < WIDTH);
            assert forall|i: int| 0 <= i < prev.len() implies !((#[trigger] prev[i]).y == sb.y
                && prev[i].x == sb.x) by {
                let j = choose|j: int|
                    0 <= j < rest.len() && !rows.contains(rest[j].y) && #[trigger] prev[i]
                        == shifted_block(rest[j], rows);
                let c = rest[j];
                assert(c == s[j]);
                assert(!(c.y == b.y && c.x == b.x));
                if c.x == sb.x {
                    lemma_shift_bound(rows, c.y as int, HEIGHT as int);
                    if c.y < b.y {
                        assert(forall|i0: int| 0 <= i0 < rows.len() ==> rows[i0] != b.y as int)
                            by {
                            assert(!rows.contains(b.y));
                        }
                        lemma_shift_mono(rows, c.y as int, b.y as int);
                    } else {
                        assert(c.y > b.y);
                        assert(forall|i0: int| 0 <= i0 < rows.len() ==> rows[i0] != c.y as int)
                            by {
                            assert(!rows.contains(c.y));
                        }
                        lemma_shift_mono(rows, b.y as int, c.y as int);
                    }
                }
            }
            assert forall|k1: int, k2: int| 0 <= k1 < k2 < out.len() implies !((
            #[trigger] out[k1]).y == (#[trigger] out[k2]).y && out[k1].x == out[k2].x) by {
                if k2 < prev.len() {
                    assert(out[k1] == prev[k1] && out[k2] == prev[k2]);
                } else {
                    assert(out[k2] == sb && out[k1] == prev[k1]);
                }
            }
            assert forall|k: int| 0 <= k < out.len() implies (#[trigger] out[k]).y < HEIGHT
                && out[k].x < WIDTH by {
                if k < prev.len() {
                    assert(out[k] == prev[k]);
                } else {
                    assert(out[k] == sb);
                }
            }
        }
    }
}

/// Every surviving original block reappears, shifted, on the cleared
/// board.
pub proof fn lemma_cleared_complete(s: Seq<Block>, rows: Seq<usize>)
    ensures
        forall|j: int|
            0 <= j < s.len() && !rows.contains((#[trigger] s[j]).y) ==> cleared_seq(
                s,
                rows,
            ).contains(shifted_block(s[j], rows)),
    decreases s.len(),
{
    if s.len() > 0 {
        let rest = s.drop_last();
        lemma_cleared_complete(rest, rows);
        let out = cleared_seq(s, rows);
        let prev = cleared_seq(rest, rows);
        assert forall|j: int| 0 <= j < s.len() && !rows.contains((#[trigger] s[j]).y) implies out
            .contains(shifted_block(s[j], rows)) by {
            if j < s.len() - 1 {
                assert(s[j] == rest[j]);
                assert(prev.contains(shifted_block(rest[j], rows)));
                let i = choose|i: int|
                    0 <= i < prev.len() && prev[i] == shifted_block(rest[j], rows);
                assert(out[i] == shifted_block(s[j], rows));
            } else {
                assert(out.last() == shifted_block(s[j], rows));
            }
        }
    }
}

/// What clearing rows does to occupancy: a cell (r, c) of the cleared
/// board is occupied exactly when some original block at column c, on a
/// surviving row y, drops onto r; it drops by one row per cleared row
/// below it.
pub proof fn lemma_cleared_occupancy(s: Seq<Block>, rows: Seq<usize>)
    requires
        board_wf(s),
        sorted_strict(rows),
        forall|i: int| 0 <= i < rows.len() ==> rows[i] < HEIGHT,
    ensures
        forall|r: int, c: int|
            #[trigger] occupied(cleared_seq(s, rows), r, c) <==> exists|j: int|
                0 <= j < s.len() && !rows.contains((#[trigger] s[j]).y) && s[j].x == c && r
                    == s[j].y + shift_for(rows, s[j].y as int),
{
    lemma_cleared_elems(s, rows);
    lemma_cleared_complete(s, rows);
    let out = cleared_seq(s, rows);
    assert forall|r: int, c: int| #[trigger] occupied(out, r, c) implies exists|j: int|
        0 <= j < s.len() && !rows.contains((#[trigger] s[j]).y) && s[j].x == c && r == s[j].y
        + shift_for(rows, s[j].y as int) by {
        let k = choose|k: int| 0 <= k < out.len() && out[k].y == r && out[k].x == c;
        let j = choose|j: int|
            0 <= j < s.len() && !rows.contains(s[j].y) && #[trigger] out[k] == shifted_block(
                s[j],
                rows,
            );
        lemma_shift_bound(rows, s[j].y as int, HEIGHT as int);
        assert(0 <= j < s.len() && !rows.contains(s[j].y) && s[j].x == c && r == s[j].y
            + shift_for(rows, s[j].y as int));
    }
    assert forall|r: int, c: int|
        (exists|j: int|
            0 <= j < s.len() && !rows.contains((#[trigger] s[j]).y) && s[j].x == c && r == s[j].y
                + shift_for(rows, s[j].y as int)) implies #[trigger] occupied(out, r, c) by {
        let j = choose|j: int|
            0 <= j < s.len() && !rows.contains((#[trigger] s[j]).y) && s[j].x == c && r == s[j].y
                + shift_for(rows, s[j].y as int);
        assert(out.contains(shifted_block(s[j], rows)));
        let i = choose|i: int| 0 <= i < out.len() && out[i] == shifted_block(s[j], rows);
        lemma_shift_bound(rows, s[j].y as int, HEIGHT as int);
        assert(out[i].y == r && out[i].x == c);
    }
}

/// Whether `y` is one of the listed rows.
fn row_member(rows: &Vec<usize>, y: usize) -> (r: bool)
    ensures
        r == rows@.contains(y),
{
    let n = rows.len();
    let mut i: usize = 0;
    while i < n
        invariant
            i <= n,
            n == rows@.len(),
            forall|k: int| 0 <= k < i ==> rows@[k] != y,
        decreases n - i,
    {
        if rows[i] == y {
            return true;
        }
        i = i + 1;
    }
    false
}

/// How many of the listed rows lie strictly below row `y`.
fn shift_amount(rows: &Vec<usize>, y: usize) -> (n: usize)
    ensures
        n == shift_for(rows@, y as int),
{
    let len = rows.len();
    let mut n: usize = 0;
    let mut i: usize = 0;
    while i < len
        invariant
            i <= len,
            len == rows@.len(),
            n <= i,
            n == shift_for(rows@.take(i as int), y as int),
        decreases len - i,
    {
        proof {
            assert(rows@.take(i + 1).drop_last() =~= rows@.take(i as int));
            assert(rows@.take(i + 1).last() == rows@[i as int]);
        }
        if rows[i] > y {
            n = n + 1;
        }
        i = i + 1;
    }
    proof {
        assert(rows@.take(len as int) =~= rows@);
    }
    n
}

impl Board {
    /// Remove every settled block lying on one of the given rows, and drop
    /// each remaining block by one row per cleared row below it; the
    /// count of cleared rows is returned.
    pub fn clear_rows(&mut self, rows: &Vec<usize>) -> (count: usize)
        requires
            board_wf(old(self)@),
            sorted_strict(rows@),
            forall|i: int| 0 <= i < rows@.len() ==> rows@[i] < HEIGHT,
        ensures
            final(self)@ == cleared_seq(old(self)@, rows@),
            board_wf(final(self)@),
            count == rows@.len(),
    {
        let n = self.blocks.len();
        let mut out: Vec<Block> = Vec::new();
        let mut i: usize = 0;
        while i < n
            invariant
                i <= n,
                n == self.blocks@.len(),
                out@ == cleared_seq(self.blocks@.take(i as int), rows@),
                board_wf(self.blocks@),
                sorted_strict(rows@),
                forall|k: int| 0 <= k < rows@.len() ==> rows@[k] < HEIGHT,
            decreases n - i,
        {
            let b = self.blocks[i];
            proof {
                assert(self.blocks@.take(i + 1).drop_last() =~= self.blocks@.take(i as int));
                assert(self.blocks@.take(i + 1).last() == b);
            }
            if !row_member(rows, b.y) {
                proof {
                    lemma_shift_bound(rows@, b.y as int, HEIGHT as int);
                }
                let s = shift_amount(rows, b.y);
                out.push(Block { x: b.x, y: b.y + s, color: b.color });
            }
            i = i + 1;
        }
        proof {
            assert(self.blocks@.take(n as int) =~= self.blocks@);
            lemma_cleared_wf(self.blocks@, rows@);
        }
        self.blocks = out;
        rows.len()
    }
}

/// The four cells of a locked piece as settled blocks of its color, in
/// order.
pub open spec fn placed_blocks(cells: Seq<(usize, usize)>, color: u32) -> Seq<Block> {
    Seq::new(cells.len(), |k: int| Block { x: cells[k].1, y: cells[k].0, color })
}

/// Appending in-bounds, unoccupied, pairwise distinct cells keeps a board
/// well-formed.
proof fn lemma_place_wf(b: Seq<Block>, cells: Seq<(usize, usize)>, color: u32)
    requires
        board_wf(b),
        forall|k: int| 0 <= k < cells.len() ==> (#[trigger] cells[k]).0 < HEIGHT && cells[k].1
            < WIDTH,
        forall|k: int| 0 <= k < cells.len() ==> !occupied(
            b,
            (#[trigger] cells[k]).0 as int,
            cells[k].1 as int,
        ),
        forall|k1: int, k2: int|
            0 <= k1 < k2 < cells.len() ==> !((#[trigger] cells[k1]).0 == (#[trigger] cells[k2]).0
                && cells[k1].1 == cells[k2].1),
    ensures
        board_wf(b + placed_blocks(cells, color)),
{
    let all = b + placed_blocks(cells, color);
    assert forall|k1: int, k2: int| 0 <= k1 < k2 < all.len() implies !((#[trigger] all[k1]).y
        == (#[trigger] all[k2]).y && all[k1].x == all[k2].x) by {
        if k2 >= b.len() {
            if k1 >= b.len() {
                assert(all[k1] == placed_blocks(cells, color)[k1 - b.len()]);
                assert(all[k2] == placed_blocks(cells, color)[k2 - b.len()]);
            } else {
                assert(all[k2] == placed_blocks(cells, color)[k2 - b.len()]);
                if all[k1].y == all[k2].y && all[k1].x == all[k2].x {
                    assert(occupied(b, cells[k2 - b.len()].0 as int, cells[k2 - b.len()].1 as int));
                }
            }
        }
    }
}

} // verus!
