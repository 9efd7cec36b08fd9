//! The board shifter: a direction maps the 4x4 grid onto four lines,
//! each slid and merged independently by the line reducer.

use vstd::prelude::*;

use crate::line::{
    compact, count_fn, lemma_compact_elems, lemma_no_merges_id, lemma_reduce_count,
    lemma_reduce_sum, line_sum, merge_pass, merges, nonzero_count, pad4, reduce, shift_line,
    weight_fn, wsum, Square,
};

verus! {

/// A shift direction.
#[derive(Clone, Copy)]
pub enum Dir {
    Up,
    Down,
    Left,
    Right,
}

/// A game board: 16 cells, 4 rows by 4 columns, row-major.
pub type Board = [Square; 16];

/// The board index of cell `j` of line `i`, counting cell 0 as the
/// leading edge in the direction of travel.
pub open spec fn line_idx(dir: Dir, i: int, j: int) -> int {
    match dir {
        Dir::Left => 4 * i + j,
        Dir::Right => 4 * i + 3 - j,
        Dir::Up => 4 * j + i,
        Dir::Down => 4 * (3 - j) + i,
    }
}

/// The line that board cell `k` belongs to.
pub open spec fn line_of(dir: Dir, k: int) -> int {
    match dir {
        Dir::Left => k / 4,
        Dir::Right => k / 4,
        Dir::Up => k % 4,
        Dir::Down => k % 4,
    }
}

/// The position of board cell `k` within its line.
pub open spec fn pos_of(dir: Dir, k: int) -> int {
    match dir {
        Dir::Left => k % 4,
        Dir::Right => 3 - k % 4,
        Dir::Up => k / 4,
        Dir::Down => 3 - k / 4,
    }
}

/// Line `i` of the board, read in extraction order.
pub open spec fn extracted(dir: Dir, b: Seq<u16>, i: int) -> Seq<u16> {
    seq![
        b[line_idx(dir, i, 0)],
        b[line_idx(dir, i, 1)],
        b[line_idx(dir, i, 2)],
        b[line_idx(dir, i, 3)],
    ]
}

/// The board a shift produces: every cell holds the value that its
/// position within its line receives from that line's reduction.
pub open spec fn shift_spec(dir: Dir, b: Seq<u16>) -> Seq<u16> {
    Seq::new(16, |k: int| reduce(extracted(dir, b, line_of(dir, k)))[pos_of(dir, k)])
}

/// The two index maps invert each other: `line_idx` walks each line
/// across the board, and `line_of` with `pos_of` finds a cell's line
/// and position again.
pub proof fn lemma_line_idx_inverse(dir: Dir)
    ensures
        forall|i: int, j: int|
            0 <= i < 4 && 0 <= j < 4 ==> 0 <= #[trigger] line_idx(dir, i, j) < 16 && line_of(
                dir,
                line_idx(dir, i, j),
            ) == i && pos_of(dir, line_idx(dir, i, j)) == j,
        forall|k: int|
            0 <= k < 16 ==> 0 <= #[trigger] line_of(dir, k) < 4 && 0 <= pos_of(dir, k) < 4
                && line_idx(dir, line_of(dir, k), pos_of(dir, k)) == k,
{
}

/// How many merges a shift in the given direction performs over the
/// whole board.
pub open spec fn total_merges(dir: Dir, b: Seq<u16>) -> nat {
    merges(compact(extracted(dir, b, 0))) + merges(compact(extracted(dir, b, 1))) + merges(
        compact(extracted(dir, b, 2)),
    ) + merges(compact(extracted(dir, b, 3)))
}

/// A weighted sum over a 4-cell line, written out cell by cell.
proof fn lemma_wsum4(s: Seq<u16>, f: spec_fn(u16) -> nat)
    requires
        s.len() == 4,
    ensures
        wsum(s, 0, f) == f(s[0]) + f(s[1]) + f(s[2]) + f(s[3]),
{
    assert(wsum(s, 4, f) == 0);
    assert(wsum(s, 3, f) == f(s[3]) + wsum(s, 4, f));
    assert(wsum(s, 2, f) == f(s[2]) + wsum(s, 3, f));
    assert(wsum(s, 1, f) == f(s[1]) + wsum(s, 2, f));
    assert(wsum(s, 0, f) == f(s[0]) + wsum(s, 1, f));
}

/// A weighted sum over the 16 cells of a board, written out cell by
/// cell.
proof fn lemma_wsum16(b: Seq<u16>, f: spec_fn(u16) -> nat)
    requires
        b.len() == 16,
    ensures
        wsum(b, 0, f) == f(b[0]) + f(b[1]) + f(b[2]) + f(b[3]) + f(b[4]) + f(b[5]) + f(b[6]) + f(
            b[7],
        ) + f(b[8]) + f(b[9]) + f(b[10]) + f(b[11]) + f(b[12]) + f(b[13]) + f(b[14]) + f(b[15]),
{
    assert(wsum(b, 16, f) == 0);
    assert(wsum(b, 15, f) == f(b[15]) + wsum(b, 16, f));
    assert(wsum(b, 14, f) == f(b[14]) + wsum(b, 15, f));
    assert(wsum(b, 13, f) == f(b[13]) + wsum(b, 14, f));
    assert(wsum(b, 12, f) == f(b[12]) + wsum(b, 13, f));
    assert(wsum(b, 11, f) == f(b[11]) + wsum(b, 12, f));
    assert(wsum(b, 10, f) == f(b[10]) + wsum(b, 11, f));
    assert(wsum(b, 9, f) == f(b[9]) + wsum(b, 10, f));
    assert(wsum(b, 8, f) == f(b[8]) + wsum(b, 9, f));
    assert(wsum(b, 7, f) == f(b[7]) + wsum(b, 8, f));
    assert(wsum(b, 6, f) == f(b[6]) + wsum(b, 7, f));
    assert(wsum(b, 5, f) == f(b[5]) + wsum(b, 6, f));
    assert(wsum(b, 4, f) == f(b[4]) + wsum(b, 5, f));
    assert(wsum(b, 3, f) == f(b[3]) + wsum(b, 4, f));
    assert(wsum(b, 2, f) == f(b[2]) + wsum(b, 3, f));
    assert(wsum(b, 1, f) == f(b[1]) + wsum(b, 2, f));
    assert(wsum(b, 0, f) == f(b[0]) + wsum(b, 1, f));
}

/// A board's weighted total splits into the totals of the four lines
/// any one direction cuts it into.
proof fn lemma_board_decompose(dir: Dir, b: Seq<u16>, f: spec_fn(u16) -> nat)
    requires
        b.len() == 16,
    ensures
        wsum(b, 0, f) == wsum(extracted(dir, b, 0), 0, f) + wsum(extracted(dir, b, 1), 0, f)
            + wsum(extracted(dir, b, 2), 0, f) + wsum(extracted(dir, b, 3), 0, f),
{
    lemma_wsum16(b, f);
    lemma_wsum4(extracted(dir, b, 0), f);
    lemma_wsum4(extracted(dir, b, 1), f);
    lemma_wsum4(extracted(dir, b, 2), f);
    lemma_wsum4(extracted(dir, b, 3), f);
}

/// Each line of a shifted board is the reduction of the same line of
/// the board it came from.
pub proof fn lemma_shift_lines(dir: Dir, b: Seq<u16>)
    requires
        b.len() == 16,
    ensures
        forall|i: int|
            0 <= i < 4 ==> #[trigger] extracted(dir, shift_spec(dir, b), i) == reduce(
                extracted(dir, b, i),
            ),
{
    lemma_line_idx_inverse(dir);
    assert forall|i: int| 0 <= i < 4 implies #[trigger] extracted(dir, shift_spec(dir, b), i)
        == reduce(extracted(dir, b, i)) by {
        assert(extracted(dir, shift_spec(dir, b), i) =~= reduce(extracted(dir, b, i)));
    }
}

/// A shift conserves the total displayed value of the board, and every
/// merge takes away exactly one tile: the tile count drops by exactly
/// the number of merges the four lines perform.
pub proof fn lemma_shift_conserves(dir: Dir, b: Seq<u16>)
    requires
        b.len() == 16,
        forall|k: int| 0 <= k < 16 ==> b[k] < u16::MAX,
    ensures
        line_sum(shift_spec(dir, b)) == line_sum(b),
        nonzero_count(shift_spec(dir, b)) + total_merges(dir, b) == nonzero_count(b),
{
    let r = shift_spec(dir, b);
    lemma_line_idx_inverse(dir);
    lemma_shift_lines(dir, b);
    lemma_board_decompose(dir, b, weight_fn());
    lemma_board_decompose(dir, b, count_fn());
    lemma_board_decompose(dir, r, weight_fn());
    lemma_board_decompose(dir, r, count_fn());
    assert forall|i: int| 0 <= i < 4 implies line_sum(#[trigger] extracted(dir, r, i))
        == line_sum(extracted(dir, b, i)) && nonzero_count(extracted(dir, r, i)) + merges(
        compact(extracted(dir, b, i)),
    ) == nonzero_count(extracted(dir, b, i)) by {
        lemma_reduce_sum(extracted(dir, b, i));
        lemma_reduce_count(extracted(dir, b, i));
    }
    assert(extracted(dir, r, 0) == reduce(extracted(dir, b, 0)));
    assert(extracted(dir, r, 1) == reduce(extracted(dir, b, 1)));
    assert(extracted(dir, r, 2) == reduce(extracted(dir, b, 2)));
    assert(extracted(dir, r, 3) == reduce(extracted(dir, b, 3)));
}

/// When no line of the board has a merge available, a shift neither
/// makes nor destroys tiles: every line is only packed toward the
/// leading edge, and both the tile count and the total displayed value
/// are kept.
pub proof fn lemma_shift_no_merge(dir: Dir, b: Seq<u16>)
    requires
        b.len() == 16,
        forall|k: int| 0 <= k < 16 ==> b[k] < u16::MAX,
        total_merges(dir, b) == 0,
    ensures
        nonzero_count(shift_spec(dir, b)) == nonzero_count(b),
        line_sum(shift_spec(dir, b)) == line_sum(b),
        forall|i: int|
            0 <= i < 4 ==> #[trigger] extracted(dir, shift_spec(dir, b), i) == pad4(
                compact(extracted(dir, b, i)),
            ),
{
    lemma_shift_conserves(dir, b);
    lemma_shift_lines(dir, b);
    assert forall|i: int| 0 <= i < 4 implies #[trigger] extracted(dir, shift_spec(dir, b), i)
        == pad4(compact(extracted(dir, b, i))) by {
        lemma_no_merges_id(compact(extracted(dir, b, i)));
    }
}

/// With no merge available, every cell of the shifted board is either
/// empty or a tile the board already held, so the tile bound is kept.
pub proof fn lemma_shift_no_merge_cells(dir: Dir, b: Seq<u16>)
    requires
        b.len() == 16,
        forall|k: int| 0 <= k < 16 ==> b[k] < u16::MAX,
        total_merges(dir, b) == 0,
    ensures
        forall|k: int| 0 <= k < 16 ==> shift_spec(dir, b)[k] < u16::MAX,
{
    lemma_line_idx_inverse(dir);
    assert forall|k: int| 0 <= k < 16 implies shift_spec(dir, b)[k] < u16::MAX by {
        let i = line_of(dir, k);
        let c = compact(extracted(dir, b, i));
        lemma_compact_elems(extracted(dir, b, i));
        lemma_no_merges_id(c);
        assert(shift_spec(dir, b)[k] == pad4(merge_pass(c))[pos_of(dir, k)]);
    }
}

/// Shifting Left and then Right, with no merge available to either
/// shift, packs the tiles toward and then away from the left edge and
/// neither makes nor destroys any: the tile count and the total
/// displayed value come through both shifts unchanged.
pub proof fn lemma_shift_left_then_right(b: Seq<u16>)
    requires
        b.len() == 16,
        forall|k: int| 0 <= k < 16 ==> b[k] < u16::MAX,
        total_merges(Dir::Left, b) == 0,
        total_merges(Dir::Right, shift_spec(Dir::Left, b)) == 0,
    ensures
        nonzero_count(shift_spec(Dir::Right, shift_spec(Dir::Left, b))) == nonzero_count(b),
        line_sum(shift_spec(Dir::Right, shift_spec(Dir::Left, b))) == line_sum(b),
{
    lemma_shift_no_merge(Dir::Left, b);
    lemma_shift_no_merge_cells(Dir::Left, b);
    lemma_shift_no_merge(Dir::Right, shift_spec(Dir::Left, b));
}

/// The four board indices of line `i`, in extraction order.
fn line_indices(dir: Dir, i: usize) -> (k: (usize, usize, usize, usize))
    requires
        i < 4,
    ensures
        k.0 == line_idx(dir, i as int, 0),
        k.1 == line_idx(dir, i as int, 1),
        k.2 == line_idx(dir, i as int, 2),
        k.3 == line_idx(dir, i as int, 3),
{
    match dir {
        Dir::Left => (4 * i, 4 * i + 1, 4 * i + 2, 4 * i + 3),
        Dir::Right => (4 * i + 3, 4 * i + 2, 4 * i + 1, 4 * i),
        Dir::Up => (i, 4 + i, 8 + i, 12 + i),
        Dir::Down => (12 + i, 8 + i, 4 + i, i),
    }
}

/// Shift the board in the given direction.
pub fn shift_board(dir: Dir, b: &Board) -> (res: Board)
    requires
        forall|k: int| 0 <= k < 16 ==> b[k] < u16::MAX,
    ensures
        res@ == shift_spec(dir, b@),
        forall|i: int, j: int|
            0 <= i < 4 && 0 <= j < 4 ==> res@[line_idx(dir, i, j)] == reduce(
                extracted(dir, b@, i),
            )[j],
{
    proof {
        lemma_line_idx_inverse(dir);
    }
    let mut res = [0u16; 16];
    let mut i: usize = 0;
    while i < 4
        invariant
            i <= 4,
            forall|k: int| 0 <= k < 16 ==> b[k] < u16::MAX,
            res@.len() == 16,
            forall|k: int|
                0 <= k < 16 && line_of(dir, k) < i ==> res@[k] == shift_spec(dir, b@)[k],
        decreases 4 - i,
    {
        proof {
            lemma_line_idx_inverse(dir);
        }
        let (k0, k1, k2, k3) = line_indices(dir, i);
        let ln = [b[k0], b[k1], b[k2], b[k3]];
        proof {
            assert(ln@ =~= extracted(dir, b@, i as int));
        }
        let red = shift_line(ln);
        res[k0] = red[0];
        res[k1] = red[1];
        res[k2] = red[2];
        res[k3] = red[3];
        i += 1;
        proof {
            assert forall|k: int| 0 <= k < 16 && line_of(dir, k) < i implies res@[k] == shift_spec(
                dir,
                b@,
            )[k] by {
                let p = pos_of(dir, k);
                assert(line_idx(dir, line_of(dir, k), p) == k);
            }
        }
    }
    proof {
        lemma_line_idx_inverse(dir);
        assert(res@ =~= shift_spec(dir, b@));
        assert forall|i2: int, j2: int| 0 <= i2 < 4 && 0 <= j2 < 4 implies res@[line_idx(
            dir,
            i2,
            j2,
        )] == reduce(extracted(dir, b@, i2))[j2] by {
            assert(line_of(dir, line_idx(dir, i2, j2)) == i2);
        }
    }
    res
}

} // verus!
