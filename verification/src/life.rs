use vstd::prelude::*;

use crate::board::Board;

verus! {

/// 1 when `(col, row)` is an in-bounds live cell of `b`, else 0.
pub open spec fn live_at(b: Board, col: int, row: int) -> int {
    if b.in_bounds(col, row) && b.alive(col, row) { 1int } else { 0int }
}

/// The number of live cells in the Moore neighbourhood of `(col, row)`: the
/// eight surrounding positions, clamped at the grid edges (an out-of-grid
/// position contributes nothing, there is no wraparound) and never the
/// centre cell itself.
pub open spec fn neighbour_count(b: Board, col: int, row: int) -> int {
    live_at(b, col - 1, row - 1) + live_at(b, col, row - 1) + live_at(b, col + 1, row - 1)
        + live_at(b, col - 1, row) + live_at(b, col + 1, row) + live_at(b, col - 1, row + 1)
        + live_at(b, col, row + 1) + live_at(b, col + 1, row + 1)
}

/// The transition rule: a live cell survives on exactly two or three live
/// neighbours; a dead cell is born on exactly three.
pub open spec fn life_rule(alive: bool, neighbours: int) -> bool {
    if alive {
        neighbours == 2 || neighbours == 3
    } else {
        neighbours == 3
    }
}

/// The alive state of `(col, row)` one generation after `b`.
pub open spec fn next_alive(b: Board, col: int, row: int) -> bool {
    life_rule(b.alive(col, row), neighbour_count(b, col, row))
}

/// Law: the neighbour count tallies at most the eight surrounding positions,
/// each at most once, and is never negative.
pub proof fn lemma_neighbour_count_range(b: Board, col: int, row: int)
    ensures
        0 <= neighbour_count(b, col, row) <= 8,
{
}

/// Law: at a corner cell only three neighbour slots lie on the grid, so the
/// neighbour count there is at most three; no wraparound neighbours are
/// invented past the clamped edges.
pub proof fn lemma_corner_count(b: Board, col: int, row: int)
    requires
        b.well_formed(),
        b.in_bounds(col, row),
        col == 0 || col == b.cols - 1,
        row == 0 || row == b.rows - 1,
    ensures
        neighbour_count(b, col, row) <= 3,
{
}

/// The alive state of a cell other than `(col, row)` is unchanged by
/// updating the data sequence at the offset of `(col, row)`.
proof fn lemma_live_at_same(
    before: Board,
    after: Board,
    col: int,
    row: int,
    value: bool,
    c: int,
    r: int,
)
    requires
        before.well_formed(),
        before.in_bounds(col, row),
        after.cols == before.cols,
        after.rows == before.rows,
        after.data@ == before.data@.update(before.offset(col, row), value),
        c != col || r != row,
    ensures
        live_at(after, c, r) == live_at(before, c, r),
{
    if before.in_bounds(c, r) {
        crate::board::lemma_offset_injective(before.cols as int, c, r, col, row);
        crate::board::lemma_offset_in_range(before, c, r);
        crate::board::lemma_offset_in_range(before, col, row);
    }
}

/// Law: the neighbour count never counts the centre cell: writing any alive
/// value at `(col, row)` leaves the neighbour count of `(col, row)` as it
/// was. The premises on `after` are what `set`'s contract establishes.
pub proof fn lemma_centre_not_counted(
    before: Board,
    after: Board,
    col: int,
    row: int,
    value: bool,
)
    requires
        before.well_formed(),
        before.in_bounds(col, row),
        after.cols == before.cols,
        after.rows == before.rows,
        after.data@ == before.data@.update(before.offset(col, row), value),
    ensures
        neighbour_count(after, col, row) == neighbour_count(before, col, row),
{
    lemma_live_at_same(before, after, col, row, value, col - 1, row - 1);
    lemma_live_at_same(before, after, col, row, value, col, row - 1);
    lemma_live_at_same(before, after, col, row, value, col + 1, row - 1);
    lemma_live_at_same(before, after, col, row, value, col - 1, row);
    lemma_live_at_same(before, after, col, row, value, col + 1, row);
    lemma_live_at_same(before, after, col, row, value, col - 1, row + 1);
    lemma_live_at_same(before, after, col, row, value, col, row + 1);
    lemma_live_at_same(before, after, col, row, value, col + 1, row + 1);
}

/// Counts the live cells in the 3x3 block centred at in-bounds `(col, row)`,
/// excluding the centre itself and clamping at the grid edges.
pub fn count_neighbours(board: &Board, col: usize, row: usize) -> (n: i32)
    requires
        board.well_formed(),
        col < board.cols,
        row < board.rows,
    ensures
        n == neighbour_count(*board, col as int, row as int),
        0 <= n <= 8,
{
    let mut count: i32 = 0;
    if row > 0 {
        if col > 0 && board.cell(col - 1, row - 1) {
            count += 1;
        }
        if board.cell(col, row - 1) {
            count += 1;
        }
        if col + 1 < board.cols && board.cell(col + 1, row - 1) {
            count += 1;
        }
    }
    if col > 0 && board.cell(col - 1, row) {
        count += 1;
    }
    if col + 1 < board.cols && board.cell(col + 1, row) {
        count += 1;
    }
    if row + 1 < board.rows {
        if col > 0 && board.cell(col - 1, row + 1) {
            count += 1;
        }
        if board.cell(col, row + 1) {
            count += 1;
        }
        if col + 1 < board.cols && board.cell(col + 1, row + 1) {
            count += 1;
        }
    }
    count
}

/// Steps the board one generation forward: every cell's next alive state is
/// computed from the old generation alone (the new states never feed back
/// into the neighbour counts of the same step), and every cell's intensity
/// is carried forward unconditionally.
pub fn next_generation(board: &mut Board)
    requires
        old(board).well_formed(),
    ensures
        final(board).well_formed(),
        final(board).cols == old(board).cols,
        final(board).rows == old(board).rows,
        final(board).colours@ == old(board).colours@,
        forall|c: int, r: int|
            old(board).in_bounds(c, r) ==> final(board).alive(c, r) == next_alive(
                *old(board),
                c,
                r,
            ),
{
    let cols: usize = board.cols;
    let rows: usize = board.rows;
    let mut new_data: Vec<bool> = Vec::new();
    let mut row: usize = 0;
    while row < rows
        invariant
            row <= rows,
            *board == *old(board),
            board.well_formed(),
            cols == board.cols,
            rows == board.rows,
            new_data@.len() == row * cols,
            forall|c: int, r: int|
                0 <= c < cols && 0 <= r < row ==> new_data@[r * cols + c] == #[trigger] next_alive(
                    *old(board),
                    c,
                    r,
                ),
        decreases rows - row,
    {
        let mut col: usize = 0;
        while col < cols
            invariant
                row < rows,
                col <= cols,
                *board == *old(board),
                board.well_formed(),
                cols == board.cols,
                rows == board.rows,
                new_data@.len() == row * cols + col,
                forall|c: int, r: int|
                    0 <= c < cols && (0 <= r < row || (r == row && 0 <= c < col))
                        ==> new_data@[r * cols + c] == #[trigger] next_alive(*old(board), c, r),
            decreases cols - col,
        {
            let n: i32 = count_neighbours(board, col, row);
            let cur: bool = board.cell(col, row);
            let next: bool = if cur {
                n == 2 || n == 3
            } else {
                n == 3
            };
            new_data.push(next);
            proof {
                assert forall|c: int, r: int|
                    0 <= c < cols && (0 <= r < row || (r == row && 0 <= c < col + 1))
                        implies new_data@[r * cols + c] == #[trigger] next_alive(
                        *old(board),
                        c,
                        r,
                    ) by {
                    if r == row && c == col {
                        assert(new_data@[row * cols + col] == next);
                    } else {
                        crate::board::lemma_offset_order(cols as int, c, r, col as int, row as int);
                    }
                }
            }
            col += 1;
        }
        proof {
            assert((row + 1) * cols == row * cols + cols) by (nonlinear_arith);
        }
        row += 1;
    }
    proof {
        assert(rows * cols == cols * rows) by (nonlinear_arith);
    }
    board.data = new_data;
}

} // verus!
