use vstd::prelude::*;

verus! {

/// The single error kind of the board: an accessor was handed a column or
/// row that falls outside the grid.
#[derive(Debug, Clone, Copy, PartialEq, Eq, Structural)]
pub struct OutOfBounds;

/// A fixed-size rectangular grid of cells. Every cell is alive or dead and
/// carries a cosmetic intensity byte that is independent of its alive state.
/// Cells are stored row-major: the cell at `(col, row)` lives at linear
/// offset `row * cols + col` of both backing vectors.
pub struct Board {
    pub cols: usize,
    pub rows: usize,
    pub data: Vec<bool>,
    pub colours: Vec<u8>,
}

/// Relies on rand::random_range: the sample is drawn from the thread-local
/// generator and lies in the given inclusive range. Nothing more is promised
/// of a random draw.
#[verifier::external_body]
fn random_intensity() -> (r: u8)
    ensures
        128 <= r,
{
    rand::random_range(128..=255u8)
}

/// Relies on rand::random_range: the sample is drawn from the thread-local
/// generator and lies below the bound; the call panics only on an empty
/// range, which the precondition rules out. Nothing more is promised of a
/// random draw.
#[verifier::external_body]
fn random_offset(bound: usize) -> (r: usize)
    requires
        0 < bound,
    ensures
        r < bound,
{
    rand::random_range(0..bound)
}

/// The cell data after setting the cells at the given offsets alive, one
/// after the other, in order.
pub open spec fn seeded(s: Seq<bool>, offsets: Seq<int>) -> Seq<bool>
    decreases offsets.len(),
{
    if offsets.len() == 0 {
        s
    } else {
        seeded(s, offsets.drop_last()).update(offsets.last(), true)
    }
}

impl Board {
    /// The grid is nonempty in both dimensions and both backing vectors hold
    /// exactly `cols * rows` entries.
    pub open spec fn well_formed(self) -> bool {
        &&& 0 < self.cols
        &&& 0 < self.rows
        &&& self.cols * self.rows <= usize::MAX
        &&& self.data@.len() == self.cols * self.rows
        &&& self.colours@.len() == self.cols * self.rows
    }

    /// The row-major linear offset of `(col, row)`.
    pub open spec fn offset(self, col: int, row: int) -> int {
        row * self.cols + col
    }

    pub open spec fn in_bounds(self, col: int, row: int) -> bool {
        0 <= col < self.cols && 0 <= row < self.rows
    }

    /// Whether the cell at in-bounds `(col, row)` is alive.
    pub open spec fn alive(self, col: int, row: int) -> bool {
        self.data@[self.offset(col, row)]
    }

    /// The intensity byte at in-bounds `(col, row)`.
    pub open spec fn intensity(self, col: int, row: int) -> u8 {
        self.colours@[self.offset(col, row)]
    }

    /// Builds a `col` x `row` board with every cell dead and every intensity
    /// drawn independently from the inclusive range 128..=255.
    pub fn new(col: usize, row: usize) -> (b: Board)
        requires
            0 < col,
            0 < row,
            col * row <= usize::MAX,
        ensures
            b.well_formed(),
            b.cols == col,
            b.rows == row,
            forall|i: int| 0 <= i < b.data@.len() ==> !b.data@[i],
            forall|i: int| 0 <= i < b.colours@.len() ==> 128 <= #[trigger] b.colours@[i] <= 255,
    {
        let n: usize = col * row;
        let mut data: Vec<bool> = Vec::new();
        let mut colours: Vec<u8> = Vec::new();
        let mut i: usize = 0;
        while i < n
            invariant
                i <= n,
                data@.len() == i,
                colours@.len() == i,
                forall|j: int| 0 <= j < i ==> !data@[j],
                forall|j: int| 0 <= j < i ==> 128 <= #[trigger] colours@[j] <= 255,
            decreases n - i,
        {
            data.push(false);
            colours.push(random_intensity());
            i += 1;
        }
        Board { cols: col, rows: row, data, colours }
    }

    /// The linear offset of in-bounds `(col, row)`, as a machine integer.
    fn index_of(&self, col: usize, row: usize) -> (i: usize)
        requires
            self.well_formed(),
            col < self.cols,
            row < self.rows,
        ensures
            i == self.offset(col as int, row as int),
            i < self.data@.len(),
            i < self.colours@.len(),
    {
        proof {
            lemma_offset_in_range(*self, col as int, row as int);
        }
        row * self.cols + col
    }

    /// The alive state of `(col, row)`, for callers that have already
    /// established that the coordinates are in bounds.
    pub(crate) fn cell(&self, col: usize, row: usize) -> (v: bool)
        requires
            self.well_formed(),
            col < self.cols,
            row < self.rows,
        ensures
            v == self.alive(col as int, row as int),
    {
        let i = self.index_of(col, row);
        self.data[i]
    }

    /// Returns whether the cell at `(col, row)` is alive, or `OutOfBounds`
    /// exactly when the coordinates fall outside the grid.
    pub fn get(&self, col: usize, row: usize) -> (r: Result<bool, OutOfBounds>)
        requires
            self.well_formed(),
        ensures
            self.in_bounds(col as int, row as int) ==> r == Ok::<bool, OutOfBounds>(
                self.alive(col as int, row as int),
            ),
            !self.in_bounds(col as int, row as int) ==> r == Err::<bool, OutOfBounds>(OutOfBounds),
    {
        if row >= self.rows || col >= self.cols {
            return Err(OutOfBounds);
        }
        Ok(self.cell(col, row))
    }

    /// Writes the alive state of the cell at `(col, row)`, touching nothing
    /// else; returns `OutOfBounds` exactly when the coordinates fall outside
    /// the grid, leaving the board unchanged.
    pub fn set(&mut self, col: usize, row: usize, value: bool) -> (r: Result<(), OutOfBounds>)
        requires
            old(self).well_formed(),
        ensures
            final(self).well_formed(),
            final(self).cols == old(self).cols,
            final(self).rows == old(self).rows,
            final(self).colours@ == old(self).colours@,
            old(self).in_bounds(col as int, row as int) ==> {
                &&& r == Ok::<(), OutOfBounds>(())
                &&& final(self).data@ == old(self).data@.update(
                    old(self).offset(col as int, row as int),
                    value,
                )
            },
            !old(self).in_bounds(col as int, row as int) ==> {
                &&& r == Err::<(), OutOfBounds>(OutOfBounds)
                &&& final(self).data@ == old(self).data@
            },
    {
        if row >= self.rows || col >= self.cols {
            return Err(OutOfBounds);
        }
        let i = self.index_of(col, row);
        self.data.set(i, value);
        Ok(())
    }

    /// Returns the intensity byte at `(col, row)`, or `OutOfBounds` exactly
    /// when the coordinates fall outside the grid.
    pub fn get_colour(&self, col: usize, row: usize) -> (r: Result<u8, OutOfBounds>)
        requires
            self.well_formed(),
        ensures
            self.in_bounds(col as int, row as int) ==> r == Ok::<u8, OutOfBounds>(
                self.intensity(col as int, row as int),
            ),
            !self.in_bounds(col as int, row as int) ==> r == Err::<u8, OutOfBounds>(OutOfBounds),
    {
        if row >= self.rows || col >= self.cols {
            return Err(OutOfBounds);
        }
        let i = self.index_of(col, row);
        Ok(self.colours[i])
    }

    /// Writes the intensity byte of the cell at `(col, row)`, touching
    /// nothing else; returns `OutOfBounds` exactly when the coordinates fall
    /// outside the grid, leaving the board unchanged.
    pub fn set_colour(&mut self, col: usize, row: usize, value: u8) -> (r: Result<
        (),
        OutOfBounds,
    >)
        requires
            old(self).well_formed(),
        ensures
            final(self).well_formed(),
            final(self).cols == old(self).cols,
            final(self).rows == old(self).rows,
            final(self).data@ == old(self).data@,
            old(self).in_bounds(col as int, row as int) ==> {
                &&& r == Ok::<(), OutOfBounds>(())
                &&& final(self).colours@ == old(self).colours@.update(
                    old(self).offset(col as int, row as int),
                    value,
                )
            },
            !old(self).in_bounds(col as int, row as int) ==> {
                &&& r == Err::<(), OutOfBounds>(OutOfBounds)
                &&& final(self).colours@ == old(self).colours@
            },
    {
        if row >= self.rows || col >= self.cols {
            return Err(OutOfBounds);
        }
        let i = self.index_of(col, row);
        self.colours.set(i, value);
        Ok(())
    }

    /// Sets every cell dead; the intensities are untouched.
    pub fn clear(&mut self)
        requires
            old(self).well_formed(),
        ensures
            final(self).well_formed(),
            final(self).cols == old(self).cols,
            final(self).rows == old(self).rows,
            final(self).colours@ == old(self).colours@,
            final(self).data@.len() == old(self).data@.len(),
            forall|i: int| 0 <= i < final(self).data@.len() ==> !final(self).data@[i],
    {
        let n: usize = self.data.len();
        let mut i: usize = 0;
        while i < n
            invariant
                i <= n,
                old(self).well_formed(),
                n == self.data@.len(),
                self.cols == old(self).cols,
                self.rows == old(self).rows,
                self.colours@ == old(self).colours@,
                self.data@.len() == old(self).data@.len(),
                forall|j: int| 0 <= j < i ==> !self.data@[j],
            decreases n - i,
        {
            self.data.set(i, false);
            i += 1;
        }
    }

    /// Performs `count` independent draws of a uniformly random linear
    /// offset, setting each drawn cell alive: the resulting data is the old
    /// data seeded at some sequence of `count` in-range offsets. Draws are
    /// not deduplicated, so fewer than `count` distinct cells may end up
    /// alive. No live cell ever becomes dead, and nothing else changes.
    pub fn randomise(&mut self, count: usize)
        requires
            old(self).well_formed(),
        ensures
            final(self).well_formed(),
            final(self).cols == old(self).cols,
            final(self).rows == old(self).rows,
            final(self).colours@ == old(self).colours@,
            final(self).data@.len() == old(self).data@.len(),
            exists|offsets: Seq<int>|
                {
                    &&& offsets.len() == count
                    &&& (forall|j: int|
                        0 <= j < count ==> 0 <= #[trigger] offsets[j] < old(self).data@.len())
                    &&& final(self).data@ == seeded(old(self).data@, offsets)
                },
            forall|i: int|
                0 <= i < old(self).data@.len() && old(self).data@[i] ==> final(self).data@[i],
            count == 0 ==> final(self).data@ == old(self).data@,
    {
        let n: usize = self.cols * self.rows;
        proof {
            assert(0 < self.cols * self.rows) by (nonlinear_arith)
                requires
                    0 < self.cols,
                    0 < self.rows,
            ;
        }
        let ghost mut drawn: Seq<int> = Seq::empty();
        let mut k: usize = 0;
        while k < count
            invariant
                k <= count,
                old(self).well_formed(),
                0 < n,
                n == self.data@.len(),
                self.cols == old(self).cols,
                self.rows == old(self).rows,
                self.colours@ == old(self).colours@,
                self.data@.len() == old(self).data@.len(),
                drawn.len() == k,
                forall|j: int| 0 <= j < k ==> 0 <= #[trigger] drawn[j] < old(self).data@.len(),
                self.data@ == seeded(old(self).data@, drawn),
                forall|i: int|
                    0 <= i < old(self).data@.len() && old(self).data@[i] ==> self.data@[i],
                count == 0 ==> self.data@ == old(self).data@,
            decreases count - k,
        {
            let off: usize = random_offset(n);
            self.data.set(off, true);
            proof {
                let prev = drawn;
                drawn = drawn.push(off as int);
                assert(drawn.drop_last() =~= prev);
            }
            k += 1;
        }
    }
}

/// Law: for in-bounds coordinates on a well-formed board, the alive value
/// written by `set` is what `get` reads back at the same coordinates: the
/// premises on `after` are exactly what `set`'s contract establishes, and
/// the conclusion is the value `get` returns there.
pub proof fn lemma_set_get_round_trip(
    before: Board,
    after: Board,
    col: int,
    row: int,
    value: bool,
)
    requires
        before.well_formed(),
        before.in_bounds(col, row),
        after.cols == before.cols,
        after.rows == before.rows,
        after.data@ == before.data@.update(before.offset(col, row), value),
    ensures
        after.alive(col, row) == value,
{
    lemma_offset_in_range(before, col, row);
}

/// Law: for in-bounds coordinates on a well-formed board, the intensity
/// written by `set_colour` is what `get_colour` reads back at the same
/// coordinates.
pub proof fn lemma_set_get_colour_round_trip(
    before: Board,
    after: Board,
    col: int,
    row: int,
    value: u8,
)
    requires
        before.well_formed(),
        before.in_bounds(col, row),
        after.cols == before.cols,
        after.rows == before.rows,
        after.colours@ == before.colours@.update(before.offset(col, row), value),
    ensures
        after.intensity(col, row) == value,
{
    lemma_offset_in_range(before, col, row);
}

/// A cell that comes strictly earlier in row-major order has a strictly
/// smaller linear offset.
pub proof fn lemma_offset_order(cols: int, c1: int, r1: int, c2: int, r2: int)
    by (nonlinear_arith)
    requires
        0 <= c1 < cols,
        0 <= c2 < cols,
        0 <= r1,
        0 <= r2,
        r1 < r2 || (r1 == r2 && c1 < c2),
    ensures
        r1 * cols + c1 < r2 * cols + c2,
{
}

/// Distinct in-bounds cells have distinct row-major offsets.
pub proof fn lemma_offset_injective(cols: int, c1: int, r1: int, c2: int, r2: int)
    requires
        0 <= c1 < cols,
        0 <= c2 < cols,
        0 <= r1,
        0 <= r2,
        c1 != c2 || r1 != r2,
    ensures
        r1 * cols + c1 != r2 * cols + c2,
{
    if r1 < r2 || (r1 == r2 && c1 < c2) {
        lemma_offset_order(cols, c1, r1, c2, r2);
    } else {
        lemma_offset_order(cols, c2, r2, c1, r1);
    }
}

/// The offset of an in-bounds cell lies within the backing vectors of a
/// well-formed board.
pub proof fn lemma_offset_in_range(b: Board, col: int, row: int)
    requires
        b.well_formed(),
        b.in_bounds(col, row),
    ensures
        0 <= b.offset(col, row) < b.cols * b.rows,
{
    assert(0 <= row * b.cols + col < b.cols * b.rows) by (nonlinear_arith)
        requires
            0 <= col < b.cols,
            0 <= row < b.rows,
    ;
}

} // verus!
