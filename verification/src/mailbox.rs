//! The square-indirection table: the 8x8 board embedded in a 10x12 grid whose
//! border cells all say "off the board", so that one lookup both takes a step
//! and detects the edge.

use vstd::prelude::*;

verus! {

/// The marker that the table holds in its border cells.
pub const OFF_BOARD: isize = -1;

/// The square `dr` rows below and `dc` columns right of `sq`, or `OFF_BOARD`
/// where that leaves the board. Squares count row by row from the top left.
pub open spec fn step(sq: int, dr: int, dc: int) -> int {
    let r = sq / 8 + dr;
    let c = sq % 8 + dc;
    if 0 <= r < 8 && 0 <= c < 8 {
        r * 8 + c
    } else {
        OFF_BOARD as int
    }
}

/// The cell of the 10x12 grid in which square `sq` lies.
pub open spec fn grid_cell(sq: int) -> int {
    21 + (sq / 8) * 10 + sq % 8
}

/// What the 10x12 grid holds in cell `cell`: a square in the inner 8x8
/// block, `OFF_BOARD` in the border.
pub open spec fn grid_content(cell: int) -> int {
    if 2 <= cell / 10 <= 9 && 1 <= cell % 10 <= 8 {
        (cell / 10 - 2) * 8 + (cell % 10 - 1)
    } else {
        OFF_BOARD as int
    }
}

/// An offset in grid units is ten per row plus one per column. For every
/// step of at most two rows and two columns that stays inside the grid, the
/// grid lookup agrees with `step`: leaving the board by any edge lands on a
/// border cell and never wraps to the opposite edge.
pub proof fn lemma_grid_lookup_is_step(sq: int, dr: int, dc: int)
    requires
        0 <= sq < 64,
        -2 <= dr <= 2,
        -2 <= dc <= 2,
        0 <= grid_cell(sq) + 10 * dr + dc < 120,
    ensures
        grid_content(grid_cell(sq) + 10 * dr + dc) == step(sq, dr, dc),
{
}

/// The two tables: for each square its cell in the grid, and for each cell
/// of the grid the square it holds or `OFF_BOARD`.
pub struct Mailbox {
    mailbox64: [usize; 64],
    mailbox120: [isize; 120],
}

impl Mailbox {
    /// Both tables hold what the grid embedding prescribes.
    pub closed spec fn wf(&self) -> bool {
        &&& forall|sq: int| 0 <= sq < 64 ==> #[trigger] self.mailbox64[sq] == grid_cell(sq)
        &&& forall|cell: int| 0 <= cell < 120 ==> #[trigger] self.mailbox120[cell] == grid_content(cell)
    }

    /// The tables of the 8x8 board in its 10x12 grid.
    pub fn new() -> (m: Mailbox)
        ensures
            m.wf(),
    {
        let mailbox64: [usize; 64] = [
            21, 22, 23, 24, 25, 26, 27, 28,
            31, 32, 33, 34, 35, 36, 37, 38,
            41, 42, 43, 44, 45, 46, 47, 48,
            51, 52, 53, 54, 55, 56, 57, 58,
            61, 62, 63, 64, 65, 66, 67, 68,
            71, 72, 73, 74, 75, 76, 77, 78,
            81, 82, 83, 84, 85, 86, 87, 88,
            91, 92, 93, 94, 95, 96, 97, 98,
        ];
        let mailbox120: [isize; 120] = [
            -1, -1, -1, -1, -1, -1, -1, -1, -1, -1,
            -1, -1, -1, -1, -1, -1, -1, -1, -1, -1,
            -1,  0,  1,  2,  3,  4,  5,  6,  7, -1,
            -1,  8,  9, 10, 11, 12, 13, 14, 15, -1,
            -1, 16, 17, 18, 19, 20, 21, 22, 23, -1,
            -1, 24, 25, 26, 27, 28, 29, 30, 31, -1,
            -1, 32, 33, 34, 35, 36, 37, 38, 39, -1,
            -1, 40, 41, 42, 43, 44, 45, 46, 47, -1,
            -1, 48, 49, 50, 51, 52, 53, 54, 55, -1,
            -1, 56, 57, 58, 59, 60, 61, 62, 63, -1,
            -1, -1, -1, -1, -1, -1, -1, -1, -1, -1,
            -1, -1, -1, -1, -1, -1, -1, -1, -1, -1,
        ];
        Mailbox { mailbox64, mailbox120 }
    }

    /// The square reached from `from` by `offset` grid units, or `OFF_BOARD`.
    pub fn get_square_with_offset(&self, from: usize, offset: isize) -> (to: isize)
        requires
            self.wf(),
            from < 64,
            -21 <= offset <= 21,
        ensures
            to == grid_content(grid_cell(from as int) + offset),
            to == OFF_BOARD || 0 <= to < 64,
    {
        let cell: isize = self.mailbox64[from] as isize + offset;
        self.mailbox120[cell as usize]
    }
}

} // verus!
