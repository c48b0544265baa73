use vstd::prelude::*;
use crate::geometry::{Coord, MAX_SHIFT, MAX_SIDE};

verus! {

/// Which destination pixels a render step writes.
#[derive(Clone, Copy, Debug, PartialEq, Eq, Structural)]
pub enum Filter {
    /// Every pixel.
    All,
    /// The disk inscribed in the grid's shorter side.
    Circle,
    /// Both main diagonals, one step wide; another name for `X`.
    Cross,
    /// The centred square whose side is half the grid's shorter side.
    Square,
    /// The upper half of the rows.
    Top,
    /// Both main diagonals, one step wide.
    X,
    /// The rows split into `nrows` bands; every `step`-th band, from the first.
    Rows { nrows: usize, step: usize },
    /// The pixels whose column-major linear index leaves `remainder` modulo `divisor`.
    Mod { divisor: usize, remainder: usize },
}

pub open spec fn abs(v: int) -> int {
    if v < 0 {
        -v
    } else {
        v
    }
}

pub open spec fn min(a: int, b: int) -> int {
    if a < b {
        a
    } else {
        b
    }
}

impl Filter {
    /// Whether destination pixel `(col, row)` of a `cols` by `rows` grid, whose
    /// transformed coordinate is `c`, takes part in a step.
    pub open spec fn spec_matches(&self, cols: int, rows: int, col: int, row: int, c: Coord) -> bool {
        let m = min(cols, rows);
        match self {
            Filter::All => true,
            Filter::Circle => c.x * c.x + c.y * c.y <= m * m,
            Filter::Cross => abs(c.x - c.y) < 2 || abs(c.x + c.y) < 2,
            Filter::Square => 2 * abs(c.x as int) <= m && 2 * abs(c.y as int) <= m,
            Filter::Top => 2 * row < rows,
            Filter::X => abs(c.x - c.y) < 2 || abs(c.x + c.y) < 2,
            Filter::Rows { nrows, step } => rows > 0 && *step > 0 && (row * (*nrows as int) / rows) % (*step as int) == 0,
            Filter::Mod { divisor, remainder } => *divisor > 0 && (col * rows + row) % (*divisor as int) == *remainder as int,
        }
    }

    pub fn matches(&self, cols: usize, rows: usize, col: usize, row: usize, c: Coord) -> (b: bool)
        requires
            cols <= MAX_SIDE,
            rows <= MAX_SIDE,
            col < cols,
            row < rows,
            -2 * MAX_SHIFT <= c.x <= 2 * MAX_SHIFT,
            -2 * MAX_SHIFT <= c.y <= 2 * MAX_SHIFT,
        ensures
            b == self.spec_matches(cols as int, rows as int, col as int, row as int, c),
    {
        let m: i64 = if cols < rows { cols as i64 } else { rows as i64 };
        match self {
            Filter::All => true,
            Filter::Circle => {
                assert(c.x * c.x <= 4 * MAX_SHIFT * MAX_SHIFT) by (nonlinear_arith)
                    requires -2 * MAX_SHIFT <= c.x <= 2 * MAX_SHIFT;
                assert(c.y * c.y <= 4 * MAX_SHIFT * MAX_SHIFT) by (nonlinear_arith)
                    requires -2 * MAX_SHIFT <= c.y <= 2 * MAX_SHIFT;
                assert(c.x * c.x >= 0 && c.y * c.y >= 0) by (nonlinear_arith);
                assert(m * m <= MAX_SIDE * MAX_SIDE) by (nonlinear_arith)
                    requires 0 <= m <= MAX_SIDE;
                (c.x as i128) * (c.x as i128) + (c.y as i128) * (c.y as i128) <= (m as i128) * (m as i128)
            },
            Filter::Cross => abs_i64(c.x - c.y) < 2 || abs_i64(c.x + c.y) < 2,
            Filter::Square => 2 * abs_i64(c.x) <= m && 2 * abs_i64(c.y) <= m,
            Filter::Top => 2 * row < rows,
            Filter::X => abs_i64(c.x - c.y) < 2 || abs_i64(c.x + c.y) < 2,
            Filter::Rows { nrows, step } => {
                if rows == 0 || *step == 0 {
                    false
                } else {
                    let n = *nrows as u128;
                    assert((row as int) * (*nrows as int) <= MAX_SIDE * usize::MAX) by (nonlinear_arith)
                        requires row < MAX_SIDE, *nrows <= usize::MAX;
                    ((row as u128) * n / (rows as u128)) % (*step as u128) == 0
                }
            },
            Filter::Mod { divisor, remainder } => {
                if *divisor == 0 {
                    false
                } else {
                    assert((col as int) * (rows as int) + row <= MAX_SIDE * MAX_SIDE) by (nonlinear_arith)
                        requires col < cols <= MAX_SIDE, row < rows <= MAX_SIDE;
                    ((col as u64) * (rows as u64) + row as u64) % (*divisor as u64) == *remainder as u64
                }
            },
        }
    }
}

fn abs_i64(v: i64) -> (r: i64)
    requires
        v > i64::MIN,
    ensures
        r == abs(v as int),
{
    if v < 0 {
        -v
    } else {
        v
    }
}

} // verus!
