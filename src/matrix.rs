use vstd::prelude::*;
use crate::color::{Color, Operation};
use crate::filter::Filter;
use crate::geometry::{
    mod_floor, spec_coordinate, spec_pixel, to_coordinate, to_pixel, Coord, Transform, MAX_SHIFT,
    MAX_SIDE,
};

verus! {

/// What a render step samples where the source pixel lies outside the grid.
#[derive(Clone, Copy, Debug, PartialEq, Eq, Structural)]
pub enum Boundary {
    /// The background colour, all channels zero.
    Background,
    /// The pixel found by wrapping each axis around the grid.
    Wrap,
}

/// The parameters of one render step.
#[derive(Clone, Copy, Debug, PartialEq, Eq, Structural)]
pub struct Step {
    pub filter: Filter,
    pub operation: Operation,
    pub transform: Transform,
    pub boundary: Boundary,
}

impl Step {
    pub open spec fn wf(&self) -> bool {
        self.operation.wf() && self.transform.wf()
    }
}

/// A grid of colours, `cols` wide and `rows` high, stored column by column:
/// pixel `(col, row)` is cell `col * rows + row`.
#[derive(Clone, Debug)]
pub struct Matrix {
    cols: usize,
    rows: usize,
    cells: Vec<Color>,
}

pub open spec fn cell_index(col: int, row: int, rows: int) -> int {
    col * rows + row
}

impl Matrix {
    pub closed spec fn spec_cols(&self) -> nat {
        self.cols as nat
    }

    pub closed spec fn spec_rows(&self) -> nat {
        self.rows as nat
    }

    /// The cells in storage order.
    pub closed spec fn view(&self) -> Seq<Color> {
        self.cells@
    }

    pub closed spec fn wf(&self) -> bool {
        &&& self.cols <= MAX_SIDE
        &&& self.rows <= MAX_SIDE
        &&& self.cells@.len() == self.cols * self.rows
    }

    /// A well-formed grid has sides of at most `MAX_SIDE` and one cell per pixel.
    pub proof fn lemma_wf_bounds(&self)
        requires
            self.wf(),
        ensures
            self.spec_cols() <= MAX_SIDE,
            self.spec_rows() <= MAX_SIDE,
            self@.len() == self.spec_cols() * self.spec_rows(),
    {
    }

    /// Through the identity transform every destination pixel samples itself,
    /// on every well-formed grid: a matched pixel gets the operation applied
    /// to its own colour, any other keeps its colour.
    pub proof fn lemma_identity_samples_itself(&self, step: Step, d: Seq<Color>, col: int, row: int)
        requires
            self.wf(),
            step.transform == Transform::identity_spec(),
            0 <= col < self.spec_cols(),
            0 <= row < self.spec_rows(),
        ensures
            spec_pixel(self.spec_source(step.transform, col, row), self.spec_cols() as int, self.spec_rows() as int)
                == (col, row),
            self.spec_rendered(step, d, col, row) == (if step.filter.spec_matches(
                self.spec_cols() as int,
                self.spec_rows() as int,
                col,
                row,
                spec_coordinate(col, row, self.spec_cols() as int, self.spec_rows() as int),
            ) {
                step.operation.spec_apply(self.spec_cell(col, row), d[cell_index(col, row, self.spec_rows() as int)])
            } else {
                self.spec_cell(col, row)
            }),
    {
        crate::geometry::lemma_pixel_round_trip(col, row, self.spec_cols() as int, self.spec_rows() as int);
    }

    pub open spec fn spec_cell(&self, col: int, row: int) -> Color {
        self.view()[cell_index(col, row, self.spec_rows() as int)]
    }

    /// A `cols` by `rows` grid of background colour.
    pub fn new(cols: usize, rows: usize) -> (m: Matrix)
        requires
            cols <= MAX_SIDE,
            rows <= MAX_SIDE,
        ensures
            m.wf(),
            m.spec_cols() == cols,
            m.spec_rows() == rows,
            m.view() == Seq::new((cols * rows) as nat, |i: int| Color::black()),
    {
        assert(cols * rows <= MAX_SIDE * MAX_SIDE) by (nonlinear_arith)
            requires cols <= MAX_SIDE, rows <= MAX_SIDE;
        let n: usize = cols * rows;
        let mut cells: Vec<Color> = Vec::new();
        let mut i: usize = 0;
        while i < n
            invariant
                i <= n,
                cells@ == Seq::new(i as nat, |k: int| Color::black()),
            decreases n - i,
        {
            cells.push(Color::zero());
            i += 1;
            assert(cells@ =~= Seq::new(i as nat, |k: int| Color::black()));
        }
        Matrix { cols, rows, cells }
    }

    /// A grid built from cells in storage order, or `None` where their number is
    /// not `cols * rows` or a side exceeds `MAX_SIDE`.
    pub fn from_cells(cols: usize, rows: usize, cells: Vec<Color>) -> (r: Option<Matrix>)
        ensures
            r is Some <==> cols <= MAX_SIDE && rows <= MAX_SIDE && cells@.len() == cols * rows,
            r matches Some(m) ==> m.wf() && m.spec_cols() == cols && m.spec_rows() == rows
                && m.view() == cells@,
    {
        if cols > MAX_SIDE || rows > MAX_SIDE {
            return None;
        }
        assert(cols * rows <= MAX_SIDE * MAX_SIDE) by (nonlinear_arith)
            requires cols <= MAX_SIDE, rows <= MAX_SIDE;
        if cells.len() != cols * rows {
            return None;
        }
        Some(Matrix { cols, rows, cells })
    }

    pub fn cells_len(&self) -> (n: usize)
        ensures
            n == self@.len(),
    {
        self.cells.len()
    }

    pub fn cols(&self) -> (c: usize)
        ensures
            c == self.spec_cols(),
    {
        self.cols
    }

    pub fn rows(&self) -> (r: usize)
        ensures
            r == self.spec_rows(),
    {
        self.rows
    }

    /// The colour of pixel `(col, row)`.
    pub fn get(&self, col: usize, row: usize) -> (c: Color)
        requires
            self.wf(),
            col < self.spec_cols(),
            row < self.spec_rows(),
        ensures
            c == self.spec_cell(col as int, row as int),
    {
        proof { lemma_index_in_range(col as int, row as int, self.cols as int, self.rows as int); }
        self.cells[col * self.rows + row]
    }

    /// The colour sampled at signed pixel `(x, y)` under `boundary`.
    pub open spec fn spec_sample(&self, x: int, y: int, boundary: Boundary) -> Color {
        let cols = self.spec_cols() as int;
        let rows = self.spec_rows() as int;
        if 0 <= x < cols && 0 <= y < rows {
            self.spec_cell(x, y)
        } else if boundary == Boundary::Wrap && cols > 0 && rows > 0 {
            self.spec_cell(x % cols, y % rows)
        } else {
            Color::black()
        }
    }

    /// The transformed coordinate of destination pixel `(col, row)`.
    pub open spec fn spec_source(&self, t: Transform, col: int, row: int) -> Coord {
        t.spec_apply(spec_coordinate(col, row, self.spec_cols() as int, self.spec_rows() as int))
    }

    /// The colour that a step gives destination pixel `(col, row)`: where the
    /// filter matches, the operation applied to the colour sampled at the
    /// source pixel; elsewhere the pixel's own colour.
    pub open spec fn spec_rendered(&self, step: Step, draws: Seq<Color>, col: int, row: int) -> Color {
        let cols = self.spec_cols() as int;
        let rows = self.spec_rows() as int;
        let c = self.spec_source(step.transform, col, row);
        let p = spec_pixel(c, cols, rows);
        if step.filter.spec_matches(cols, rows, col, row, c) {
            step.operation.spec_apply(
                self.spec_sample(p.0, p.1, step.boundary),
                draws[cell_index(col, row, rows)],
            )
        } else {
            self.spec_cell(col, row)
        }
    }

    /// One full-grid pass: a new grid in which each pixel is as `spec_rendered`
    /// gives it, read from this grid alone. `draws` holds the colour drawn at
    /// random for each cell, in storage order.
    pub fn render(&self, step: &Step, draws: &Vec<Color>) -> (out: Matrix)
        requires
            self.wf(),
            step.wf(),
            draws@.len() == self@.len(),
        ensures
            out.wf(),
            out.spec_cols() == self.spec_cols(),
            out.spec_rows() == self.spec_rows(),
            forall|col: int, row: int|
                0 <= col < self.spec_cols() && 0 <= row < self.spec_rows()
                    ==> #[trigger] out.spec_cell(col, row) == self.spec_rendered(*step, draws@, col, row),
    {
        let cols = self.cols;
        let rows = self.rows;
        let mut cells: Vec<Color> = Vec::new();
        let mut col: usize = 0;
        while col < cols
            invariant
                self.wf(),
                step.wf(),
                draws@.len() == self@.len(),
                cols == self.cols,
                rows == self.rows,
                col <= cols,
                cells@.len() == col * rows,
                forall|c: int, r: int|
                    0 <= c < col && 0 <= r < rows ==> #[trigger] cells@[cell_index(c, r, rows as int)]
                        == self.spec_rendered(*step, draws@, c, r),
            decreases cols - col,
        {
            let mut row: usize = 0;
            while row < rows
                invariant
                    self.wf(),
                    step.wf(),
                    draws@.len() == self@.len(),
                    cols == self.cols,
                    rows == self.rows,
                    col < cols,
                    row <= rows,
                    cells@.len() == col * rows + row,
                    forall|c: int, r: int|
                        0 <= c < col && 0 <= r < rows ==> #[trigger] cells@[cell_index(c, r, rows as int)]
                            == self.spec_rendered(*step, draws@, c, r),
                    forall|r: int|
                        0 <= r < row ==> #[trigger] cells@[cell_index(col as int, r, rows as int)]
                            == self.spec_rendered(*step, draws@, col as int, r),
                decreases rows - row,
            {
                let color = self.render_pixel(step, draws, col, row);
                proof {
                    lemma_index_in_range(col as int, row as int, cols as int, rows as int);
                    assert(cell_index(col as int, row as int, rows as int) == cells@.len());
                    assert forall|c: int, r: int| 0 <= c < col && 0 <= r < rows implies
                        cell_index(c, r, rows as int) < col * rows by {
                        lemma_index_below(c, r, col as int, rows as int);
                    }
                }
                cells.push(color);
                row += 1;
            }
            proof {
                assert((col + 1) * rows == col * rows + rows) by (nonlinear_arith);
            }
            col += 1;
        }
        Matrix { cols, rows, cells }
    }

    fn render_pixel(&self, step: &Step, draws: &Vec<Color>, col: usize, row: usize) -> (color: Color)
        requires
            self.wf(),
            step.wf(),
            draws@.len() == self@.len(),
            col < self.spec_cols(),
            row < self.spec_rows(),
        ensures
            color == self.spec_rendered(*step, draws@, col as int, row as int),
    {
        let cols = self.cols;
        let rows = self.rows;
        let v = to_coordinate(col, row, cols, rows);
        let c = step.transform.apply(v);
        if step.filter.matches(cols, rows, col, row, c) {
            let p = to_pixel(c, cols, rows);
            let src = self.sample(p.0, p.1, step.boundary);
            proof { lemma_index_in_range(col as int, row as int, cols as int, rows as int); }
            step.operation.apply(src, draws[col * rows + row])
        } else {
            self.get(col, row)
        }
    }

    fn sample(&self, x: i64, y: i64, boundary: Boundary) -> (c: Color)
        requires
            self.wf(),
            -4 * MAX_SHIFT <= x <= 4 * MAX_SHIFT,
            -4 * MAX_SHIFT <= y <= 4 * MAX_SHIFT,
        ensures
            c == self.spec_sample(x as int, y as int, boundary),
    {
        let cols = self.cols as i64;
        let rows = self.rows as i64;
        if 0 <= x && x < cols && 0 <= y && y < rows {
            self.get(x as usize, y as usize)
        } else if boundary == Boundary::Wrap && cols > 0 && rows > 0 {
            let ux = mod_floor(x, cols);
            let uy = mod_floor(y, rows);
            self.get(ux as usize, uy as usize)
        } else {
            Color::zero()
        }
    }

}

impl Matrix {
    /// The text line of row `row`: a `1` for each lit pixel, a `0` for each
    /// other, left to right, then a newline.
    pub open spec fn spec_line(&self, row: int) -> Seq<char> {
        Seq::new(
            self.spec_cols(),
            |col: int| if self.spec_cell(col, row).spec_is_lit() { '1' } else { '0' },
        ).push('\n')
    }

    /// The lines of the first `n` rows, top row first.
    pub open spec fn spec_lines(&self, n: int) -> Seq<char>
        decreases n,
    {
        if n <= 0 {
            Seq::empty()
        } else {
            self.spec_lines(n - 1) + self.spec_line(n - 1)
        }
    }

    /// The grid as text: one line per row.
    pub open spec fn spec_bitmap(&self) -> Seq<char> {
        self.spec_lines(self.spec_rows() as int)
    }

    pub fn bitmap(&self) -> (s: String)
        requires
            self.wf(),
        ensures
            s@ == self.spec_bitmap(),
    {
        let mut out: Vec<char> = Vec::new();
        let mut row: usize = 0;
        while row < self.rows
            invariant
                self.wf(),
                row <= self.rows,
                out@ == self.spec_lines(row as int),
            decreases self.rows - row,
        {
            let ghost before = out@;
            let mut col: usize = 0;
            while col < self.cols
                invariant
                    self.wf(),
                    row < self.rows,
                    col <= self.cols,
                    out@ == before + Seq::new(
                        col as nat,
                        |c: int| if self.spec_cell(c, row as int).spec_is_lit() { '1' } else { '0' },
                    ),
                decreases self.cols - col,
            {
                let lit = self.get(col, row).is_lit();
                out.push(if lit { '1' } else { '0' });
                col += 1;
                assert(out@ =~= before + Seq::new(
                    col as nat,
                    |c: int| if self.spec_cell(c, row as int).spec_is_lit() { '1' } else { '0' },
                ));
            }
            out.push('\n');
            row += 1;
            assert(out@ =~= self.spec_lines(row as int));
        }
        crate::text::string_of(&out)
    }
}

proof fn lemma_index_in_range(col: int, row: int, cols: int, rows: int)
    requires
        0 <= col < cols,
        0 <= row < rows,
    ensures
        0 <= col * rows,
        0 <= col * rows + row < cols * rows,
        cols <= MAX_SIDE && rows <= MAX_SIDE ==> cols * rows <= MAX_SIDE * MAX_SIDE,
{
    if cols <= MAX_SIDE && rows <= MAX_SIDE {
        assert(cols * rows <= MAX_SIDE * MAX_SIDE) by (nonlinear_arith)
            requires 0 <= cols <= MAX_SIDE, 0 <= rows <= MAX_SIDE;
    }
    assert(col * rows + row < (col + 1) * rows) by (nonlinear_arith)
        requires row < rows;
    assert((col + 1) * rows <= cols * rows) by (nonlinear_arith)
        requires col + 1 <= cols, rows >= 0;
    assert(0 <= col * rows) by (nonlinear_arith)
        requires 0 <= col, 0 <= rows;
}

proof fn lemma_index_below(c: int, r: int, col: int, rows: int)
    requires
        0 <= c < col,
        0 <= r < rows,
    ensures
        0 <= c * rows + r < col * rows,
{
    lemma_index_in_range(c, r, col, rows);
}

} // verus!
