use vstd::prelude::*;

verus! {

/// Fixed-point scale of transform coefficients: the real value 1 is `ONE`.
pub const ONE: i64 = 65536;

/// Largest number of columns or rows a grid may have.
pub const MAX_SIDE: usize = 32768;

/// Largest magnitude of a transform coefficient (a scale factor of at most 256).
pub const MAX_COEF: i64 = 16777216;

/// Largest magnitude of a transform's translation, in coordinate units.
pub const MAX_SHIFT: i64 = 1073741824;

/// A point of the continuous plane, in half-pixel steps from the grid's centre.
///
/// The aspect-normalised coordinate is `(x / m, y / m)` where `m` is the grid's
/// shorter side, so the shorter side spans `[-1, 1]`.
#[derive(Clone, Copy, Debug, PartialEq, Eq, Structural)]
pub struct Coord {
    pub x: i64,
    pub y: i64,
}

/// A similarity transform: `p -> (a + b i) p / ONE + (tx + ty i)`, a rotation
/// and uniform scale given by the fixed-point complex factor `a + b i`, then a
/// translation.
#[derive(Clone, Copy, Debug, PartialEq, Eq, Structural)]
pub struct Transform {
    pub a: i64,
    pub b: i64,
    pub tx: i64,
    pub ty: i64,
}

pub open spec fn floor_div(n: int, d: int) -> int
    recommends
        d > 0,
{
    n / d
}

pub open spec fn spec_coordinate(col: int, row: int, cols: int, rows: int) -> Coord {
    Coord { x: (2 * col + 1 - cols) as i64, y: (2 * row + 1 - rows) as i64 }
}

pub open spec fn spec_pixel(c: Coord, cols: int, rows: int) -> (int, int) {
    (floor_div(c.x + cols, 2), floor_div(c.y + rows, 2))
}

impl Transform {
    pub open spec fn wf(&self) -> bool {
        &&& -MAX_COEF <= self.a <= MAX_COEF
        &&& -MAX_COEF <= self.b <= MAX_COEF
        &&& -MAX_SHIFT <= self.tx <= MAX_SHIFT
        &&& -MAX_SHIFT <= self.ty <= MAX_SHIFT
    }

    pub open spec fn spec_apply(&self, c: Coord) -> Coord {
        Coord {
            x: (floor_div(self.a * c.x - self.b * c.y, ONE as int) + self.tx) as i64,
            y: (floor_div(self.b * c.x + self.a * c.y, ONE as int) + self.ty) as i64,
        }
    }

    pub open spec fn identity_spec() -> Transform {
        Transform { a: ONE, b: 0, tx: 0, ty: 0 }
    }

    /// The transform that leaves every coordinate where it is.
    pub fn identity() -> (t: Transform)
        ensures
            t.wf(),
            t == Transform::identity_spec(),
    {
        Transform { a: ONE, b: 0, tx: 0, ty: 0 }
    }

    /// Applies the transform to a coordinate of a grid no side of which exceeds `MAX_SIDE`.
    pub fn apply(&self, c: Coord) -> (r: Coord)
        requires
            self.wf(),
            -2 * MAX_SIDE <= c.x <= 2 * MAX_SIDE,
            -2 * MAX_SIDE <= c.y <= 2 * MAX_SIDE,
        ensures
            r == self.spec_apply(c),
            -2 * MAX_SHIFT <= r.x <= 2 * MAX_SHIFT,
            -2 * MAX_SHIFT <= r.y <= 2 * MAX_SHIFT,
    {
        assert(-MAX_COEF * 2 * MAX_SIDE <= self.a * c.x <= MAX_COEF * 2 * MAX_SIDE) by (nonlinear_arith)
            requires
                -MAX_COEF <= self.a <= MAX_COEF,
                -2 * MAX_SIDE <= c.x <= 2 * MAX_SIDE,
        ;
        assert(-MAX_COEF * 2 * MAX_SIDE <= self.b * c.y <= MAX_COEF * 2 * MAX_SIDE) by (nonlinear_arith)
            requires
                -MAX_COEF <= self.b <= MAX_COEF,
                -2 * MAX_SIDE <= c.y <= 2 * MAX_SIDE,
        ;
        assert(-MAX_COEF * 2 * MAX_SIDE <= self.b * c.x <= MAX_COEF * 2 * MAX_SIDE) by (nonlinear_arith)
            requires
                -MAX_COEF <= self.b <= MAX_COEF,
                -2 * MAX_SIDE <= c.x <= 2 * MAX_SIDE,
        ;
        assert(-MAX_COEF * 2 * MAX_SIDE <= self.a * c.y <= MAX_COEF * 2 * MAX_SIDE) by (nonlinear_arith)
            requires
                -MAX_COEF <= self.a <= MAX_COEF,
                -2 * MAX_SIDE <= c.y <= 2 * MAX_SIDE,
        ;
        let nx = self.a * c.x - self.b * c.y;
        let ny = self.b * c.x + self.a * c.y;
        let qx = div_floor(nx, ONE);
        let qy = div_floor(ny, ONE);
        proof {
            lemma_floor_div_bound(nx as int);
            lemma_floor_div_bound(ny as int);
        }
        let x = qx + self.tx;
        let y = qy + self.ty;
        Coord { x, y }
    }
}

proof fn lemma_floor_div_bound(n: int)
    requires
        -4 * MAX_COEF * MAX_SIDE <= n <= 4 * MAX_COEF * MAX_SIDE,
    ensures
        -MAX_SHIFT <= floor_div(n, ONE as int) <= MAX_SHIFT,
{
    vstd::arithmetic::div_mod::lemma_div_is_ordered(n, 4 * MAX_COEF * MAX_SIDE, ONE as int);
    vstd::arithmetic::div_mod::lemma_div_is_ordered(-4 * MAX_COEF * MAX_SIDE, n, ONE as int);
    assert((-4 * MAX_COEF * MAX_SIDE) / (ONE as int) == -2 * MAX_COEF);
    assert((4 * MAX_COEF * MAX_SIDE) / (ONE as int) == 2 * MAX_COEF);
}

/// Division rounding towards negative infinity, by a positive divisor.
pub fn div_floor(n: i64, d: i64) -> (q: i64)
    requires
        d > 0,
        n > i64::MIN,
    ensures
        q == floor_div(n as int, d as int),
{
    if n >= 0 {
        n / d
    } else {
        let m: i64 = -n;
        let t: i64 = (m - 1) / d;
        proof {
            let ni = n as int;
            let di = d as int;
            let ti = t as int;
            vstd::arithmetic::div_mod::lemma_fundamental_div_mod((m - 1) as int, di);
            vstd::arithmetic::div_mod::lemma_fundamental_div_mod(ni, di);
            let r1 = (m - 1) as int % di;
            let r2 = ni % di;
            // n = -(t d + r1) - 1 = (-t - 1) d + (d - 1 - r1), with 0 <= d - 1 - r1 < d.
            assert(ni == (-ti - 1) * di + (di - 1 - r1)) by (nonlinear_arith)
                requires
                    (m - 1) as int == di * ti + r1,
                    ni == -(m as int),
            ;
            vstd::arithmetic::div_mod::lemma_fundamental_div_mod_converse(ni, di, -ti - 1, di - 1 - r1);
        }
        -t - 1
    }
}

/// The remainder of `n` by a positive divisor `d`, in `0..d`.
pub fn mod_floor(n: i64, d: i64) -> (r: i64)
    requires
        d > 0,
        n >= i64::MIN + d,
    ensures
        r == n as int % d as int,
        0 <= r < d,
{
    let q = div_floor(n, d);
    proof {
        vstd::arithmetic::div_mod::lemma_fundamental_div_mod(n as int, d as int);
        vstd::arithmetic::div_mod::lemma_mod_bound(n as int, d as int);
        assert(d * q == n - n % d);
    }
    n - d * q
}

/// The coordinate of the centre of pixel `(col, row)` in a `cols` by `rows` grid.
pub fn to_coordinate(col: usize, row: usize, cols: usize, rows: usize) -> (c: Coord)
    requires
        cols <= MAX_SIDE,
        rows <= MAX_SIDE,
        col < cols,
        row < rows,
    ensures
        c == spec_coordinate(col as int, row as int, cols as int, rows as int),
        -2 * MAX_SIDE <= c.x <= 2 * MAX_SIDE,
        -2 * MAX_SIDE <= c.y <= 2 * MAX_SIDE,
{
    Coord {
        x: 2 * (col as i64) + 1 - cols as i64,
        y: 2 * (row as i64) + 1 - rows as i64,
    }
}

/// The pixel, as a signed column and row that may lie outside the grid, whose
/// area holds coordinate `c`.
pub fn to_pixel(c: Coord, cols: usize, rows: usize) -> (p: (i64, i64))
    requires
        cols <= MAX_SIDE,
        rows <= MAX_SIDE,
        -4 * MAX_SHIFT <= c.x <= 4 * MAX_SHIFT,
        -4 * MAX_SHIFT <= c.y <= 4 * MAX_SHIFT,
    ensures
        p.0 == spec_pixel(c, cols as int, rows as int).0,
        p.1 == spec_pixel(c, cols as int, rows as int).1,
        -4 * MAX_SHIFT <= p.0 <= 4 * MAX_SHIFT,
        -4 * MAX_SHIFT <= p.1 <= 4 * MAX_SHIFT,
{
    (div_floor(c.x + cols as i64, 2), div_floor(c.y + rows as i64, 2))
}

/// Mapping a pixel to its coordinate and back, through the identity transform,
/// gives the same pixel, for every grid and every pixel in it.
pub proof fn lemma_pixel_round_trip(col: int, row: int, cols: int, rows: int)
    requires
        0 <= col < cols <= MAX_SIDE,
        0 <= row < rows <= MAX_SIDE,
    ensures
        Transform::identity_spec().spec_apply(spec_coordinate(col, row, cols, rows))
            == spec_coordinate(col, row, cols, rows),
        spec_pixel(
            Transform::identity_spec().spec_apply(spec_coordinate(col, row, cols, rows)),
            cols,
            rows,
        ) == (col, row),
{
    let c = spec_coordinate(col, row, cols, rows);
    let t = Transform::identity_spec();
    assert(floor_div(ONE * c.x - 0 * c.y, ONE as int) == c.x) by (nonlinear_arith);
    assert(floor_div(0 * c.x + ONE * c.y, ONE as int) == c.y) by (nonlinear_arith);
    assert(t.spec_apply(c) == c);
    assert(floor_div(2 * col + 1, 2) == col);
    assert(floor_div(2 * row + 1, 2) == row);
}

} // verus!
