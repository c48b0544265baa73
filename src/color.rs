use vstd::prelude::*;
use crate::geometry::ONE;

verus! {

/// Largest channel value.
pub const FULL: u8 = 255;

/// A colour with three channels, each in `0..=FULL`.
#[derive(Clone, Copy, Debug, PartialEq, Eq, Structural)]
pub struct Color {
    pub r: u8,
    pub g: u8,
    pub b: u8,
}

/// An axis of colour space, named by its channel.
#[derive(Clone, Copy, Debug, PartialEq, Eq, Structural)]
pub enum Axis {
    Red,
    Green,
    Blue,
}

/// A linear map of colour space with fixed-point coefficients (`ONE` is 1),
/// given row by row; for a rotation each coefficient lies in `[-ONE, ONE]`.
#[derive(Clone, Copy, Debug, PartialEq, Eq, Structural)]
pub struct ColorRotation {
    pub rr: i64,
    pub rg: i64,
    pub rb: i64,
    pub gr: i64,
    pub gg: i64,
    pub gb: i64,
    pub br: i64,
    pub bg: i64,
    pub bb: i64,
}

/// What a render step does to the colour it samples.
#[derive(Clone, Copy, Debug, PartialEq, Eq, Structural)]
pub enum Operation {
    /// The complement of each channel.
    Invert,
    /// A fresh colour, drawn at random.
    Random,
    /// The colour rotated about an axis of colour space.
    RotateColor(ColorRotation),
}

impl Color {
    pub open spec fn black() -> Color {
        Color { r: 0, g: 0, b: 0 }
    }

    /// The background colour, all channels zero.
    pub fn zero() -> (c: Color)
        ensures
            c == Color::black(),
    {
        Color { r: 0, g: 0, b: 0 }
    }

    /// Whether the colour is bright: its channels sum to more than half their
    /// largest possible sum.
    pub open spec fn spec_is_lit(&self) -> bool {
        2 * (self.r + self.g + self.b) > 3 * FULL
    }

    pub fn is_lit(&self) -> (b: bool)
        ensures
            b == self.spec_is_lit(),
    {
        2 * (self.r as u32 + self.g as u32 + self.b as u32) > 3 * (FULL as u32)
    }
}

pub open spec fn in_unit(v: i64) -> bool {
    -ONE <= v <= ONE
}

/// A channel value clamped into `0..=FULL`.
pub open spec fn clamp_channel(v: int) -> u8 {
    if v < 0 {
        0
    } else if v > FULL {
        FULL
    } else {
        v as u8
    }
}

/// One output channel: the row `(x, y, z)` applied to the colour, scaled back
/// by `ONE` rounding down, and clamped.
pub open spec fn spec_channel(x: i64, y: i64, z: i64, c: Color) -> u8 {
    clamp_channel((x * c.r + y * c.g + z * c.b) / (ONE as int))
}

impl ColorRotation {
    pub open spec fn wf(&self) -> bool {
        &&& in_unit(self.rr) && in_unit(self.rg) && in_unit(self.rb)
        &&& in_unit(self.gr) && in_unit(self.gg) && in_unit(self.gb)
        &&& in_unit(self.br) && in_unit(self.bg) && in_unit(self.bb)
    }

    pub fn is_rotation(&self) -> (b: bool)
        ensures
            b == self.wf(),
    {
        let l = -ONE;
        l <= self.rr && self.rr <= ONE && l <= self.rg && self.rg <= ONE && l <= self.rb && self.rb <= ONE
            && l <= self.gr && self.gr <= ONE && l <= self.gg && self.gg <= ONE && l <= self.gb && self.gb <= ONE
            && l <= self.br && self.br <= ONE && l <= self.bg && self.bg <= ONE && l <= self.bb && self.bb <= ONE
    }

    pub open spec fn spec_apply(&self, c: Color) -> Color {
        Color {
            r: spec_channel(self.rr, self.rg, self.rb, c),
            g: spec_channel(self.gr, self.gg, self.gb, c),
            b: spec_channel(self.br, self.bg, self.bb, c),
        }
    }

    /// The rotation about `axis` whose angle has fixed-point cosine `cos` and
    /// sine `sin`: the axis's own channel is kept, the other two turn in their
    /// plane (red to green, green to blue, blue to red).
    pub fn about(axis: Axis, cos: i64, sin: i64) -> (m: ColorRotation)
        requires
            in_unit(cos),
            in_unit(sin),
        ensures
            m.wf(),
            m == spec_about(axis, cos, sin),
    {
        match axis {
            Axis::Red => ColorRotation {
                rr: ONE, rg: 0, rb: 0,
                gr: 0, gg: cos, gb: -sin,
                br: 0, bg: sin, bb: cos,
            },
            Axis::Green => ColorRotation {
                rr: cos, rg: 0, rb: sin,
                gr: 0, gg: ONE, gb: 0,
                br: -sin, bg: 0, bb: cos,
            },
            Axis::Blue => ColorRotation {
                rr: cos, rg: -sin, rb: 0,
                gr: sin, gg: cos, gb: 0,
                br: 0, bg: 0, bb: ONE,
            },
        }
    }

    /// Applies the map to a colour; each channel is rounded down and clamped.
    pub fn apply(&self, c: Color) -> (r: Color)
        requires
            self.wf(),
        ensures
            r == self.spec_apply(c),
    {
        Color {
            r: channel(self.rr, self.rg, self.rb, c),
            g: channel(self.gr, self.gg, self.gb, c),
            b: channel(self.br, self.bg, self.bb, c),
        }
    }
}

pub open spec fn spec_about(axis: Axis, cos: i64, sin: i64) -> ColorRotation {
    match axis {
        Axis::Red => ColorRotation {
            rr: ONE, rg: 0, rb: 0,
            gr: 0, gg: cos, gb: (-sin) as i64,
            br: 0, bg: sin, bb: cos,
        },
        Axis::Green => ColorRotation {
            rr: cos, rg: 0, rb: sin,
            gr: 0, gg: ONE, gb: 0,
            br: (-sin) as i64, bg: 0, bb: cos,
        },
        Axis::Blue => ColorRotation {
            rr: cos, rg: (-sin) as i64, rb: 0,
            gr: sin, gg: cos, gb: 0,
            br: 0, bg: 0, bb: ONE,
        },
    }
}

fn channel(x: i64, y: i64, z: i64, c: Color) -> (v: u8)
    requires
        in_unit(x),
        in_unit(y),
        in_unit(z),
    ensures
        v == spec_channel(x, y, z, c),
{
    assert(-ONE * 255 <= x * c.r <= ONE * 255) by (nonlinear_arith)
        requires in_unit(x), 0 <= c.r <= 255;
    assert(-ONE * 255 <= y * c.g <= ONE * 255) by (nonlinear_arith)
        requires in_unit(y), 0 <= c.g <= 255;
    assert(-ONE * 255 <= z * c.b <= ONE * 255) by (nonlinear_arith)
        requires in_unit(z), 0 <= c.b <= 255;
    let sum = x * (c.r as i64) + y * (c.g as i64) + z * (c.b as i64);
    let q = crate::geometry::div_floor(sum, ONE);
    if q < 0 {
        0
    } else if q > FULL as i64 {
        FULL
    } else {
        q as u8
    }
}

impl Operation {
    pub open spec fn wf(&self) -> bool {
        match self {
            Operation::RotateColor(m) => m.wf(),
            _ => true,
        }
    }

    /// The colour the operation gives for source colour `src`, where `draw`
    /// is the colour drawn at random for this pixel.
    pub open spec fn spec_apply(&self, src: Color, draw: Color) -> Color {
        match self {
            Operation::Invert => Color { r: (FULL - src.r) as u8, g: (FULL - src.g) as u8, b: (FULL - src.b) as u8 },
            Operation::Random => draw,
            Operation::RotateColor(m) => m.spec_apply(src),
        }
    }

    pub fn apply(&self, src: Color, draw: Color) -> (c: Color)
        requires
            self.wf(),
        ensures
            c == self.spec_apply(src, draw),
    {
        match self {
            Operation::Invert => Color { r: FULL - src.r, g: FULL - src.g, b: FULL - src.b },
            Operation::Random => draw,
            Operation::RotateColor(m) => m.apply(src),
        }
    }
}

} // verus!
