//! Integer RGB colors with gamma-corrected construction from a linear
//! intensity vector.
//!
//! Display mapping: each linear channel in `[0, 1]` is gamma-corrected by a
//! square root and spread over the integer range `[0, 255]`.

use vstd::prelude::*;
use crate::RenderError;
use crate::fixed::{SCALE, tdiv, sqrt_s, sqrt_scaled, lemma_sqrt_s_unit_range, lemma_tdiv_bounds};
use crate::position::{Position, pos};

verus! {

/// Numerator of the channel spread factor (255.999 in fixed point, over
/// `CHANNEL_DEN`).
pub const CHANNEL_NUM: i128 = 255_999;

/// Denominator that removes both the spread scaling and the fixed-point
/// scale.
pub const CHANNEL_DEN: i128 = 1_000_000_000;

#[derive(Clone, Copy, PartialEq, Eq, Structural, Debug, Hash)]
pub struct Color {
    pub r: i32,
    pub g: i32,
    pub b: i32,
}

/// A linear intensity channel is displayable when it lies in `[0, 1]`.
pub open spec fn intensity_ok(v: Position) -> bool {
    &&& 0 <= v.x <= SCALE as int
    &&& 0 <= v.y <= SCALE as int
    &&& 0 <= v.z <= SCALE as int
}

/// Gamma-corrected display value of one linear channel.
pub open spec fn spec_channel(x: int) -> int {
    tdiv(sqrt_s(x) * (CHANNEL_NUM as int), CHANNEL_DEN as int)
}

/// Gamma-corrected color of a linear intensity vector.
pub open spec fn spec_from_intensity(v: Position) -> Color {
    Color {
        r: spec_channel(v.x as int) as i32,
        g: spec_channel(v.y as int) as i32,
        b: spec_channel(v.z as int) as i32,
    }
}

/// A displayable channel maps into `[0, 255]`.
pub proof fn lemma_channel_range(x: int)
    requires
        0 <= x <= SCALE as int,
    ensures
        0 <= spec_channel(x) <= 255,
{
    lemma_sqrt_s_unit_range(x);
    lemma_tdiv_bounds(
        sqrt_s(x) * (CHANNEL_NUM as int),
        CHANNEL_DEN as int,
        (SCALE as int) * (CHANNEL_NUM as int),
    );
    assert(sqrt_s(x) * (CHANNEL_NUM as int) >= 0) by (nonlinear_arith)
        requires sqrt_s(x) >= 0;
    vstd::arithmetic::div_mod::lemma_div_pos_is_pos(
        sqrt_s(x) * (CHANNEL_NUM as int),
        CHANNEL_DEN as int,
    );
}

impl Color {
    pub fn new(r: i32, g: i32, b: i32) -> (c: Color)
        ensures
            c == (Color { r, g, b }),
    {
        Color { r, g, b }
    }

    /// Gamma-corrected construction from a linear intensity vector whose
    /// channels are known to lie in `[0, 1]`.
    pub fn from_intensity(v: Position) -> (c: Color)
        requires
            intensity_ok(v),
        ensures
            c == spec_from_intensity(v),
            0 <= c.r <= 255,
            0 <= c.g <= 255,
            0 <= c.b <= 255,
    {
        proof {
            lemma_channel_range(v.x as int);
            lemma_channel_range(v.y as int);
            lemma_channel_range(v.z as int);
        }
        let r = Self::channel(v.x);
        let g = Self::channel(v.y);
        let b = Self::channel(v.z);
        Color { r, g, b }
    }

    /// Validated gamma-corrected construction: any channel outside `[0, 1]`
    /// is rejected rather than silently clamped.
    pub fn try_from_intensity(v: Position) -> (res: Result<Color, RenderError>)
        ensures
            res is Ok <==> intensity_ok(v),
            res is Ok ==> res->Ok_0 == spec_from_intensity(v),
            res is Err ==> res->Err_0 == RenderError::ColorOutOfRange,
    {
        let ok = 0 <= v.x && v.x <= SCALE && 0 <= v.y && v.y <= SCALE && 0 <= v.z && v.z
            <= SCALE;
        if ok {
            Ok(Self::from_intensity(v))
        } else {
            Err(RenderError::ColorOutOfRange)
        }
    }

    /// One gamma-corrected display channel.
    fn channel(x: i128) -> (r: i32)
        requires
            0 <= x <= SCALE as int,
        ensures
            r == spec_channel(x as int),
            0 <= r <= 255,
    {
        proof {
            lemma_channel_range(x as int);
            lemma_sqrt_s_unit_range(x as int);
        }
        let s = sqrt_scaled(x);
        let p: i128 = s * CHANNEL_NUM;
        (p / CHANNEL_DEN) as i32
    }

    /// The channels as a plain-value vector (each channel times the scale).
    pub fn to_position(self) -> (p: Position)
        ensures
            p == pos((self.r as int) * (SCALE as int), (self.g as int) * (SCALE as int), (
            self.b as int) * (SCALE as int)),
    {
        Position {
            x: (self.r as i128) * SCALE,
            y: (self.g as i128) * SCALE,
            z: (self.b as i128) * SCALE,
        }
    }
}

impl Default for Color {
    /// Black.
    fn default() -> (c: Color)
        ensures
            c == (Color { r: 0, g: 0, b: 0 }),
    {
        Color { r: 0, g: 0, b: 0 }
    }
}

} // verus!
