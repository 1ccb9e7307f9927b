//! Three-component vectors over fixed-point scalars.
//!
//! A `Position` carries a point, a direction or a linear color intensity.
//! Every operation mirrors a spec-level definition exactly, so contracts can
//! pin results down to the represented value.

use vstd::prelude::*;
use crate::fixed::{SCALE, PROD_CAP, SQRT_IN_CAP, SQRT_OUT_CAP};
use crate::fixed::{tdiv, mul_s, div_s, sqrt_s};
use crate::fixed::{mul_scaled, div_scaled, sqrt_scaled, sqrt_floor};
use crate::fixed::{lemma_mul_bound, lemma_mul_s_bound, lemma_tdiv_bounds, lemma_tdiv_nonneg};
use vstd::arithmetic::div_mod::lemma_fundamental_div_mod;
use vstd::arithmetic::div_mod::lemma_mod_bound;

verus! {

/// Largest component magnitude accepted by the vector operations.
pub const VEC_CAP: i128 = 500_000_000_000_000_000;

/// Largest magnitude a dot product of two capped vectors can reach.
pub const DOT_CAP: i128 = 750_000_000_000_000_000_000_000_000_000;

/// Lower end of the squared-length window that counts as unit length.
pub const UNIT_LO: i128 = 999_800;

/// Upper end of the squared-length window that counts as unit length.
pub const UNIT_HI: i128 = 1_000_200;

/// Largest component magnitude a unit-length vector can have.
pub const DIR_CAP: i128 = 2_000_000;

#[derive(Clone, Copy, PartialEq, Eq, Structural, Debug, Hash)]
pub struct Position {
    pub x: i128,
    pub y: i128,
    pub z: i128,
}

/// Builds a vector from spec-level integers, which must be in machine range.
pub open spec fn pos(x: int, y: int, z: int) -> Position {
    Position { x: x as i128, y: y as i128, z: z as i128 }
}

/// All components within `[-cap, cap]`.
pub open spec fn bounded(v: Position, cap: int) -> bool {
    &&& -cap <= v.x <= cap
    &&& -cap <= v.y <= cap
    &&& -cap <= v.z <= cap
}

pub open spec fn spec_plus(a: Position, b: Position) -> Position {
    pos(a.x + b.x, a.y + b.y, a.z + b.z)
}

pub open spec fn spec_minus(a: Position, b: Position) -> Position {
    pos(a.x - b.x, a.y - b.y, a.z - b.z)
}

pub open spec fn spec_neg(a: Position) -> Position {
    pos(-a.x, -a.y, -a.z)
}

/// Component-wise scaling by a fixed-point factor.
pub open spec fn spec_scaled(a: Position, t: int) -> Position {
    pos(mul_s(a.x as int, t), mul_s(a.y as int, t), mul_s(a.z as int, t))
}

/// Component-wise division by a positive fixed-point factor.
pub open spec fn spec_div_by(a: Position, t: int) -> Position {
    pos(div_s(a.x as int, t), div_s(a.y as int, t), div_s(a.z as int, t))
}

pub open spec fn spec_dot(a: Position, b: Position) -> int {
    mul_s(a.x as int, b.x as int) + mul_s(a.y as int, b.y as int) + mul_s(
        a.z as int,
        b.z as int,
    )
}

pub open spec fn spec_len2(a: Position) -> int {
    spec_dot(a, a)
}

pub open spec fn spec_len(a: Position) -> int {
    sqrt_s(spec_len2(a))
}

pub open spec fn spec_cross(a: Position, b: Position) -> Position {
    pos(
        mul_s(a.y as int, b.z as int) - mul_s(b.y as int, a.z as int),
        mul_s(a.z as int, b.x as int) - mul_s(b.z as int, a.x as int),
        mul_s(a.x as int, b.y as int) - mul_s(b.x as int, a.y as int),
    )
}

/// Normalization: each component divided by the fixed-point length.
pub open spec fn spec_unit(a: Position) -> Position {
    spec_div_by(a, spec_len(a))
}

/// Unit length up to the tolerance: the squared length lies in a fixed
/// window around one.
pub open spec fn is_unit(a: Position) -> bool {
    UNIT_LO as int <= spec_len2(a) <= UNIT_HI as int
}

pub open spec fn spec_zero() -> Position {
    Position { x: 0, y: 0, z: 0 }
}

/// Each fixed-point square term is nonnegative and below the full squared
/// length.
pub proof fn lemma_len2_parts(a: Position)
    ensures
        spec_len2(a) >= mul_s(a.x as int, a.x as int) >= 0,
        spec_len2(a) >= mul_s(a.y as int, a.y as int) >= 0,
        spec_len2(a) >= mul_s(a.z as int, a.z as int) >= 0,
{
    assert(a.x * a.x >= 0 && a.y * a.y >= 0 && a.z * a.z >= 0) by (nonlinear_arith);
    lemma_tdiv_nonneg(a.x * a.x, SCALE as int);
    lemma_tdiv_nonneg(a.y * a.y, SCALE as int);
    lemma_tdiv_nonneg(a.z * a.z, SCALE as int);
}

/// A dot product of vectors with capped components is itself capped.
pub proof fn lemma_dot_bound_caps(a: Position, b: Position, ca: int, cb: int)
    requires
        bounded(a, ca),
        bounded(b, cb),
        0 <= ca,
        0 <= cb,
    ensures
        -(3 * ((ca * cb) / (SCALE as int))) <= spec_dot(a, b) <= 3 * ((ca * cb) / (SCALE as int)),
        -(ca * cb) <= a.x * b.x <= ca * cb,
        -(ca * cb) <= a.y * b.y <= ca * cb,
        -(ca * cb) <= a.z * b.z <= ca * cb,
{
    lemma_mul_s_bound(a.x as int, b.x as int, ca, cb);
    lemma_mul_s_bound(a.y as int, b.y as int, ca, cb);
    lemma_mul_s_bound(a.z as int, b.z as int, ca, cb);
}

/// A dot product of capped vectors stays within `DOT_CAP`.
pub proof fn lemma_dot_bound(a: Position, b: Position)
    requires
        bounded(a, VEC_CAP as int),
        bounded(b, VEC_CAP as int),
    ensures
        -(DOT_CAP as int) <= spec_dot(a, b) <= DOT_CAP as int,
{
    lemma_dot_bound_caps(a, b, VEC_CAP as int, VEC_CAP as int);
}

/// A normalized vector has components of magnitude at most two units:
/// each component is at most a hair above the length, and dividing by the
/// length leaves at most twice the scale.
pub proof fn lemma_unit_result_bound(v: Position)
    requires
        spec_len2(v) >= 1,
    ensures
        bounded(spec_unit(v), 2 * (SCALE as int)),
        spec_len(v) >= 1000,
{
    let s = SCALE as int;
    let l2 = spec_len2(v);
    let n = (l2 * s) as nat;
    assert(l2 * s >= s) by (nonlinear_arith)
        requires l2 >= 1 && s == 1_000_000;
    crate::fixed::lemma_sqrt_floor_char(n);
    let len = spec_len(v);
    assert(len * len <= n < (len + 1) * (len + 1));
    assert(len >= 1000) by (nonlinear_arith)
        requires (len + 1) * (len + 1) > 1_000_000 && len >= 0;
    lemma_len2_parts(v);
    lemma_unit_comp_div(v.x as int, len, l2);
    lemma_unit_comp_div(v.y as int, len, l2);
    lemma_unit_comp_div(v.z as int, len, l2);
}

/// One component of the normalization: if the fixed-point square of `x` is
/// at most the squared length, then `x * SCALE / len` is at most two units.
proof fn lemma_unit_comp_div(x: int, len: int, l2: int)
    requires
        tdiv(x * x, SCALE as int) <= l2,
        1000 <= len,
        len * len <= l2 * (SCALE as int) < (len + 1) * (len + 1),
    ensures
        -(2 * (SCALE as int)) <= tdiv(x * (SCALE as int), len) <= 2 * (SCALE as int),
{
    let s = SCALE as int;
    assert(x * x >= 0) by (nonlinear_arith);
    lemma_fundamental_div_mod(x * x, s);
    lemma_mod_bound(x * x, s);
    assert(x * x <= s * l2 + s - 1);
    assert(x * x < (len + 1) * (len + 1) + s) by (nonlinear_arith)
        requires x * x <= s * l2 + s - 1 && l2 * s < (len + 1) * (len + 1) && s * l2 == l2 * s;
    assert(s * l2 == l2 * s) by (nonlinear_arith);
    assert(-(len + 1000) <= x <= len + 1000) by (nonlinear_arith)
        requires
            x * x < (len + 1) * (len + 1) + 1_000_000,
            len >= 1000,
    ;
    assert(-((len + 1000) * s) <= x * s <= (len + 1000) * s) by (nonlinear_arith)
        requires -(len + 1000) <= x <= len + 1000 && s > 0;
    lemma_tdiv_bounds(x * s, len, (len + 1000) * s);
    assert(((len + 1000) * s) <= len * (2 * s)) by (nonlinear_arith)
        requires len >= 1000 && s == 1_000_000;
    vstd::arithmetic::div_mod::lemma_div_is_ordered((len + 1000) * s, len * (2 * s), len);
    vstd::arithmetic::div_mod::lemma_div_multiples_vanish(2 * s, len);
    assert(len * (2 * s) == (2 * s) * len) by (nonlinear_arith);
}

/// Negation keeps the squared length.
pub proof fn lemma_neg_len2(a: Position)
    requires
        bounded(a, PROD_CAP as int),
    ensures
        spec_len2(spec_neg(a)) == spec_len2(a),
{
    let n = spec_neg(a);
    assert(n.x as int * (n.x as int) == a.x as int * (a.x as int)) by (nonlinear_arith)
        requires n.x as int == -(a.x as int);
    assert(n.y as int * (n.y as int) == a.y as int * (a.y as int)) by (nonlinear_arith)
        requires n.y as int == -(a.y as int);
    assert(n.z as int * (n.z as int) == a.z as int * (a.z as int)) by (nonlinear_arith)
        requires n.z as int == -(a.z as int);
}

/// A unit-length vector has components below `DIR_CAP`.
pub proof fn lemma_unit_comp_bound(a: Position)
    requires
        is_unit(a),
    ensures
        bounded(a, DIR_CAP as int),
{
    lemma_len2_parts(a);
    lemma_comp_from_square(a.x as int);
    lemma_comp_from_square(a.y as int);
    lemma_comp_from_square(a.z as int);
}

/// If the fixed-point square of a component is small, so is the component.
proof fn lemma_comp_from_square(x: int)
    requires
        tdiv(x * x, SCALE as int) <= UNIT_HI as int,
    ensures
        -(DIR_CAP as int) <= x <= DIR_CAP as int,
{
    assert(x * x >= 0) by (nonlinear_arith);
    lemma_fundamental_div_mod(x * x, SCALE as int);
    lemma_mod_bound(x * x, SCALE as int);
    assert(x * x <= (SCALE as int) * (UNIT_HI as int) + (SCALE as int) - 1);
    assert(-(DIR_CAP as int) <= x <= DIR_CAP as int) by (nonlinear_arith)
        requires x * x <= (SCALE as int) * (UNIT_HI as int) + (SCALE as int) - 1;
}

impl Position {
    pub fn new(x: i128, y: i128, z: i128) -> (r: Position)
        ensures
            r == (Position { x, y, z }),
    {
        Position { x, y, z }
    }

    /// Component-wise addition.
    pub fn plus(self, v: Position) -> (r: Position)
        requires
            -(PROD_CAP as int) <= self.x + v.x <= PROD_CAP as int,
            -(PROD_CAP as int) <= self.y + v.y <= PROD_CAP as int,
            -(PROD_CAP as int) <= self.z + v.z <= PROD_CAP as int,
        ensures
            r == spec_plus(self, v),
    {
        Position { x: self.x + v.x, y: self.y + v.y, z: self.z + v.z }
    }

    /// Component-wise subtraction.
    pub fn minus(self, v: Position) -> (r: Position)
        requires
            -(PROD_CAP as int) <= self.x - v.x <= PROD_CAP as int,
            -(PROD_CAP as int) <= self.y - v.y <= PROD_CAP as int,
            -(PROD_CAP as int) <= self.z - v.z <= PROD_CAP as int,
        ensures
            r == spec_minus(self, v),
    {
        Position { x: self.x - v.x, y: self.y - v.y, z: self.z - v.z }
    }

    /// In-place component-wise addition.
    pub fn plus_assign(&mut self, v: Position)
        requires
            -(PROD_CAP as int) <= old(self).x + v.x <= PROD_CAP as int,
            -(PROD_CAP as int) <= old(self).y + v.y <= PROD_CAP as int,
            -(PROD_CAP as int) <= old(self).z + v.z <= PROD_CAP as int,
        ensures
            *final(self) == spec_plus(*old(self), v),
    {
        *self = self.plus(v);
    }

    /// In-place component-wise subtraction.
    pub fn minus_assign(&mut self, v: Position)
        requires
            -(PROD_CAP as int) <= old(self).x - v.x <= PROD_CAP as int,
            -(PROD_CAP as int) <= old(self).y - v.y <= PROD_CAP as int,
            -(PROD_CAP as int) <= old(self).z - v.z <= PROD_CAP as int,
        ensures
            *final(self) == spec_minus(*old(self), v),
    {
        *self = self.minus(v);
    }

    /// In-place scalar multiplication.
    pub fn scale_assign(&mut self, t: i128)
        requires
            -(PROD_CAP as int) <= old(self).x * t <= PROD_CAP as int,
            -(PROD_CAP as int) <= old(self).y * t <= PROD_CAP as int,
            -(PROD_CAP as int) <= old(self).z * t <= PROD_CAP as int,
        ensures
            *final(self) == spec_scaled(*old(self), t as int),
    {
        *self = self.scaled_by(t);
    }

    /// In-place scalar division.
    pub fn div_assign(&mut self, t: i128)
        requires
            t >= 1,
            -(PROD_CAP as int) <= old(self).x * (SCALE as int) <= PROD_CAP as int,
            -(PROD_CAP as int) <= old(self).y * (SCALE as int) <= PROD_CAP as int,
            -(PROD_CAP as int) <= old(self).z * (SCALE as int) <= PROD_CAP as int,
        ensures
            *final(self) == spec_div_by(*old(self), t as int),
    {
        *self = self.div_by(t);
    }

    /// Component-wise negation.
    pub fn negated(self) -> (r: Position)
        requires
            bounded(self, PROD_CAP as int),
        ensures
            r == spec_neg(self),
    {
        Position { x: -self.x, y: -self.y, z: -self.z }
    }

    /// Scalar multiplication by a fixed-point factor.
    pub fn scaled_by(self, t: i128) -> (r: Position)
        requires
            -(PROD_CAP as int) <= self.x * t <= PROD_CAP as int,
            -(PROD_CAP as int) <= self.y * t <= PROD_CAP as int,
            -(PROD_CAP as int) <= self.z * t <= PROD_CAP as int,
        ensures
            r == spec_scaled(self, t as int),
    {
        Position {
            x: mul_scaled(self.x, t),
            y: mul_scaled(self.y, t),
            z: mul_scaled(self.z, t),
        }
    }

    /// Scalar division by a positive fixed-point factor.
    pub fn div_by(self, t: i128) -> (r: Position)
        requires
            t >= 1,
            -(PROD_CAP as int) <= self.x * (SCALE as int) <= PROD_CAP as int,
            -(PROD_CAP as int) <= self.y * (SCALE as int) <= PROD_CAP as int,
            -(PROD_CAP as int) <= self.z * (SCALE as int) <= PROD_CAP as int,
        ensures
            r == spec_div_by(self, t as int),
    {
        Position {
            x: div_scaled(self.x, t),
            y: div_scaled(self.y, t),
            z: div_scaled(self.z, t),
        }
    }

    /// Fixed-point dot product.
    pub fn dot(self, rhs: Position) -> (r: i128)
        requires
            -(PROD_CAP as int) <= self.x * rhs.x <= PROD_CAP as int,
            -(PROD_CAP as int) <= self.y * rhs.y <= PROD_CAP as int,
            -(PROD_CAP as int) <= self.z * rhs.z <= PROD_CAP as int,
        ensures
            r == spec_dot(self, rhs),
    {
        proof {
            lemma_tdiv_bounds(self.x * rhs.x, SCALE as int, PROD_CAP as int);
            lemma_tdiv_bounds(self.y * rhs.y, SCALE as int, PROD_CAP as int);
            lemma_tdiv_bounds(self.z * rhs.z, SCALE as int, PROD_CAP as int);
        }
        let tx = mul_scaled(self.x, rhs.x);
        let ty = mul_scaled(self.y, rhs.y);
        let tz = mul_scaled(self.z, rhs.z);
        tx + ty + tz
    }

    /// Squared Euclidean length, in fixed-point units.
    pub fn length_squared(&self) -> (r: i128)
        requires
            bounded(*self, VEC_CAP as int),
        ensures
            r == spec_len2(*self),
            0 <= r <= DOT_CAP as int,
    {
        proof {
            lemma_len2_parts(*self);
            lemma_dot_bound(*self, *self);
            lemma_mul_bound(self.x as int, self.x as int, VEC_CAP as int, VEC_CAP as int);
            lemma_mul_bound(self.y as int, self.y as int, VEC_CAP as int, VEC_CAP as int);
            lemma_mul_bound(self.z as int, self.z as int, VEC_CAP as int, VEC_CAP as int);
        }
        self.dot(*self)
    }

    /// Euclidean length, in fixed-point units.
    pub fn length(&self) -> (r: i128)
        requires
            bounded(*self, VEC_CAP as int),
        ensures
            r == spec_len(*self),
            0 <= r <= SQRT_OUT_CAP as int,
    {
        let l2 = self.length_squared();
        proof {
            assert(l2 * (SCALE as int) <= SQRT_IN_CAP as int) by (nonlinear_arith)
                requires 0 <= l2 <= DOT_CAP as int;
        }
        sqrt_scaled(l2)
    }

    /// Fixed-point cross product.
    pub fn cross(self, rhs: Position) -> (r: Position)
        requires
            bounded(self, VEC_CAP as int),
            bounded(rhs, VEC_CAP as int),
        ensures
            r == spec_cross(self, rhs),
    {
        proof {
            lemma_mul_s_bound(self.y as int, rhs.z as int, VEC_CAP as int, VEC_CAP as int);
            lemma_mul_s_bound(rhs.y as int, self.z as int, VEC_CAP as int, VEC_CAP as int);
            lemma_mul_s_bound(self.z as int, rhs.x as int, VEC_CAP as int, VEC_CAP as int);
            lemma_mul_s_bound(rhs.z as int, self.x as int, VEC_CAP as int, VEC_CAP as int);
            lemma_mul_s_bound(self.x as int, rhs.y as int, VEC_CAP as int, VEC_CAP as int);
            lemma_mul_s_bound(rhs.x as int, self.y as int, VEC_CAP as int, VEC_CAP as int);
        }
        Position {
            x: mul_scaled(self.y, rhs.z) - mul_scaled(rhs.y, self.z),
            y: mul_scaled(self.z, rhs.x) - mul_scaled(rhs.z, self.x),
            z: mul_scaled(self.x, rhs.y) - mul_scaled(rhs.x, self.y),
        }
    }

    /// Normalizes to (approximately) unit length by dividing by the length.
    pub fn unit(self) -> (r: Position)
        requires
            bounded(self, VEC_CAP as int),
            spec_len2(self) >= 1,
        ensures
            r == spec_unit(self),
            spec_len(self) >= 1,
    {
        let len = self.length();
        proof {
            let n = (spec_len2(self) * (SCALE as int)) as nat;
            assert(spec_len2(self) * (SCALE as int) >= SCALE as int) by (nonlinear_arith)
                requires spec_len2(self) >= 1;
            crate::fixed::lemma_sqrt_floor_char(n);
            let s = sqrt_floor(n);
            assert(s == 0 ==> (s + 1) * (s + 1) == 1) by (nonlinear_arith);
            if spec_len(self) == 0 {
                assert(s == 0);
                assert(n < (s + 1) * (s + 1));
                assert(n < 1);
            }
        }
        self.div_by(len)
    }

    /// One component by axis index: zero, one and two select the first,
    /// second and third axis.
    pub fn component(&self, index: usize) -> (r: i128)
        requires
            index < 3,
        ensures
            index == 0 ==> r == self.x,
            index == 1 ==> r == self.y,
            index == 2 ==> r == self.z,
    {
        if index == 0 {
            self.x
        } else if index == 1 {
            self.y
        } else {
            self.z
        }
    }

    /// Replaces one component by axis index, leaving the others unchanged.
    pub fn set_component(&mut self, index: usize, v: i128)
        requires
            index < 3,
        ensures
            index == 0 ==> *final(self) == (Position { x: v, ..*old(self) }),
            index == 1 ==> *final(self) == (Position { y: v, ..*old(self) }),
            index == 2 ==> *final(self) == (Position { z: v, ..*old(self) }),
    {
        if index == 0 {
            self.x = v;
        } else if index == 1 {
            self.y = v;
        } else {
            self.z = v;
        }
    }

    /// Whether the squared length lies in the unit window.
    pub fn is_unit_len(&self) -> (r: bool)
        requires
            bounded(*self, VEC_CAP as int),
        ensures
            r == is_unit(*self),
    {
        let l2 = self.length_squared();
        UNIT_LO <= l2 && l2 <= UNIT_HI
    }
}

} // verus!
