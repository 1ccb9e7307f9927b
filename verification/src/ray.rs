//! Parametric rays: an origin plus a unit direction.

use vstd::prelude::*;
use crate::RenderError;
use crate::fixed::{SCALE, mul_s, lemma_mul_s_bound};
use crate::position::{
    Position, bounded, is_unit, spec_plus, spec_scaled, lemma_unit_comp_bound, VEC_CAP, DIR_CAP,
};

verus! {

/// Largest component magnitude a ray origin may have.
pub const ORIGIN_CAP: i128 = 100_000_000_000_000;

/// Largest ray parameter magnitude `at` accepts.
pub const T_CAP: i128 = 10_000_000_000_000_000_000_000;

#[derive(Clone, Copy, PartialEq, Eq, Structural, Debug, Hash)]
pub struct Ray {
    pub origin: Position,
    pub direction: Position,
}

/// A well-formed ray: unit direction, origin within bounds.
pub open spec fn ray_wf(r: Ray) -> bool {
    &&& is_unit(r.direction)
    &&& bounded(r.origin, ORIGIN_CAP as int)
}

/// The point reached after parameter `t`: `origin + t * direction`.
pub open spec fn spec_at(r: Ray, t: int) -> Position {
    spec_plus(r.origin, spec_scaled(r.direction, t))
}

impl Ray {
    /// Builds a ray from an origin and a direction already known to be unit
    /// length and in range.
    pub fn new(origin: Position, direction: Position) -> (r: Ray)
        requires
            is_unit(direction),
            bounded(origin, ORIGIN_CAP as int),
        ensures
            r == (Ray { origin, direction }),
            ray_wf(r),
    {
        Ray { origin, direction }
    }

    /// Validated construction: rejects a direction that is not unit length
    /// within tolerance, or an origin out of range.
    pub fn try_new(origin: Position, direction: Position) -> (r: Result<Ray, RenderError>)
        requires
            bounded(direction, VEC_CAP as int),
        ensures
            r is Ok <==> (is_unit(direction) && bounded(origin, ORIGIN_CAP as int)),
            r is Ok ==> r->Ok_0 == (Ray { origin, direction }),
            r is Err ==> r->Err_0 == RenderError::InvalidGeometry,
    {
        let dir_ok = direction.is_unit_len();
        let origin_ok = -ORIGIN_CAP <= origin.x && origin.x <= ORIGIN_CAP
            && -ORIGIN_CAP <= origin.y && origin.y <= ORIGIN_CAP
            && -ORIGIN_CAP <= origin.z && origin.z <= ORIGIN_CAP;
        if dir_ok && origin_ok {
            Ok(Ray { origin, direction })
        } else {
            Err(RenderError::InvalidGeometry)
        }
    }

    /// The point reached after parameter `t`.
    pub fn at(self, t: i128) -> (r: Position)
        requires
            ray_wf(self),
            -(T_CAP as int) <= t <= T_CAP as int,
        ensures
            r == spec_at(self, t as int),
    {
        proof {
            lemma_unit_comp_bound(self.direction);
            lemma_mul_s_bound(self.direction.x as int, t as int, DIR_CAP as int, T_CAP as int);
            lemma_mul_s_bound(self.direction.y as int, t as int, DIR_CAP as int, T_CAP as int);
            lemma_mul_s_bound(self.direction.z as int, t as int, DIR_CAP as int, T_CAP as int);
        }
        let step = self.direction.scaled_by(t);
        self.origin.plus(step)
    }

    pub fn origin(self) -> (r: Position)
        ensures
            r == self.origin,
    {
        self.origin
    }

    pub fn direction(self) -> (r: Position)
        ensures
            r == self.direction,
    {
        self.direction
    }
}

/// At parameter zero a ray sits at its origin.
pub proof fn lemma_ray_at_zero(r: Ray)
    ensures
        spec_at(r, 0) == r.origin,
{
    assert(r.direction.x as int * 0 == 0);
    assert(r.direction.y as int * 0 == 0);
    assert(r.direction.z as int * 0 == 0);
    vstd::arithmetic::div_mod::lemma_div_of0(SCALE as int);
    assert(mul_s(r.direction.x as int, 0) == 0);
    assert(mul_s(r.direction.y as int, 0) == 0);
    assert(mul_s(r.direction.z as int, 0) == 0);
}

} // verus!
