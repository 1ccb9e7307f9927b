//! The ray–geometry intersection capability and its result record.

use vstd::prelude::*;
use crate::interval::Interval;
use crate::position::Position;
use crate::ray::{Ray, ray_wf};

verus! {

/// Which side of a surface a ray struck.
#[derive(Clone, Copy, PartialEq, Eq, Structural, Debug, Hash)]
pub enum FaceSide {
    /// The ray originated inside the surface.
    Inward,
    /// The ray approached from outside.
    Outward,
}

/// The result of a successful intersection. The stored normal always points
/// against the incoming ray; `material` indexes a scene-owned material table.
#[derive(Clone, Copy, PartialEq, Eq, Structural, Debug, Hash)]
pub struct HitRecord {
    pub incidence_point: Position,
    pub normal_vector: Position,
    pub t: i128,
    pub face: FaceSide,
    pub material: usize,
}

/// Capability: ray–geometry intersection testing within a parameter range.
pub trait Hittable {
    /// The intersection this object reports, as a mathematical function of
    /// the ray and the valid parameter range.
    spec fn spec_hit_of(&self, r: Ray, range: Interval) -> Option<HitRecord>;

    /// When the object is well-formed enough to be hit-tested.
    spec fn hittable_wf(&self) -> bool;

    /// Returns the nearest valid intersection, or nothing.
    fn hit(&self, r: Ray, valid_t_range: Interval) -> (res: Option<HitRecord>)
        requires
            self.hittable_wf(),
            ray_wf(r),
        ensures
            res == self.spec_hit_of(r, valid_t_range),
    ;
}

} // verus!
