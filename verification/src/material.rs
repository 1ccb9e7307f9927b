//! The surface-response seam the shading loop consumes.
//!
//! The reference shading pipeline applies one fixed diffuse response with a
//! configurable reflectance rather than dispatching through this interface;
//! whether that is a deliberate simplification is left open, so the seam is
//! kept and one diffuse implementation is provided.

use vstd::prelude::*;
use crate::camera::Camera;
use crate::color::Color;
use crate::hittable::HitRecord;
use crate::position::{bounded, is_unit, spec_dot, lemma_unit_comp_bound, VEC_CAP};
use crate::ray::{Ray, ray_wf, ORIGIN_CAP};
use crate::rng::Sampler;

verus! {

/// A material decides whether an incident ray scatters, and into what.
pub trait Material {
    /// Optionally produces an attenuation color and a scattered ray; `None`
    /// signals absorption. Any scattered ray is well-formed, so the shading
    /// loop can follow it.
    fn scatter(&self, incident_ray: Ray, hit_record: &HitRecord, sampler: &mut Sampler) -> (res:
        Option<(Color, Ray)>)
        ensures
            res is Some ==> ray_wf((res->0).1),
    ;
}

/// Ideal diffuse response with a fixed attenuation color.
#[derive(Clone, Copy, PartialEq, Eq, Structural, Debug)]
pub struct Diffuse {
    pub albedo: Color,
}

impl Diffuse {
    /// The diffuse response in full: a scattered ray starts at the hit
    /// point, is unit length on the normal's visible side, and carries the
    /// albedo as attenuation; a degenerate normal or an out-of-range hit
    /// point absorbs the ray.
    pub fn scatter_diffuse(
        &self,
        incident_ray: Ray,
        hit_record: &HitRecord,
        sampler: &mut Sampler,
    ) -> (res: Option<(Color, Ray)>)
        ensures
            res is Some ==> ray_wf((res->0).1),
            res is Some ==> (res->0).0 == self.albedo,
            res is Some ==> (res->0).1.origin == hit_record.incidence_point,
            res is Some ==> spec_dot((res->0).1.direction, hit_record.normal_vector) > 0,
            !(bounded(hit_record.normal_vector, VEC_CAP as int) && is_unit(
                hit_record.normal_vector,
            )) ==> res is None,
            !bounded(hit_record.incidence_point, ORIGIN_CAP as int) ==> res is None,
    {
        let dir = Camera::reflect_ray_diffuse(incident_ray, hit_record.normal_vector, sampler);
        match dir {
            None => None,
            Some(d) => {
                proof {
                    lemma_unit_comp_bound(d);
                }
                match Ray::try_new(hit_record.incidence_point, d) {
                    Ok(r) => Some((self.albedo, r)),
                    Err(_) => None,
                }
            },
        }
    }
}

impl Material for Diffuse {
    /// Bounces the ray diffusely off the surface and attenuates it by the
    /// albedo; degenerate bounce geometry is treated as absorption.
    fn scatter(&self, incident_ray: Ray, hit_record: &HitRecord, sampler: &mut Sampler) -> (res:
        Option<(Color, Ray)>) {
        self.scatter_diffuse(incident_ray, hit_record, sampler)
    }
}

} // verus!
