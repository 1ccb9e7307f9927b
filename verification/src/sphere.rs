//! Sphere primitives, their quadratic intersection solve, and the composite
//! nearest-hit scan over an ordered scene.

use vstd::prelude::*;
use crate::fixed::{SCALE, PROD_CAP, SQRT_OUT_CAP, tdiv, mul_s, div_s, sqrt_s, sqrt_floor};
use crate::fixed::{mul_scaled, div_scaled, sqrt_scaled};
use crate::fixed::{lemma_mul_bound, lemma_mul_s_bound, lemma_tdiv_bounds, lemma_tdiv_mono};
use crate::position::{
    Position, bounded, spec_minus, spec_div_by, spec_neg, spec_dot, spec_len2,
    lemma_unit_comp_bound, lemma_dot_bound_caps, lemma_len2_parts, UNIT_LO, UNIT_HI, DIR_CAP,
};
use crate::ray::{Ray, ray_wf, spec_at};
use crate::interval::{Interval, spec_surrounds};
use crate::hittable::{FaceSide, HitRecord, Hittable};
use vstd::arithmetic::div_mod::lemma_div_is_ordered_by_denominator;
use vstd::arithmetic::div_mod::lemma_div_nonincreasing;

verus! {

/// Largest component magnitude for scene geometry (centers and radii).
pub const POS_CAP: i128 = 1_000_000_000_000;

/// Largest magnitude an intersection parameter can reach for well-formed
/// scenes and rays.
pub const ROOT_CAP: i128 = 2_000_000_000_000_000_000;

/// An immutable sphere, wired to a material by an index into a scene-owned
/// material table.
#[derive(Clone, Copy, PartialEq, Eq, Structural, Debug, Hash)]
pub struct Sphere {
    pub center: Position,
    pub radius: i128,
    pub material: usize,
}

/// Geometry bounds that keep every intersection quantity in machine range.
pub open spec fn sphere_wf(s: Sphere) -> bool {
    &&& bounded(s.center, POS_CAP as int)
    &&& 1 <= s.radius <= POS_CAP
}

/// Offset from the ray origin to the sphere center.
pub open spec fn oc_of(s: Sphere, r: Ray) -> Position {
    spec_minus(s.center, r.origin)
}

/// Quadratic coefficient `a`: the squared length of the direction.
pub open spec fn a_of(r: Ray) -> int {
    spec_len2(r.direction)
}

/// Half the linear coefficient: `direction . (center - origin)`.
pub open spec fn h_of(s: Sphere, r: Ray) -> int {
    spec_dot(r.direction, oc_of(s, r))
}

/// Constant coefficient: `|center - origin|^2 - radius^2`.
pub open spec fn c_of(s: Sphere, r: Ray) -> int {
    spec_len2(oc_of(s, r)) - mul_s(s.radius as int, s.radius as int)
}

/// Discriminant `h^2 - a c` of the intersection quadratic.
pub open spec fn disc_of(s: Sphere, r: Ray) -> int {
    mul_s(h_of(s, r), h_of(s, r)) - mul_s(a_of(r), c_of(s, r))
}

/// Square root of the discriminant.
pub open spec fn d_of(s: Sphere, r: Ray) -> int {
    sqrt_s(disc_of(s, r))
}

/// The smaller intersection parameter `(h - d) / a`.
pub open spec fn root1_of(s: Sphere, r: Ray) -> int {
    div_s(h_of(s, r) - d_of(s, r), a_of(r))
}

/// The larger intersection parameter `(h + d) / a`.
pub open spec fn root2_of(s: Sphere, r: Ray) -> int {
    div_s(h_of(s, r) + d_of(s, r), a_of(r))
}

/// Outward unit normal at the intersection point: `(P - C) / radius`.
pub open spec fn outward_normal_of(s: Sphere, r: Ray, root: int) -> Position {
    spec_div_by(spec_minus(spec_at(r, root), s.center), s.radius as int)
}

/// The record for an accepted root: the stored normal is flipped, if needed,
/// to point against the incoming ray.
pub open spec fn record_of(s: Sphere, r: Ray, root: int) -> HitRecord {
    let p = spec_at(r, root);
    let on = outward_normal_of(s, r, root);
    if spec_dot(on, r.direction) < 0 {
        HitRecord {
            incidence_point: p,
            normal_vector: on,
            t: root as i128,
            face: FaceSide::Outward,
            material: s.material,
        }
    } else {
        HitRecord {
            incidence_point: p,
            normal_vector: spec_neg(on),
            t: root as i128,
            face: FaceSide::Inward,
            material: s.material,
        }
    }
}

/// The full intersection function: no real root, or the smaller root if it
/// lies strictly inside the range, else the larger root, else nothing.
pub open spec fn sphere_hit(s: Sphere, r: Ray, range: Interval) -> Option<HitRecord> {
    if disc_of(s, r) < 0 {
        None
    } else if spec_surrounds(range, root1_of(s, r)) {
        Some(record_of(s, r, root1_of(s, r)))
    } else if spec_surrounds(range, root2_of(s, r)) {
        Some(record_of(s, r, root2_of(s, r)))
    } else {
        None
    }
}

/// Machine-range bounds for every quantity of the quadratic solve.
pub proof fn lemma_sphere_quantities(s: Sphere, r: Ray)
    requires
        sphere_wf(s),
        ray_wf(r),
    ensures
        bounded(oc_of(s, r), 200_000_000_000_000),
        bounded(r.direction, DIR_CAP as int),
        UNIT_LO as int <= a_of(r) <= UNIT_HI as int,
        -1_200_000_000_000_000 <= h_of(s, r) <= 1_200_000_000_000_000,
        -130_000_000_000_000_000_000_000 <= c_of(s, r) <= 130_000_000_000_000_000_000_000,
        -1_600_000_000_000_000_000_000_000 <= disc_of(s, r)
            <= 1_600_000_000_000_000_000_000_000,
        disc_of(s, r) >= 0 ==> 0 <= d_of(s, r) <= SQRT_OUT_CAP as int,
        disc_of(s, r) >= 0 ==> -(ROOT_CAP as int) <= root1_of(s, r) <= ROOT_CAP as int,
        disc_of(s, r) >= 0 ==> -(ROOT_CAP as int) <= root2_of(s, r) <= ROOT_CAP as int,
        disc_of(s, r) >= 0 ==> root1_of(s, r) <= root2_of(s, r),
{
    let oc = oc_of(s, r);
    lemma_unit_comp_bound(r.direction);
    assert(bounded(oc, 200_000_000_000_000));
    lemma_dot_bound_caps(r.direction, oc, DIR_CAP as int, 200_000_000_000_000);
    lemma_dot_bound_caps(oc, oc, 200_000_000_000_000, 200_000_000_000_000);
    lemma_len2_parts(oc);
    lemma_mul_s_bound(s.radius as int, s.radius as int, POS_CAP as int, POS_CAP as int);
    let h = h_of(s, r);
    let a = a_of(r);
    let c = c_of(s, r);
    lemma_mul_s_bound(h, h, 1_200_000_000_000_000, 1_200_000_000_000_000);
    lemma_mul_s_bound(a, c, UNIT_HI as int, 130_000_000_000_000_000_000_000);
    let disc = disc_of(s, r);
    if disc >= 0 {
        // The square root of a nonnegative capped value stays within its cap.
        let n = (disc * (SCALE as int)) as nat;
        assert(disc * (SCALE as int) >= 0 && disc * (SCALE as int)
            <= 1_600_000_000_000_000_000_000_000_000_000int) by (nonlinear_arith)
            requires 0 <= disc <= 1_600_000_000_000_000_000_000_000 && SCALE == 1_000_000i128;
        crate::fixed::lemma_sqrt_floor_char(n);
        let dd = sqrt_floor(n);
        assert(dd <= SQRT_OUT_CAP) by (nonlinear_arith)
            requires
                dd * dd <= n,
                n <= 1_600_000_000_000_000_000_000_000_000_000int,
                SQRT_OUT_CAP == 1_000_000_000_000_000_000u128;
        // Both roots divide a capped numerator by `a`, which is at least UNIT_LO.
        let num1 = (h - d_of(s, r)) * (SCALE as int);
        let num2 = (h + d_of(s, r)) * (SCALE as int);
        let numcap = 1_001_200_000_000_000_000_000_000int;
        assert(-numcap <= num1 <= numcap);
        assert(-numcap <= num2 <= numcap);
        lemma_tdiv_bounds(num1, a, numcap);
        lemma_tdiv_bounds(num2, a, numcap);
        lemma_div_is_ordered_by_denominator(numcap, UNIT_LO as int, a);
        assert(numcap / (UNIT_LO as int) <= ROOT_CAP as int);
        // The smaller root never exceeds the larger.
        assert(num1 <= num2);
        lemma_tdiv_mono(num1, num2, a);
    }
}

/// Every reported hit parameter lies strictly inside the queried range.
pub proof fn lemma_sphere_hit_t(s: Sphere, r: Ray, range: Interval)
    requires
        sphere_wf(s),
        ray_wf(r),
    ensures
        sphere_hit(s, r, range) is Some ==> range.start
            < (sphere_hit(s, r, range)->Some_0).t < range.end,
        sphere_hit(s, r, range) is Some ==> -(ROOT_CAP as int)
            <= (sphere_hit(s, r, range)->Some_0).t <= ROOT_CAP as int,
{
    lemma_sphere_quantities(s, r);
}

/// Narrowing the upper bound of the range keeps exactly the hits strictly
/// below the new bound.
pub proof fn lemma_sphere_hit_narrow(s: Sphere, r: Ray, rg1: Interval, rg2: Interval)
    requires
        sphere_wf(s),
        ray_wf(r),
        rg1.start == rg2.start,
        rg2.end <= rg1.end,
    ensures
        ({
            let h1 = sphere_hit(s, r, rg1);
            sphere_hit(s, r, rg2) == (if h1 is Some && (h1->Some_0).t < rg2.end {
                h1
            } else {
                None::<HitRecord>
            })
        }),
{
    lemma_sphere_quantities(s, r);
}

impl Sphere {
    /// Builds a sphere from its center and radius, wired to the first
    /// material slot.
    pub fn new(center: Position, radius: i128) -> (s: Sphere)
        requires
            bounded(center, POS_CAP as int),
            1 <= radius <= POS_CAP,
        ensures
            s == (Sphere { center, radius, material: 0 }),
            sphere_wf(s),
    {
        Sphere { center, radius, material: 0 }
    }

    /// The same sphere wired to another material slot.
    pub fn with_material(self, material: usize) -> (s: Sphere)
        ensures
            s == (Sphere { material, ..self }),
    {
        Sphere { material, ..self }
    }

    /// Builds the record for an accepted root.
    fn make_record(&self, r: Ray, root: i128) -> (rec: HitRecord)
        requires
            sphere_wf(*self),
            ray_wf(r),
            -(ROOT_CAP as int) <= root <= ROOT_CAP as int,
        ensures
            rec == record_of(*self, r, root as int),
    {
        proof {
            lemma_unit_comp_bound(r.direction);
            lemma_mul_s_bound(r.direction.x as int, root as int, DIR_CAP as int, ROOT_CAP as int);
            lemma_mul_s_bound(r.direction.y as int, root as int, DIR_CAP as int, ROOT_CAP as int);
            lemma_mul_s_bound(r.direction.z as int, root as int, DIR_CAP as int, ROOT_CAP as int);
        }
        let p = r.at(root);
        let pm = p.minus(self.center);
        proof {
            lemma_tdiv_bounds(pm.x * (SCALE as int), self.radius as int,
                5_000_000_000_000_000_000_000_000int);
            lemma_tdiv_bounds(pm.y * (SCALE as int), self.radius as int,
                5_000_000_000_000_000_000_000_000int);
            lemma_tdiv_bounds(pm.z * (SCALE as int), self.radius as int,
                5_000_000_000_000_000_000_000_000int);
            lemma_div_nonincreasing(5_000_000_000_000_000_000_000_000int, self.radius as int);
        }
        let out_n = pm.div_by(self.radius);
        proof {
            lemma_mul_bound(out_n.x as int, r.direction.x as int,
                5_000_000_000_000_000_000_000_000int, DIR_CAP as int);
            lemma_mul_bound(out_n.y as int, r.direction.y as int,
                5_000_000_000_000_000_000_000_000int, DIR_CAP as int);
            lemma_mul_bound(out_n.z as int, r.direction.z as int,
                5_000_000_000_000_000_000_000_000int, DIR_CAP as int);
        }
        let d = out_n.dot(r.direction());
        if d < 0 {
            HitRecord {
                incidence_point: p,
                normal_vector: out_n,
                t: root,
                face: FaceSide::Outward,
                material: self.material,
            }
        } else {
            HitRecord {
                incidence_point: p,
                normal_vector: out_n.negated(),
                t: root,
                face: FaceSide::Inward,
                material: self.material,
            }
        }
    }
}

impl Hittable for Sphere {
    open spec fn spec_hit_of(&self, r: Ray, range: Interval) -> Option<HitRecord> {
        sphere_hit(*self, r, range)
    }

    open spec fn hittable_wf(&self) -> bool {
        sphere_wf(*self)
    }

    /// Solves the intersection quadratic and accepts the nearest root
    /// strictly inside the valid range.
    fn hit(&self, r: Ray, valid_t_range: Interval) -> (res: Option<HitRecord>) {
        proof {
            lemma_sphere_quantities(*self, r);
            lemma_unit_comp_bound(r.direction);
        }
        let oc = self.center.minus(r.origin());
        let a = r.direction().length_squared();
        proof {
            lemma_dot_bound_caps(r.direction, oc, DIR_CAP as int, 200_000_000_000_000int);
        }
        let h = r.direction().dot(oc);
        proof {
            lemma_mul_bound(self.radius as int, self.radius as int, POS_CAP as int,
                POS_CAP as int);
            lemma_mul_s_bound(self.radius as int, self.radius as int, POS_CAP as int,
                POS_CAP as int);
        }
        let rr = mul_scaled(self.radius, self.radius);
        let c = oc.length_squared() - rr;
        proof {
            lemma_mul_bound(h as int, h as int, 1_200_000_000_000_000int,
                1_200_000_000_000_000int);
            lemma_mul_bound(a as int, c as int, UNIT_HI as int,
                130_000_000_000_000_000_000_000int);
        }
        let hh = mul_scaled(h, h);
        let ac = mul_scaled(a, c);
        let disc = hh - ac;
        if disc < 0 {
            return None;
        }
        let dd = sqrt_scaled(disc);
        let root1 = div_scaled(h - dd, a);
        let root2 = div_scaled(h + dd, a);
        if valid_t_range.surrounds(root1) {
            Some(self.make_record(r, root1))
        } else if valid_t_range.surrounds(root2) {
            Some(self.make_record(r, root2))
        } else {
            None
        }
    }
}

/// The running narrowed range: the upper bound shrinks to the best
/// intersection parameter found so far.
pub open spec fn narrowed_of(range: Interval, best: Option<HitRecord>) -> Interval {
    match best {
        None => range,
        Some(b) => Interval {
            start: range.start,
            end: if b.t <= range.end {
                b.t
            } else {
                range.end
            },
        },
    }
}

/// The upper bound the scan currently applies.
pub open spec fn end_of(range: Interval, best: Option<HitRecord>) -> int {
    narrowed_of(range, best).end as int
}

/// All members of a scene are well-formed.
pub open spec fn scene_wf(s: Seq<Sphere>) -> bool {
    forall|i: int| 0 <= i < s.len() ==> sphere_wf(#[trigger] s[i])
}

/// The nearest-hit scan: each member is queried with the range narrowed to
/// the best parameter so far, and any reported hit replaces the best.
pub open spec fn scan_hit(
    s: Seq<Sphere>,
    r: Ray,
    range: Interval,
    best: Option<HitRecord>,
) -> Option<HitRecord>
    decreases s.len(),
{
    if s.len() == 0 {
        best
    } else {
        let h0 = sphere_hit(s[0], r, narrowed_of(range, best));
        let step = if h0 is Some {
            h0
        } else {
            best
        };
        scan_hit(s.drop_first(), r, range, step)
    }
}

/// What the scan guarantees: its result is a member hit (or the inherited
/// best), lies strictly inside the range, and no member hit against the
/// full range beats it.
#[verifier::rlimit(60)]
pub proof fn lemma_scan_char(s: Seq<Sphere>, r: Ray, range: Interval, best: Option<HitRecord>)
    requires
        scene_wf(s),
        ray_wf(r),
        best is Some ==> range.start < (best->Some_0).t < range.end,
    ensures
        ({
            let res = scan_hit(s, r, range, best);
            &&& (res is Some ==> range.start < (res->Some_0).t < range.end)
            &&& end_of(range, res) <= end_of(range, best)
            &&& (res == best || exists|k: int|
                0 <= k < s.len() && res == #[trigger] sphere_hit(s[k], r, range))
            &&& forall|k: int|
                0 <= k < s.len() && #[trigger] sphere_hit(s[k], r, range) is Some ==> end_of(
                    range,
                    res,
                ) <= (sphere_hit(s[k], r, range)->Some_0).t
        }),
    decreases s.len(),
{
    let res = scan_hit(s, r, range, best);
    if s.len() == 0 {
    } else {
        let nr = narrowed_of(range, best);
        lemma_sphere_hit_narrow(s[0], r, range, nr);
        lemma_sphere_hit_t(s[0], r, range);
        let orig0 = sphere_hit(s[0], r, range);
        let h0 = sphere_hit(s[0], r, nr);
        let step = if h0 is Some {
            h0
        } else {
            best
        };
        let rest = s.drop_first();
        assert(forall|k: int| 0 <= k < rest.len() ==> #[trigger] rest[k] == s[k + 1]);
        lemma_scan_char(rest, r, range, step);
        assert(res == scan_hit(rest, r, range, step));
        // No member hit against the full range beats the result.
        assert forall|k: int|
            0 <= k < s.len() && #[trigger] sphere_hit(s[k], r, range) is Some implies end_of(
            range,
            res,
        ) <= (sphere_hit(s[k], r, range)->Some_0).t by {
            if k == 0 {
                let t0 = (orig0->Some_0).t as int;
                if h0 is Some {
                    assert(end_of(range, step) <= t0);
                } else {
                    assert(t0 >= nr.end as int);
                }
            } else {
                assert(rest[k - 1] == s[k]);
                assert(sphere_hit(rest[k - 1], r, range) is Some);
            }
        }
        // Provenance of the result.
        if res != best {
            if res == step {
                assert(h0 is Some);
                assert(res == orig0);
                assert(0 <= 0 < s.len() && res == sphere_hit(s[0], r, range));
            } else {
                let k0 = choose|k: int|
                    0 <= k < rest.len() && res == #[trigger] sphere_hit(rest[k], r, range);
                assert(rest[k0] == s[k0 + 1]);
                assert(res == sphere_hit(s[k0 + 1], r, range));
            }
        }
    }
}

/// The composite scan returns the nearest member hit: nothing exactly when
/// no member intersects, and otherwise some member's intersection whose
/// parameter no other member's intersection undercuts.
pub proof fn lemma_scene_hit_nearest(s: Seq<Sphere>, r: Ray, range: Interval)
    requires
        scene_wf(s),
        ray_wf(r),
    ensures
        ({
            let res = scan_hit(s, r, range, None);
            &&& (res is None ==> forall|k: int|
                0 <= k < s.len() ==> #[trigger] sphere_hit(s[k], r, range) is None)
            &&& (res is Some ==> exists|k: int|
                0 <= k < s.len() && res == #[trigger] sphere_hit(s[k], r, range))
            &&& (res is Some ==> forall|k: int|
                0 <= k < s.len() && #[trigger] sphere_hit(s[k], r, range) is Some ==> (
                res->Some_0).t <= (sphere_hit(s[k], r, range)->Some_0).t)
        }),
{
    lemma_scan_char(s, r, range, None);
    let res = scan_hit(s, r, range, None);
    if res is None {
        assert forall|k: int| 0 <= k < s.len() implies #[trigger] sphere_hit(s[k], r, range)
            is None by {
            lemma_sphere_hit_t(s[k], r, range);
            if sphere_hit(s[k], r, range) is Some {
                assert(end_of(range, res) <= (sphere_hit(s[k], r, range)->Some_0).t);
            }
        }
    }
}

/// Nearest-hit selection is invariant under permutation of the member list:
/// scenes holding the same spheres in any order agree on whether a ray hits
/// and on the nearest intersection parameter.
pub proof fn lemma_nearest_hit_permutation(s1: Seq<Sphere>, s2: Seq<Sphere>, r: Ray, range: Interval)
    requires
        scene_wf(s1),
        ray_wf(r),
        s1.to_multiset() == s2.to_multiset(),
    ensures
        ({
            let h1 = scan_hit(s1, r, range, None);
            let h2 = scan_hit(s2, r, range, None);
            &&& (h1 is Some <==> h2 is Some)
            &&& (h1 is Some ==> (h1->Some_0).t == (h2->Some_0).t)
        }),
{
    s1.to_multiset_ensures();
    s2.to_multiset_ensures();
    assert forall|i: int| 0 <= i < s2.len() implies sphere_wf(#[trigger] s2[i]) by {
        assert(s2.contains(s2[i]));
        assert(s2.to_multiset().count(s2[i]) > 0);
        assert(s1.contains(s2[i]));
        let j = choose|j: int| 0 <= j < s1.len() && s1[j] == s2[i];
        assert(sphere_wf(s1[j]));
    }
    lemma_scan_char(s1, r, range, None);
    lemma_scan_char(s2, r, range, None);
    let h1 = scan_hit(s1, r, range, None);
    let h2 = scan_hit(s2, r, range, None);
    if h1 is Some {
        lemma_other_scan_at_most(s1, s2, r, range);
    }
    if h2 is Some {
        lemma_other_scan_at_most(s2, s1, r, range);
    }
}

/// If one ordering reports a hit, the other ordering reports one with a
/// parameter at most as large.
proof fn lemma_other_scan_at_most(sa: Seq<Sphere>, sb: Seq<Sphere>, r: Ray, range: Interval)
    requires
        scene_wf(sa),
        scene_wf(sb),
        ray_wf(r),
        sa.to_multiset() == sb.to_multiset(),
        scan_hit(sa, r, range, None) is Some,
    ensures
        scan_hit(sb, r, range, None) is Some,
        (scan_hit(sb, r, range, None)->Some_0).t <= (scan_hit(sa, r, range, None)->Some_0).t,
{
    sa.to_multiset_ensures();
    sb.to_multiset_ensures();
    lemma_scan_char(sa, r, range, None);
    lemma_scan_char(sb, r, range, None);
    let ha = scan_hit(sa, r, range, None);
    let hb = scan_hit(sb, r, range, None);
    assert(ha != None::<HitRecord>);
    let ka = choose|k: int|
        0 <= k < sa.len() && ha == #[trigger] sphere_hit(sa[k], r, range);
    assert(sa.contains(sa[ka]));
    assert(sa.to_multiset().count(sa[ka]) > 0);
    assert(sb.contains(sa[ka]));
    let j = choose|j: int| 0 <= j < sb.len() && sb[j] == sa[ka];
    assert(sphere_hit(sb[j], r, range) is Some);
    assert(end_of(range, hb) <= (ha->Some_0).t);
    if hb is None {
        assert(end_of(range, hb) == range.end as int);
        assert((ha->Some_0).t < range.end);
    }
}

impl Hittable for Vec<Sphere> {
    open spec fn spec_hit_of(&self, r: Ray, range: Interval) -> Option<HitRecord> {
        scan_hit(self@, r, range, None)
    }

    open spec fn hittable_wf(&self) -> bool {
        scene_wf(self@)
    }

    /// Scans the members, narrowing the valid range to the best parameter
    /// found so far; the final record holds the globally minimal parameter.
    fn hit(&self, r: Ray, valid_t_range: Interval) -> (res: Option<HitRecord>) {
        let mut best: Option<HitRecord> = None;
        let mut narrowed = valid_t_range;
        let mut i: usize = 0;
        proof {
            assert(self@.skip(0) =~= self@);
        }
        while i < self.len()
            invariant
                0 <= i <= self.len(),
                scene_wf(self@),
                ray_wf(r),
                best is Some ==> valid_t_range.start < (best->Some_0).t < valid_t_range.end,
                narrowed == narrowed_of(valid_t_range, best),
                scan_hit(self@, r, valid_t_range, None) == scan_hit(
                    self@.skip(i as int),
                    r,
                    valid_t_range,
                    best,
                ),
            decreases self.len() - i,
        {
            let obj = self[i];
            proof {
                assert(self@.skip(i as int).len() > 0);
                assert(self@.skip(i as int)[0] == self@[i as int]);
                assert(self@.skip(i as int).drop_first() =~= self@.skip(i as int + 1));
                lemma_sphere_hit_t(self@[i as int], r, narrowed);
            }
            let h = obj.hit(r, narrowed);
            if let Some(rec) = h {
                best = Some(rec);
                narrowed = Interval {
                    start: narrowed.start,
                    end: if rec.t <= narrowed.end {
                        rec.t
                    } else {
                        narrowed.end
                    },
                };
            }
            i = i + 1;
        }
        proof {
            assert(self@.skip(self@.len() as int).len() == 0);
        }
        best
    }
}

} // verus!
