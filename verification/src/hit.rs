//! Hit records: what an intersection query reports back to the integrator.
//! Materials live in a per-scene arena and are referenced by index.
use vstd::prelude::*;
use crate::aabb::Aabb;
use crate::fixed::FP;
use crate::interval::Interval;
use crate::ray::{Ray, ray_at_x, ray_at_y, ray_at_z};
use crate::vec3::{Point3, Vec3, dot_raw, bounded, RAY_MAX};

verus! {

/// The ray's origin, direction and time are within the supported coordinate
/// range; every intersection query assumes this.
pub open spec fn ray_wf(r: Ray) -> bool {
    &&& bounded(r.origin(), RAY_MAX as int)
    &&& bounded(r.direction(), RAY_MAX as int)
    &&& 0 <= r.time() <= FP
}

/// The candidate parameter t is strictly inside the query range and the ray's
/// point at t lies inside the reporting object's bounding box.  Every hit an
/// object reports satisfies this for its own box; it is what lets bounding
/// volume traversal prune safely.
pub open spec fn hit_point_ok(bbox: Aabb, r: Ray, t: int, tmin: int, tmax: int) -> bool {
    &&& tmin < t < tmax
    &&& bbox.x.min <= ray_at_x(r, t) <= bbox.x.max
    &&& bbox.y.min <= ray_at_y(r, t) <= bbox.y.max
    &&& bbox.z.min <= ray_at_z(r, t) <= bbox.z.max
}

/// Validate a candidate parameter: accept it only if it is strictly inside
/// the range and reaches a point inside the box, and hand back that point.
pub fn checked_point(bbox: &Aabb, r: &Ray, t: i128, ray_t: &Interval) -> (res: Option<(i64, Point3)>)
    requires
        ray_wf(*r),
    ensures
        match res {
            Some(tp) => {
                &&& hit_point_ok(*bbox, *r, t as int, ray_t.min as int, ray_t.max as int)
                &&& tp.0 == t
                &&& crate::ray::is_ray_at(*r, t as int, tp.1)
                &&& crate::aabb::box_contains(*bbox, tp.1)
            },
            None => !hit_point_ok(*bbox, *r, t as int, ray_t.min as int, ray_t.max as int),
        },
{
    if !((ray_t.min as i128) < t && t < (ray_t.max as i128)) {
        return None;
    }
    let d = r.direction();
    let o = r.origin();
    proof {
        crate::fixed::lemma_mul_abs_bound(
            t as int,
            d.x as int,
            0x8000_0000_0000_0000,
            0x4000_0000,
        );
        crate::fixed::lemma_mul_abs_bound(
            t as int,
            d.y as int,
            0x8000_0000_0000_0000,
            0x4000_0000,
        );
        crate::fixed::lemma_mul_abs_bound(
            t as int,
            d.z as int,
            0x8000_0000_0000_0000,
            0x4000_0000,
        );
        crate::fixed::lemma_div_abs_bound(
            t as int * d.x as int,
            FP as int,
            0x2000_0000_0000_0000_0000_0000,
        );
        crate::fixed::lemma_div_abs_bound(
            t as int * d.y as int,
            FP as int,
            0x2000_0000_0000_0000_0000_0000,
        );
        crate::fixed::lemma_div_abs_bound(
            t as int * d.z as int,
            FP as int,
            0x2000_0000_0000_0000_0000_0000,
        );
    }
    let px: i128 = (o.x as i128) + crate::fixed::div_floor_i128(t * (d.x as i128), FP as i128);
    let py: i128 = (o.y as i128) + crate::fixed::div_floor_i128(t * (d.y as i128), FP as i128);
    let pz: i128 = (o.z as i128) + crate::fixed::div_floor_i128(t * (d.z as i128), FP as i128);
    if !(bbox.x.min as i128 <= px && px <= bbox.x.max as i128) {
        return None;
    }
    if !(bbox.y.min as i128 <= py && py <= bbox.y.max as i128) {
        return None;
    }
    if !(bbox.z.min as i128 <= pz && pz <= bbox.z.max as i128) {
        return None;
    }
    Some((t as i64, Vec3 { x: px as i64, y: py as i64, z: pz as i64 }))
}

#[derive(Clone, Copy, Debug, PartialEq, Eq, Structural)]
pub struct HitRecord {
    pub p: Point3,
    pub normal: Vec3,
    pub mat: usize,
    pub t: i64,
    pub u: i64,
    pub v: i64,
    pub front_face: bool,
}

/// The normal and front_face a record carries after orienting an outward
/// normal against a ray: the normal always points against the ray.
pub open spec fn oriented_normal(r: Ray, outward: Vec3) -> Vec3 {
    if dot_raw(r.direction(), outward) < 0 {
        outward
    } else {
        Vec3 { x: (-outward.x) as i64, y: (-outward.y) as i64, z: (-outward.z) as i64 }
    }
}

impl HitRecord {
    pub fn new() -> (r: HitRecord)
        ensures
            r.p == (Vec3 { x: 0i64, y: 0i64, z: 0i64 }),
            r.normal == (Vec3 { x: 0i64, y: 0i64, z: 0i64 }),
            r.mat == 0,
            r.t == 0,
            r.u == 0,
            r.v == 0,
            r.front_face == false,
    {
        HitRecord {
            p: Vec3::zero(),
            normal: Vec3::zero(),
            mat: 0,
            t: 0,
            u: 0,
            v: 0,
            front_face: false,
        }
    }

    /// Record the face orientation: front_face says whether the outward
    /// normal already pointed against the ray, and the stored normal is
    /// flipped when it did not.
    pub fn set_face_normal(&mut self, r: &Ray, outward_normal: Vec3)
        requires
            outward_normal.x > i64::MIN,
            outward_normal.y > i64::MIN,
            outward_normal.z > i64::MIN,
            -0x2_0000_0000_0000 <= outward_normal.x <= 0x2_0000_0000_0000,
            -0x2_0000_0000_0000 <= outward_normal.y <= 0x2_0000_0000_0000,
            -0x2_0000_0000_0000 <= outward_normal.z <= 0x2_0000_0000_0000,
            bounded(r.direction(), crate::vec3::RAY_MAX as int),
        ensures
            final(self).front_face == (dot_raw(r.direction(), outward_normal) < 0),
            final(self).normal == oriented_normal(*r, outward_normal),
            final(self).p == old(self).p,
            final(self).mat == old(self).mat,
            final(self).t == old(self).t,
            final(self).u == old(self).u,
            final(self).v == old(self).v,
    {
        let d = r.direction();
        proof {
            crate::fixed::lemma_mul_abs_bound(
                d.x as int,
                outward_normal.x as int,
                0x4000_0000,
                0x2_0000_0000_0000,
            );
            crate::fixed::lemma_mul_abs_bound(
                d.y as int,
                outward_normal.y as int,
                0x4000_0000,
                0x2_0000_0000_0000,
            );
            crate::fixed::lemma_mul_abs_bound(
                d.z as int,
                outward_normal.z as int,
                0x4000_0000,
                0x2_0000_0000_0000,
            );
        }
        let dp: i128 = (d.x as i128) * (outward_normal.x as i128) + (d.y as i128)
            * (outward_normal.y as i128) + (d.z as i128) * (outward_normal.z as i128);
        let front_face = dp < 0;
        self.front_face = front_face;
        self.normal = if front_face {
            outward_normal
        } else {
            outward_normal.neg()
        };
    }
}

} // verus!
