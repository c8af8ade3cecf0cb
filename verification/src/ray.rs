//! Rays: an origin, a direction and a time stamp for motion blur.
use vstd::prelude::*;
use crate::fixed::fmul;
use crate::vec3::{Point3, Vec3};

verus! {

#[derive(Clone, Copy, Debug, PartialEq, Eq, Structural)]
pub struct Ray {
    pub orig: Point3,
    pub dir: Vec3,
    pub time: i64,
}

/// The point a ray reaches at parameter t: origin + t * direction, computed
/// coordinatewise in fixed point.
pub open spec fn ray_at_x(r: Ray, t: int) -> int {
    r.origin().x + fmul(t, r.direction().x as int)
}

pub open spec fn ray_at_y(r: Ray, t: int) -> int {
    r.origin().y + fmul(t, r.direction().y as int)
}

pub open spec fn ray_at_z(r: Ray, t: int) -> int {
    r.origin().z + fmul(t, r.direction().z as int)
}

/// p is exactly the point the ray reaches at parameter t.
pub open spec fn is_ray_at(r: Ray, t: int, p: Vec3) -> bool {
    &&& p.x == ray_at_x(r, t)
    &&& p.y == ray_at_y(r, t)
    &&& p.z == ray_at_z(r, t)
}

impl Ray {
    pub fn new(origin: Point3, direction: Vec3, time: i64) -> (r: Ray)
        ensures
            r.origin() == origin,
            r.direction() == direction,
            r.time() == time,
    {
        Ray { orig: origin, dir: direction, time }
    }

    pub open spec fn spec_origin(&self) -> Point3 {
        self.orig
    }

    #[verifier::when_used_as_spec(spec_origin)]
    pub fn origin(&self) -> (r: Point3)
        ensures
            r == self.origin(),
    {
        self.orig
    }

    pub open spec fn spec_direction(&self) -> Vec3 {
        self.dir
    }

    #[verifier::when_used_as_spec(spec_direction)]
    pub fn direction(&self) -> (r: Vec3)
        ensures
            r == self.direction(),
    {
        self.dir
    }

    pub open spec fn spec_time(&self) -> i64 {
        self.time
    }

    #[verifier::when_used_as_spec(spec_time)]
    pub fn time(&self) -> (r: i64)
        ensures
            r == self.time(),
    {
        self.time
    }

    /// The point reached at parameter t.
    pub fn at(&self, t: i64) -> (p: Point3)
        requires
            i64::MIN <= ray_at_x(*self, t as int) <= i64::MAX,
            i64::MIN <= ray_at_y(*self, t as int) <= i64::MAX,
            i64::MIN <= ray_at_z(*self, t as int) <= i64::MAX,
            i64::MIN <= fmul(t as int, self.direction().x as int) <= i64::MAX,
            i64::MIN <= fmul(t as int, self.direction().y as int) <= i64::MAX,
            i64::MIN <= fmul(t as int, self.direction().z as int) <= i64::MAX,
        ensures
            is_ray_at(*self, t as int, p),
    {
        let step = self.dir.scale_by(t);
        self.orig.add(&step)
    }
}

impl Vec3 {
    /// Multiply a direction by a fixed-point parameter given on the left,
    /// as t * v rather than v * t (fmul's arguments are ordered).
    pub fn scale_by(&self, t: i64) -> (r: Vec3)
        requires
            i64::MIN <= fmul(t as int, self.x as int) <= i64::MAX,
            i64::MIN <= fmul(t as int, self.y as int) <= i64::MAX,
            i64::MIN <= fmul(t as int, self.z as int) <= i64::MAX,
        ensures
            r.x == fmul(t as int, self.x as int),
            r.y == fmul(t as int, self.y as int),
            r.z == fmul(t as int, self.z as int),
    {
        Vec3 {
            x: crate::fixed::fp_mul(t, self.x),
            y: crate::fixed::fp_mul(t, self.y),
            z: crate::fixed::fp_mul(t, self.z),
        }
    }
}

} // verus!
