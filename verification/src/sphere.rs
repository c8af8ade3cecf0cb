//! Spheres, static or moving linearly between two centers over the shutter
//! interval.  The intersection test solves the quadratic in raw (unscaled)
//! integer arithmetic, takes the integer square root of the discriminant, and
//! prefers the smaller root; its spec transcribes that computation exactly.
use vstd::prelude::*;
use crate::aabb::Aabb;
use crate::fixed::{FP, fmul, fdiv, isqrt_spec, isqrt, div_floor_i128, lemma_mul_abs_bound, lemma_div_abs_bound, lemma_div_quot_bound};
use crate::hit::{HitRecord, hit_point_ok, checked_point, ray_wf, oriented_normal};
use crate::interval::Interval;
use crate::mathfn::{PI_FP, TWO_PI_FP, acos_search, acos_fp};
use crate::ray::{Ray, ray_at_x, ray_at_y, ray_at_z};
use crate::vec3::{Point3, Vec3, bounded, dot_raw, OBJ_MAX, RAY_MAX};

verus! {

#[derive(Clone, Copy, Debug, PartialEq, Eq, Structural)]
pub struct Sphere {
    /// The center's position over time: origin at time 0, moving along the
    /// direction so that at time 1 it sits at origin + direction.
    pub center: Ray,
    pub radius: i64,
    pub mat: usize,
    pub bbox: Aabb,
}

/// Well-formedness: geometry within the supported world, a bounded box.
pub open spec fn sphere_wf(s: Sphere) -> bool {
    &&& bounded(s.center.origin(), OBJ_MAX as int)
    &&& -(OBJ_MAX as int) <= s.center.origin().x + s.center.direction().x <= OBJ_MAX as int
    &&& -(OBJ_MAX as int) <= s.center.origin().y + s.center.direction().y <= OBJ_MAX as int
    &&& -(OBJ_MAX as int) <= s.center.origin().z + s.center.direction().z <= OBJ_MAX as int
    &&& 0 <= s.radius <= OBJ_MAX
    &&& crate::aabb::box_bounded(s.bbox, RAY_MAX as int)
}

/// The center at a moment of the shutter interval, componentwise.
pub open spec fn center_at_x(s: Sphere, time: int) -> int {
    s.center.origin().x + fmul(time, s.center.direction().x as int)
}

pub open spec fn center_at_y(s: Sphere, time: int) -> int {
    s.center.origin().y + fmul(time, s.center.direction().y as int)
}

pub open spec fn center_at_z(s: Sphere, time: int) -> int {
    s.center.origin().z + fmul(time, s.center.direction().z as int)
}

/// Texture coordinates of a point on the unit sphere, from spherical
/// coordinates computed with the library's arccos; inputs are clamped
/// into [-1, 1] first.
pub open spec fn sphere_uv_spec(p: Vec3) -> (int, int) {
    let cy = clamp_unit(-p.y);
    let theta = acos_search(0, PI_FP as int, cy);
    let a = clamp_unit(p.x as int);
    let b = clamp_unit(-p.z);
    let q = (a * a + b * b) / (FP as int);
    let s = isqrt_spec(q * (FP as int));
    let phi = if s == 0 {
        PI_FP as int
    } else {
        let c = clamp_unit(fdiv(a, s));
        let th0 = acos_search(0, PI_FP as int, c);
        if b >= 0 {
            PI_FP + th0
        } else {
            PI_FP - th0
        }
    };
    (fdiv(phi, TWO_PI_FP as int), fdiv(theta, PI_FP as int))
}

/// Clamp a value into the fixed-point unit range [-1, 1].
pub open spec fn clamp_unit(v: int) -> int {
    if v > FP {
        FP as int
    } else if v < -FP {
        -FP as int
    } else {
        v
    }
}

/// The record a sphere intersection query returns: the exact fixed-point
/// transcription of the half-b quadratic solution, guarded so that any
/// reported point lies inside the sphere's box and strictly inside the range.
pub open spec fn sphere_hit_spec(s: Sphere, r: Ray, tmin: int, tmax: int) -> Option<HitRecord> {
    let cx = center_at_x(s, r.time() as int);
    let cy = center_at_y(s, r.time() as int);
    let cz = center_at_z(s, r.time() as int);
    let dx = r.direction().x as int;
    let dy = r.direction().y as int;
    let dz = r.direction().z as int;
    let ocx = cx - r.origin().x;
    let ocy = cy - r.origin().y;
    let ocz = cz - r.origin().z;
    let a = dx * dx + dy * dy + dz * dz;
    let h = dx * ocx + dy * ocy + dz * ocz;
    let c = ocx * ocx + ocy * ocy + ocz * ocz - s.radius * s.radius;
    let disc = h * h - a * c;
    if s.radius <= 0 || a <= 0 || disc < 0 {
        None
    } else {
        let sq = isqrt_spec(disc);
        let t1 = ((h - sq) * (FP as int)) / a;
        let t2 = ((h + sq) * (FP as int)) / a;
        let tsel = if tmin < t1 < tmax {
            t1
        } else {
            t2
        };
        if !hit_point_ok(s.bbox, r, tsel, tmin, tmax) {
            None
        } else {
            let p = Vec3 {
                x: ray_at_x(r, tsel) as i64,
                y: ray_at_y(r, tsel) as i64,
                z: ray_at_z(r, tsel) as i64,
            };
            let outward = Vec3 {
                x: fdiv(p.x - cx, s.radius as int) as i64,
                y: fdiv(p.y - cy, s.radius as int) as i64,
                z: fdiv(p.z - cz, s.radius as int) as i64,
            };
            let uv = sphere_uv_spec(outward);
            Some(
                HitRecord {
                    p,
                    normal: oriented_normal(r, outward),
                    mat: s.mat,
                    t: tsel as i64,
                    u: uv.0 as i64,
                    v: uv.1 as i64,
                    front_face: dot_raw(r.direction(), outward) < 0,
                },
            )
        }
    }
}

/// The padded box spanning center - radius to center + radius on each axis.
pub open spec fn sphere_box_spec(center: Point3, radius: int) -> Aabb {
    (Aabb {
        x: crate::aabb::span(center.x - radius, center.x + radius),
        y: crate::aabb::span(center.y - radius, center.y + radius),
        z: crate::aabb::span(center.z - radius, center.z + radius),
    }).padded()
}

/// A negative radius clamps to zero, as a degenerate point sphere.
pub open spec fn clamped_radius(radius: int) -> int {
    if radius < 0 {
        0
    } else {
        radius
    }
}

impl Sphere {
    /// A static sphere; a negative radius clamps to zero.
    pub fn new(center: Point3, radius: i64, mat: usize) -> (s: Sphere)
        requires
            bounded(center, OBJ_MAX as int),
            -(OBJ_MAX as int) <= radius <= OBJ_MAX,
        ensures
            sphere_wf(s),
            s.center.origin() == center,
            s.center.direction() == (Vec3 { x: 0i64, y: 0i64, z: 0i64 }),
            s.center.time() == 0,
            s.radius == clamped_radius(radius as int),
            s.mat == mat,
            s.bbox == sphere_box_spec(center, s.radius as int),
    {
        let radius: i64 = if radius < 0 {
            0
        } else {
            radius
        };
        let rvec = Vec3::new(radius, radius, radius);
        let bbox = Aabb::new_point(center.sub(&rvec), center.add(&rvec));
        Sphere {
            center: Ray::new(center, Vec3::zero(), 0),
            radius,
            mat,
            bbox,
        }
    }

    /// A sphere moving from one center at time 0 to another at time 1; its
    /// box encloses the padded boxes around both endpoints.
    pub fn new_to(center: Point3, center_to: Point3, radius: i64, mat: usize) -> (s: Sphere)
        requires
            bounded(center, OBJ_MAX as int),
            bounded(center_to, OBJ_MAX as int),
            -(OBJ_MAX as int) <= radius <= OBJ_MAX,
        ensures
            sphere_wf(s),
            s.center.origin() == center,
            s.center.direction().x == center_to.x - center.x,
            s.center.direction().y == center_to.y - center.y,
            s.center.direction().z == center_to.z - center.z,
            s.center.time() == 0,
            s.radius == clamped_radius(radius as int),
            s.mat == mat,
            s.bbox == crate::aabb::merge_box(
                sphere_box_spec(center, s.radius as int),
                sphere_box_spec(center_to, s.radius as int),
            ),
    {
        let radius: i64 = if radius < 0 {
            0
        } else {
            radius
        };
        let rvec = Vec3::new(radius, radius, radius);
        let bbox1 = Aabb::new_point(center.sub(&rvec), center.add(&rvec));
        let bbox2 = Aabb::new_point(center_to.sub(&rvec), center_to.add(&rvec));
        Sphere {
            center: Ray::new(center, center_to.sub(&center), 0),
            radius,
            mat,
            bbox: Aabb::new_boxes(&bbox1, &bbox2),
        }
    }

    /// Texture coordinates of a point on the unit sphere.
    pub fn get_sphere_uv(p: &Point3) -> (uv: (i64, i64))
        ensures
            (uv.0 as int, uv.1 as int) == sphere_uv_spec(*p),
            0 <= uv.0 <= FP,
            0 <= uv.1 <= FP,
    {
        let cy = clamp_unit_exec(i64_neg_sat(p.y));
        let theta = acos_fp(cy);
        let a = clamp_unit_exec(p.x);
        let b = clamp_unit_exec(i64_neg_sat(p.z));
        proof {
            lemma_mul_abs_bound(a as int, a as int, 0x1_0000, 0x1_0000);
            lemma_mul_abs_bound(b as int, b as int, 0x1_0000, 0x1_0000);
            assert(a as int * a as int >= 0) by (nonlinear_arith);
            assert(b as int * b as int >= 0) by (nonlinear_arith);
            lemma_div_abs_bound(
                a as int * a as int + b as int * b as int,
                FP as int,
                0x2_0000_0000,
            );
            vstd::arithmetic::div_mod::lemma_div_pos_is_pos(
                a as int * a as int + b as int * b as int,
                FP as int,
            );
        }
        let q: i64 = ((a as i128 * a as i128 + b as i128 * b as i128) / (FP as i128)) as i64;
        let sr: i64 = crate::fixed::fp_sqrt(q);
        let phi: i64 = if sr == 0 {
            PI_FP
        } else {
            proof {
                crate::vec3::lemma_fdiv_bound(a as int, sr as int);
            }
            let cval = clamp_unit_exec(crate::fixed::fp_div(a, sr));
            let c = cval;
            let th0 = acos_fp(c);
            if b >= 0 {
                PI_FP + th0
            } else {
                PI_FP - th0
            }
        };
        proof {
            assert(-(0x1_0000 * (TWO_PI_FP as int)) <= phi as int * (FP as int) <= 0x1_0000 * (
            TWO_PI_FP as int)) by (nonlinear_arith)
                requires
                    0 <= phi as int <= TWO_PI_FP as int,
                    FP as int == 0x1_0000,
            ;
            crate::fixed::lemma_div_quot_bound(phi as int * (FP as int), TWO_PI_FP as int, 0x1_0000);
            vstd::arithmetic::div_mod::lemma_div_pos_is_pos(phi as int * (FP as int), TWO_PI_FP as int);
            assert(phi as int * (FP as int) >= 0) by (nonlinear_arith)
                requires
                    phi as int >= 0,
                    FP as int > 0,
            ;
            assert(-(0x1_0000 * (PI_FP as int)) <= theta as int * (FP as int) <= 0x1_0000 * (
            PI_FP as int)) by (nonlinear_arith)
                requires
                    0 <= theta as int <= PI_FP as int,
                    FP as int == 0x1_0000,
            ;
            crate::fixed::lemma_div_quot_bound(theta as int * (FP as int), PI_FP as int, 0x1_0000);
            vstd::arithmetic::div_mod::lemma_div_pos_is_pos(theta as int * (FP as int), PI_FP as int);
            assert(theta as int * (FP as int) >= 0) by (nonlinear_arith)
                requires
                    theta as int >= 0,
                    FP as int > 0,
            ;
        }
        let u = crate::fixed::fp_div(phi, TWO_PI_FP);
        let v = crate::fixed::fp_div(theta, PI_FP);
        (u, v)
    }

    /// The sphere's intersection test; returns exactly what sphere_hit_spec
    /// describes.
    pub fn hit(&self, r: &Ray, ray_t: &Interval) -> (res: Option<HitRecord>)
        requires
            sphere_wf(*self),
            ray_wf(*r),
        ensures
            res == sphere_hit_spec(*self, *r, ray_t.min as int, ray_t.max as int),
    {
        proof {
            crate::fixed::lemma_fmul_unit_interp(r.time() as int, self.center.direction().x as int);
            crate::fixed::lemma_fmul_unit_interp(r.time() as int, self.center.direction().y as int);
            crate::fixed::lemma_fmul_unit_interp(r.time() as int, self.center.direction().z as int);
        }
        let cx: i64 = self.center.orig.x + crate::fixed::fp_mul(r.time(), self.center.dir.x);
        let cy: i64 = self.center.orig.y + crate::fixed::fp_mul(r.time(), self.center.dir.y);
        let cz: i64 = self.center.orig.z + crate::fixed::fp_mul(r.time(), self.center.dir.z);
        let o = r.origin();
        let d = r.direction();
        let ocx: i128 = cx as i128 - o.x as i128;
        let ocy: i128 = cy as i128 - o.y as i128;
        let ocz: i128 = cz as i128 - o.z as i128;
        let dx: i128 = d.x as i128;
        let dy: i128 = d.y as i128;
        let dz: i128 = d.z as i128;
        proof {
            lemma_sphere_products(
                dx as int,
                dy as int,
                dz as int,
                ocx as int,
                ocy as int,
                ocz as int,
                self.radius as int,
            );
        }
        let a: i128 = dx * dx + dy * dy + dz * dz;
        let h: i128 = dx * ocx + dy * ocy + dz * ocz;
        let c: i128 = ocx * ocx + ocy * ocy + ocz * ocz - (self.radius as i128) * (self.radius
            as i128);
        let disc: i128 = h * h - a * c;
        if self.radius <= 0 || a <= 0 || disc < 0 {
            return None;
        }
        let squ: u128 = isqrt(disc as u128);
        proof {
            lemma_isqrt_small(disc as int);
        }
        let sq: i128 = squ as i128;
        proof {
            lemma_mul_abs_bound(h as int - sq as int, FP as int, 0x2_0000_0000_0000_0000, 0x1_0000);
            lemma_mul_abs_bound(h as int + sq as int, FP as int, 0x2_0000_0000_0000_0000, 0x1_0000);
        }
        let t1: i128 = div_floor_i128((h - sq) * (FP as i128), a);
        let t2: i128 = div_floor_i128((h + sq) * (FP as i128), a);
        proof {
            lemma_div_abs_bound((h as int - sq as int) * FP as int, a as int, 0x2_0000_0000_0000_0000_0000int);
            lemma_div_abs_bound((h as int + sq as int) * FP as int, a as int, 0x2_0000_0000_0000_0000_0000int);
        }
        let tsel: i128 = if (ray_t.min as i128) < t1 && t1 < (ray_t.max as i128) {
            t1
        } else {
            t2
        };
        match checked_point(&self.bbox, r, tsel, ray_t) {
            None => None,
            Some((t64, p)) => {
                proof {
                    crate::fixed::lemma_fdiv_in(p.x - cx, self.radius as int, 0x1_8000_0000);
                    crate::fixed::lemma_fdiv_in(p.y - cy, self.radius as int, 0x1_8000_0000);
                    crate::fixed::lemma_fdiv_in(p.z - cz, self.radius as int, 0x1_8000_0000);
                }
                let outward = Vec3::new(
                    crate::fixed::fp_div(p.x - cx, self.radius),
                    crate::fixed::fp_div(p.y - cy, self.radius),
                    crate::fixed::fp_div(p.z - cz, self.radius),
                );
                let uv = Sphere::get_sphere_uv(&outward);
                let mut rec = HitRecord::new();
                rec.p = p;
                rec.t = t64;
                rec.u = uv.0;
                rec.v = uv.1;
                rec.mat = self.mat;
                rec.set_face_normal(r, outward);
                Some(rec)
            },
        }
    }

    pub fn bounding_box(&self) -> (b: Aabb)
        ensures
            b == self.bbox,
    {
        self.bbox
    }
}

/// Clamp into the fixed-point unit range, executable form.
fn clamp_unit_exec(v: i64) -> (r: i64)
    ensures
        r == clamp_unit(v as int),
        -FP <= r <= FP,
{
    if v > FP {
        FP
    } else if v < -FP {
        -FP
    } else {
        v
    }
}

/// Negate with saturation at the i64 boundary (the minimum value cannot be
/// negated in place; it clamps to the maximum).
fn i64_neg_sat(v: i64) -> (r: i64)
    ensures
        v > i64::MIN ==> r == -(v as int),
        v == i64::MIN ==> r == i64::MAX,
{
    if v == i64::MIN {
        i64::MAX
    } else {
        -v
    }
}

/// Magnitude bounds for the quadratic's coefficients under the world bounds.
proof fn lemma_sphere_products(dx: int, dy: int, dz: int, ocx: int, ocy: int, ocz: int, rad: int)
    requires
        -0x4000_0000 <= dx <= 0x4000_0000,
        -0x4000_0000 <= dy <= 0x4000_0000,
        -0x4000_0000 <= dz <= 0x4000_0000,
        -0x6000_0000 <= ocx <= 0x6000_0000,
        -0x6000_0000 <= ocy <= 0x6000_0000,
        -0x6000_0000 <= ocz <= 0x6000_0000,
        0 <= rad <= 0x2000_0000,
    ensures
        -0x1000_0000_0000_0000int <= dx * dx <= 0x1000_0000_0000_0000int,
        -0x1000_0000_0000_0000int <= dy * dy <= 0x1000_0000_0000_0000int,
        -0x1000_0000_0000_0000int <= dz * dz <= 0x1000_0000_0000_0000int,
        -0x1800_0000_0000_0000int <= dx * ocx <= 0x1800_0000_0000_0000int,
        -0x1800_0000_0000_0000int <= dy * ocy <= 0x1800_0000_0000_0000int,
        -0x1800_0000_0000_0000int <= dz * ocz <= 0x1800_0000_0000_0000int,
        -0x2400_0000_0000_0000int <= ocx * ocx <= 0x2400_0000_0000_0000int,
        -0x2400_0000_0000_0000int <= ocy * ocy <= 0x2400_0000_0000_0000int,
        -0x2400_0000_0000_0000int <= ocz * ocz <= 0x2400_0000_0000_0000int,
        -0x0400_0000_0000_0000int <= rad * rad <= 0x0400_0000_0000_0000int,
        -0x2100_0000_0000_0000_0000_0000_0000_0000int <= (dx * ocx + dy * ocy + dz * ocz) * (dx
            * ocx + dy * ocy + dz * ocz) <= 0x2100_0000_0000_0000_0000_0000_0000_0000int,
        -0x1500_0000_0000_0000_0000_0000_0000_0000int <= (dx * dx + dy * dy + dz * dz) * (ocx
            * ocx + ocy * ocy + ocz * ocz - rad * rad)
            <= 0x1500_0000_0000_0000_0000_0000_0000_0000int,
        -0x3000_0000_0000_0000int <= dx * dx + dy * dy + dz * dz <= 0x3000_0000_0000_0000int,
        -0x4800_0000_0000_0000int <= dx * ocx + dy * ocy + dz * ocz <= 0x4800_0000_0000_0000int,
        -0x7000_0000_0000_0000int <= ocx * ocx + ocy * ocy + ocz * ocz - rad * rad
            <= 0x7000_0000_0000_0000int,
        -0x3000_0000_0000_0000_0000_0000_0000_0000int <= (dx * ocx + dy * ocy + dz * ocz) * (dx
            * ocx + dy * ocy + dz * ocz) - (dx * dx + dy * dy + dz * dz) * (ocx * ocx + ocy * ocy
            + ocz * ocz - rad * rad) <= 0x3000_0000_0000_0000_0000_0000_0000_0000int,
{
    lemma_mul_abs_bound(dx, dx, 0x4000_0000, 0x4000_0000);
    lemma_mul_abs_bound(dy, dy, 0x4000_0000, 0x4000_0000);
    lemma_mul_abs_bound(dz, dz, 0x4000_0000, 0x4000_0000);
    lemma_mul_abs_bound(dx, ocx, 0x4000_0000, 0x6000_0000);
    lemma_mul_abs_bound(dy, ocy, 0x4000_0000, 0x6000_0000);
    lemma_mul_abs_bound(dz, ocz, 0x4000_0000, 0x6000_0000);
    lemma_mul_abs_bound(ocx, ocx, 0x6000_0000, 0x6000_0000);
    lemma_mul_abs_bound(ocy, ocy, 0x6000_0000, 0x6000_0000);
    lemma_mul_abs_bound(ocz, ocz, 0x6000_0000, 0x6000_0000);
    lemma_mul_abs_bound(rad, rad, 0x2000_0000, 0x2000_0000);
    let h = dx * ocx + dy * ocy + dz * ocz;
    let a = dx * dx + dy * dy + dz * dz;
    let c = ocx * ocx + ocy * ocy + ocz * ocz - rad * rad;
    lemma_mul_abs_bound(h, h, 0x4800_0000_0000_0000int, 0x4800_0000_0000_0000int);
    lemma_mul_abs_bound(a, c, 0x3000_0000_0000_0000int, 0x7000_0000_0000_0000int);
}

/// The square root of a bounded discriminant is small enough that
/// (h + sq) * FP stays well inside i128.
proof fn lemma_isqrt_small(disc: int)
    requires
        0 <= disc <= 0x3000_0000_0000_0000_0000_0000_0000_0000int,
    ensures
        0 <= isqrt_spec(disc) <= 0x8000_0000_0000_0000int,
{
    crate::fixed::lemma_isqrt_exists(disc);
    let r = isqrt_spec(disc);
    assert(crate::fixed::is_isqrt(disc, r));
    if r > 0x8000_0000_0000_0000int {
        assert(r * r > 0x4000_0000_0000_0000_0000_0000_0000_0000int) by (nonlinear_arith)
            requires
                r > 0x8000_0000_0000_0000int,
        ;
    }
}

} // verus!
