//! Triangles, intersected by the determinant method over exact integer
//! arithmetic: barycentric coordinates are quotients of integer triple
//! products, and the spec transcribes the computation.
use vstd::prelude::*;
use crate::aabb::Aabb;
use crate::fixed::{FP, div_floor_i128, lemma_mul_abs_bound, lemma_div_abs_bound};
use crate::hit::{HitRecord, checked_point, ray_wf, oriented_normal, hit_point_ok};
use crate::interval::Interval;
use crate::quad::{cross_spec, sdiv, sdiv_i128, unit_of_wide, clamp_vec};
use crate::ray::{Ray, ray_at_x, ray_at_y, ray_at_z};
use crate::vec3::{Point3, Vec3, bounded, dot_raw, OBJ_MAX, RAY_MAX};

verus! {

#[derive(Clone, Copy, Debug, PartialEq, Eq, Structural)]
pub struct Triangle {
    pub a: Point3,
    pub b: Point3,
    pub c: Point3,
    pub mat: usize,
    pub bbox: Aabb,
    /// The unit normal of the triangle plane, clamped into twice the unit
    /// range.
    pub normal: Vec3,
}

pub open spec fn tri_wf(tr: Triangle) -> bool {
    &&& bounded(tr.a, OBJ_MAX as int)
    &&& bounded(tr.b, OBJ_MAX as int)
    &&& bounded(tr.c, OBJ_MAX as int)
    &&& bounded(tr.normal, 2 * FP as int)
    &&& crate::aabb::box_bounded(tr.bbox, RAY_MAX as int)
}

/// The record a triangle intersection query returns: the determinant method
/// in exact integers, rejecting rays parallel to the plane, barycentric
/// coordinates outside the simplex, and nonpositive parameters; the guard
/// keeps any reported point inside the triangle's box strictly in range.
pub open spec fn tri_hit_spec(tr: Triangle, r: Ray, tmin: int, tmax: int) -> Option<HitRecord> {
    let e1 = Vec3 { x: (tr.b.x - tr.a.x) as i64, y: (tr.b.y - tr.a.y) as i64, z: (tr.b.z - tr.a.z) as i64 };
    let e2 = Vec3 { x: (tr.c.x - tr.a.x) as i64, y: (tr.c.y - tr.a.y) as i64, z: (tr.c.z - tr.a.z) as i64 };
    let rxe2 = cross_spec(r.direction(), e2);
    let det = dot_raw(e1, rxe2);
    if det == 0 {
        None
    } else {
        let s = Vec3 {
            x: (r.origin().x - tr.a.x) as i64,
            y: (r.origin().y - tr.a.y) as i64,
            z: (r.origin().z - tr.a.z) as i64,
        };
        let u = sdiv(dot_raw(s, rxe2) * (FP as int), det);
        if u < 0 || u > FP {
            None
        } else {
            let sxe1 = cross_spec(s, e1);
            let v = sdiv(dot_raw(r.direction(), sxe1) * (FP as int), det);
            if v < 0 || u + v > FP {
                None
            } else {
                let t = sdiv(dot_raw(e2, sxe1) * (FP as int), det);
                if t <= 0 {
                    None
                } else if !hit_point_ok(tr.bbox, r, t, tmin, tmax) {
                    None
                } else {
                    let p = Vec3 {
                        x: ray_at_x(r, t) as i64,
                        y: ray_at_y(r, t) as i64,
                        z: ray_at_z(r, t) as i64,
                    };
                    Some(
                        HitRecord {
                            p,
                            normal: oriented_normal(r, tr.normal),
                            mat: tr.mat,
                            t: t as i64,
                            u: u as i64,
                            v: v as i64,
                            front_face: dot_raw(r.direction(), tr.normal) < 0,
                        },
                    )
                }
            }
        }
    }
}

impl Triangle {
    pub fn new(a: Point3, b: Point3, c: Point3, mat: usize) -> (tr: Triangle)
        requires
            bounded(a, OBJ_MAX as int),
            bounded(b, OBJ_MAX as int),
            bounded(c, OBJ_MAX as int),
        ensures
            tri_wf(tr),
            tr.a == a,
            tr.b == b,
            tr.c == c,
            tr.mat == mat,
    {
        let x_min = imin(imin(a.x, b.x), c.x);
        let x_max = imax(imax(a.x, b.x), c.x);
        let y_min = imin(imin(a.y, b.y), c.y);
        let y_max = imax(imax(a.y, b.y), c.y);
        let z_min = imin(imin(a.z, b.z), c.z);
        let z_max = imax(imax(a.z, b.z), c.z);
        let bbox = Aabb::new(
            Interval::new(x_min, x_max),
            Interval::new(y_min, y_max),
            Interval::new(z_min, z_max),
        );
        let e1 = b.sub(&a);
        let e2 = c.sub(&a);
        proof {
            lemma_edge_cross_bound(e1, e2);
        }
        let n = Vec3::cross(&e1, &e2);
        let normal = match unit_of_wide(&n) {
            Some(un) => clamp_to_two(&un),
            None => Vec3::new(0, FP, 0),
        };
        Triangle { a, b, c, mat, bbox, normal }
    }

    /// The triangle's intersection test; returns exactly what tri_hit_spec
    /// describes.
    pub fn hit(&self, r: &Ray, ray_t: &Interval) -> (res: Option<HitRecord>)
        requires
            tri_wf(*self),
            ray_wf(*r),
        ensures
            res == tri_hit_spec(*self, *r, ray_t.min as int, ray_t.max as int),
    {
        let e1 = self.b.sub(&self.a);
        let e2 = self.c.sub(&self.a);
        let d = r.direction();
        let o = r.origin();
        proof {
            lemma_tri_products(d, e1, e2, o, self.a);
        }
        let rxe2 = Vec3::cross(&d, &e2);
        let s = o.sub(&self.a);
        proof {
            lemma_tri_dots(e1, s, d, e2, rxe2, cross_spec(s, e1));
        }
        let det: i128 = (e1.x as i128) * (rxe2.x as i128) + (e1.y as i128) * (rxe2.y as i128) + (
        e1.z as i128) * (rxe2.z as i128);
        if det == 0 {
            return None;
        }
        let unum: i128 = (s.x as i128) * (rxe2.x as i128) + (s.y as i128) * (rxe2.y as i128) + (s.z
            as i128) * (rxe2.z as i128);
        proof {
            lemma_mul_abs_bound(unum as int, FP as int, 0x3000_0000_0000_0000_0000, 0x1_0000);
        }
        let u: i128 = sdiv_i128(unum * (FP as i128), det);
        if u < 0 || u > FP as i128 {
            return None;
        }
        let sxe1 = Vec3::cross(&s, &e1);
        let vnum: i128 = (d.x as i128) * (sxe1.x as i128) + (d.y as i128) * (sxe1.y as i128) + (d.z
            as i128) * (sxe1.z as i128);
        proof {
            lemma_mul_abs_bound(vnum as int, FP as int, 0x3000_0000_0000_0000_0000, 0x1_0000);
        }
        let v: i128 = sdiv_i128(vnum * (FP as i128), det);
        proof {
            crate::quad::lemma_sdiv_abs(
                vnum as int * (FP as int),
                det as int,
                0x3000_0000_0000_0000_0000_0000,
            );
        }
        if v < 0 || u + v > FP as i128 {
            return None;
        }
        let tnum: i128 = (e2.x as i128) * (sxe1.x as i128) + (e2.y as i128) * (sxe1.y as i128) + (
        e2.z as i128) * (sxe1.z as i128);
        proof {
            lemma_mul_abs_bound(tnum as int, FP as int, 0x3000_0000_0000_0000_0000, 0x1_0000);
        }
        let t: i128 = sdiv_i128(tnum * (FP as i128), det);
        if t <= 0 {
            return None;
        }
        match checked_point(&self.bbox, r, t, ray_t) {
            None => None,
            Some((t64, p)) => {
                let mut rec = HitRecord::new();
                rec.p = p;
                rec.t = t64;
                rec.u = u as i64;
                rec.v = v as i64;
                rec.mat = self.mat;
                rec.set_face_normal(r, self.normal);
                Some(rec)
            },
        }
    }

    pub fn bounding_box(&self) -> (bx: Aabb)
        ensures
            bx == self.bbox,
    {
        self.bbox
    }
}

/// The smaller of two values.
fn imin(a: i64, b: i64) -> (r: i64)
    ensures
        r == if a <= b { a as int } else { b as int },
{
    if a <= b {
        a
    } else {
        b
    }
}

/// The larger of two values.
fn imax(a: i64, b: i64) -> (r: i64)
    ensures
        r == if a >= b { a as int } else { b as int },
{
    if a >= b {
        a
    } else {
        b
    }
}

/// Clamp every component into twice the unit range.
fn clamp_to_two(v: &Vec3) -> (r: Vec3)
    ensures
        r == clamp_vec(*v, 2 * FP as int),
        bounded(r, 2 * FP as int),
{
    let bound: i64 = 2 * FP;
    Vec3 {
        x: if v.x > bound {
            bound
        } else if v.x < -bound {
            -bound
        } else {
            v.x
        },
        y: if v.y > bound {
            bound
        } else if v.y < -bound {
            -bound
        } else {
            v.y
        },
        z: if v.z > bound {
            bound
        } else if v.z < -bound {
            -bound
        } else {
            v.z
        },
    }
}

/// Edges of OBJ_MAX-bounded vertices have cross products within 2^44 ulps.
proof fn lemma_edge_cross_bound(e1: Vec3, e2: Vec3)
    requires
        bounded(e1, 0x4000_0000),
        bounded(e2, 0x4000_0000),
    ensures
        -0x2000_0000_0000 <= (e1.y * e2.z - e1.z * e2.y) / (FP as int) <= 0x2000_0000_0000,
        -0x2000_0000_0000 <= (e1.z * e2.x - e1.x * e2.z) / (FP as int) <= 0x2000_0000_0000,
        -0x2000_0000_0000 <= (e1.x * e2.y - e1.y * e2.x) / (FP as int) <= 0x2000_0000_0000,
        bounded(cross_spec(e1, e2), 0x2000_0000_0000),
{
    lemma_mul_abs_bound(e1.y as int, e2.z as int, 0x4000_0000, 0x4000_0000);
    lemma_mul_abs_bound(e1.z as int, e2.y as int, 0x4000_0000, 0x4000_0000);
    lemma_mul_abs_bound(e1.z as int, e2.x as int, 0x4000_0000, 0x4000_0000);
    lemma_mul_abs_bound(e1.x as int, e2.z as int, 0x4000_0000, 0x4000_0000);
    lemma_mul_abs_bound(e1.x as int, e2.y as int, 0x4000_0000, 0x4000_0000);
    lemma_mul_abs_bound(e1.y as int, e2.x as int, 0x4000_0000, 0x4000_0000);
    assert(0x2000_0000_0000 * (FP as int) == 0x2000_0000_0000_0000) by (nonlinear_arith)
        requires
            FP as int == 0x1_0000,
    ;
    crate::fixed::lemma_div_quot_bound(e1.y * e2.z - e1.z * e2.y, FP as int, 0x2000_0000_0000);
    crate::fixed::lemma_div_quot_bound(e1.z * e2.x - e1.x * e2.z, FP as int, 0x2000_0000_0000);
    crate::fixed::lemma_div_quot_bound(e1.x * e2.y - e1.y * e2.x, FP as int, 0x2000_0000_0000);
}

/// Bounds of the two cross products used by the intersection test.
proof fn lemma_tri_products(d: Vec3, e1: Vec3, e2: Vec3, o: Vec3, a: Vec3)
    requires
        bounded(d, RAY_MAX as int),
        bounded(e1, 0x4000_0000),
        bounded(e2, 0x4000_0000),
        bounded(o, RAY_MAX as int),
        bounded(a, OBJ_MAX as int),
    ensures
        bounded(cross_spec(d, e2), 0x2000_0000_0000),
        bounded(cross_spec(
            Vec3 { x: (o.x - a.x) as i64, y: (o.y - a.y) as i64, z: (o.z - a.z) as i64 },
            e1,
        ), 0x4000_0000_0000),
{
    let s = Vec3 { x: (o.x - a.x) as i64, y: (o.y - a.y) as i64, z: (o.z - a.z) as i64 };
    lemma_mul_abs_bound(d.y as int, e2.z as int, 0x4000_0000, 0x4000_0000);
    lemma_mul_abs_bound(d.z as int, e2.y as int, 0x4000_0000, 0x4000_0000);
    lemma_mul_abs_bound(d.z as int, e2.x as int, 0x4000_0000, 0x4000_0000);
    lemma_mul_abs_bound(d.x as int, e2.z as int, 0x4000_0000, 0x4000_0000);
    lemma_mul_abs_bound(d.x as int, e2.y as int, 0x4000_0000, 0x4000_0000);
    lemma_mul_abs_bound(d.y as int, e2.x as int, 0x4000_0000, 0x4000_0000);
    lemma_mul_abs_bound(s.y as int, e1.z as int, 0x8000_0000, 0x4000_0000);
    lemma_mul_abs_bound(s.z as int, e1.y as int, 0x8000_0000, 0x4000_0000);
    lemma_mul_abs_bound(s.z as int, e1.x as int, 0x8000_0000, 0x4000_0000);
    lemma_mul_abs_bound(s.x as int, e1.z as int, 0x8000_0000, 0x4000_0000);
    lemma_mul_abs_bound(s.x as int, e1.y as int, 0x8000_0000, 0x4000_0000);
    lemma_mul_abs_bound(s.y as int, e1.x as int, 0x8000_0000, 0x4000_0000);
    assert(0x2000_0000_0000 * (FP as int) == 0x2000_0000_0000_0000) by (nonlinear_arith)
        requires
            FP as int == 0x1_0000,
    ;
    assert(0x4000_0000_0000 * (FP as int) == 0x4000_0000_0000_0000) by (nonlinear_arith)
        requires
            FP as int == 0x1_0000,
    ;
    crate::fixed::lemma_div_quot_bound(d.y * e2.z - d.z * e2.y, FP as int, 0x2000_0000_0000);
    crate::fixed::lemma_div_quot_bound(d.z * e2.x - d.x * e2.z, FP as int, 0x2000_0000_0000);
    crate::fixed::lemma_div_quot_bound(d.x * e2.y - d.y * e2.x, FP as int, 0x2000_0000_0000);
    crate::fixed::lemma_div_quot_bound(s.y * e1.z - s.z * e1.y, FP as int, 0x4000_0000_0000);
    crate::fixed::lemma_div_quot_bound(s.z * e1.x - s.x * e1.z, FP as int, 0x4000_0000_0000);
    crate::fixed::lemma_div_quot_bound(s.x * e1.y - s.y * e1.x, FP as int, 0x4000_0000_0000);
}

/// Bounds of the dot products of the intersection test.
proof fn lemma_tri_dots(e1: Vec3, s: Vec3, d: Vec3, e2: Vec3, rxe2: Vec3, sxe1: Vec3)
    requires
        bounded(e1, 0x4000_0000),
        bounded(s, 0x8000_0000),
        bounded(d, RAY_MAX as int),
        bounded(e2, 0x4000_0000),
        bounded(rxe2, 0x2000_0000_0000),
        bounded(sxe1, 0x4000_0000_0000),
    ensures
        -0x1800_0000_0000_0000_0000int <= dot_raw(e1, rxe2) <= 0x1800_0000_0000_0000_0000int,
        -0x3000_0000_0000_0000_0000int <= dot_raw(s, rxe2) <= 0x3000_0000_0000_0000_0000int,
        -0x3000_0000_0000_0000_0000int <= dot_raw(d, sxe1) <= 0x3000_0000_0000_0000_0000int,
        -0x3000_0000_0000_0000_0000int <= dot_raw(e2, sxe1)
            <= 0x3000_0000_0000_0000_0000int,
        -0x800_0000_0000_0000_0000int <= e1.x * rxe2.x <= 0x800_0000_0000_0000_0000int,
        -0x800_0000_0000_0000_0000int <= e1.y * rxe2.y <= 0x800_0000_0000_0000_0000int,
        -0x800_0000_0000_0000_0000int <= e1.z * rxe2.z <= 0x800_0000_0000_0000_0000int,
        -0x1000_0000_0000_0000_0000int <= s.x * rxe2.x <= 0x1000_0000_0000_0000_0000int,
        -0x1000_0000_0000_0000_0000int <= s.y * rxe2.y <= 0x1000_0000_0000_0000_0000int,
        -0x1000_0000_0000_0000_0000int <= s.z * rxe2.z <= 0x1000_0000_0000_0000_0000int,
        -0x1000_0000_0000_0000_0000int <= d.x * sxe1.x <= 0x1000_0000_0000_0000_0000int,
        -0x1000_0000_0000_0000_0000int <= d.y * sxe1.y <= 0x1000_0000_0000_0000_0000int,
        -0x1000_0000_0000_0000_0000int <= d.z * sxe1.z <= 0x1000_0000_0000_0000_0000int,
        -0x1000_0000_0000_0000_0000int <= e2.x * sxe1.x <= 0x1000_0000_0000_0000_0000int,
        -0x1000_0000_0000_0000_0000int <= e2.y * sxe1.y <= 0x1000_0000_0000_0000_0000int,
        -0x1000_0000_0000_0000_0000int <= e2.z * sxe1.z <= 0x1000_0000_0000_0000_0000int,
{
    lemma_mul_abs_bound(e1.x as int, rxe2.x as int, 0x4000_0000, 0x2000_0000_0000);
    lemma_mul_abs_bound(e1.y as int, rxe2.y as int, 0x4000_0000, 0x2000_0000_0000);
    lemma_mul_abs_bound(e1.z as int, rxe2.z as int, 0x4000_0000, 0x2000_0000_0000);
    lemma_mul_abs_bound(s.x as int, rxe2.x as int, 0x8000_0000, 0x2000_0000_0000);
    lemma_mul_abs_bound(s.y as int, rxe2.y as int, 0x8000_0000, 0x2000_0000_0000);
    lemma_mul_abs_bound(s.z as int, rxe2.z as int, 0x8000_0000, 0x2000_0000_0000);
    lemma_mul_abs_bound(d.x as int, sxe1.x as int, 0x4000_0000, 0x4000_0000_0000);
    lemma_mul_abs_bound(d.y as int, sxe1.y as int, 0x4000_0000, 0x4000_0000_0000);
    lemma_mul_abs_bound(d.z as int, sxe1.z as int, 0x4000_0000, 0x4000_0000_0000);
    lemma_mul_abs_bound(e2.x as int, sxe1.x as int, 0x4000_0000, 0x4000_0000_0000);
    lemma_mul_abs_bound(e2.y as int, sxe1.y as int, 0x4000_0000, 0x4000_0000_0000);
    lemma_mul_abs_bound(e2.z as int, sxe1.z as int, 0x4000_0000, 0x4000_0000_0000);
}

} // verus!
