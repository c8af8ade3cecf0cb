//! Planar parallelograms given by a corner and two edge vectors.  Planar
//! coordinates are recovered from exact integer cross and dot products, so
//! the hit test's spec is a literal transcription of the computation.
use vstd::prelude::*;
use crate::aabb::Aabb;
use crate::fixed::{FP, fdiv, div_floor_i128, lemma_mul_abs_bound, lemma_div_abs_bound};
use crate::hit::{HitRecord, checked_point, ray_wf, oriented_normal, hit_point_ok};
use crate::interval::Interval;
use crate::ray::{Ray, ray_at_x, ray_at_y, ray_at_z};
use crate::vec3::{Point3, Vec3, bounded, dot_raw, OBJ_MAX, RAY_MAX, DOT_MAX};

verus! {

/// The fixed-point cross product, as Vec3::cross computes it.
pub open spec fn cross_spec(u: Vec3, v: Vec3) -> Vec3 {
    Vec3 {
        x: ((u.y * v.z - u.z * v.y) / (FP as int)) as i64,
        y: ((u.z * v.x - u.x * v.z) / (FP as int)) as i64,
        z: ((u.x * v.y - u.y * v.x) / (FP as int)) as i64,
    }
}

/// Signed floor division routed through a positive divisor.
pub open spec fn sdiv(n: int, d: int) -> int {
    if d > 0 {
        n / d
    } else {
        (-n) / (-d)
    }
}

/// Executable form of sdiv over i128 values.
pub fn sdiv_i128(n: i128, d: i128) -> (q: i128)
    requires
        d != 0,
        -0x4000_0000_0000_0000_0000_0000_0000 <= n <= 0x4000_0000_0000_0000_0000_0000_0000,
        -0x4000_0000_0000_0000_0000_0000_0000 <= d <= 0x4000_0000_0000_0000_0000_0000_0000,
    ensures
        q == sdiv(n as int, d as int),
{
    if d > 0 {
        div_floor_i128(n, d)
    } else {
        div_floor_i128(-n, -d)
    }
}

/// The stored plane normal: the edges' cross product scaled to unit length
/// and clamped into twice the unit range, or the y axis when the cross
/// product's fixed-point norm vanishes.
pub open spec fn quad_normal_spec(n: Vec3) -> Vec3 {
    if crate::vec3::norm3(n) != 0 {
        clamp_vec(
            Vec3 {
                x: fdiv(n.x as int, crate::vec3::norm3(n)) as i64,
                y: fdiv(n.y as int, crate::vec3::norm3(n)) as i64,
                z: fdiv(n.z as int, crate::vec3::norm3(n)) as i64,
            },
            2 * FP as int,
        )
    } else {
        Vec3 { x: 0i64, y: FP as i64, z: 0i64 }
    }
}

#[derive(Clone, Copy, Debug, PartialEq, Eq, Structural)]
pub struct Quad {
    pub q: Point3,
    pub u: Vec3,
    pub v: Vec3,
    /// The plane normal as the fixed-point cross product of the edges.
    pub ncross: Vec3,
    pub mat: usize,
    pub bbox: Aabb,
    /// The unit plane normal, clamped into twice the unit range.
    pub normal: Vec3,
    /// The plane offset: the unit normal dotted with the corner.
    pub d: i64,
}

pub open spec fn quad_wf(qd: Quad) -> bool {
    &&& bounded(qd.q, OBJ_MAX as int)
    &&& bounded(qd.u, OBJ_MAX as int)
    &&& bounded(qd.v, OBJ_MAX as int)
    &&& qd.ncross == cross_spec(qd.u, qd.v)
    &&& bounded(qd.ncross, 0x1000_0000_0000)
    &&& dot_raw(qd.ncross, qd.ncross) >= 1
    &&& bounded(qd.normal, 2 * FP as int)
    &&& crate::aabb::box_bounded(qd.bbox, RAY_MAX as int)
}

/// The record a quad intersection query returns: plane intersection with
/// exact integer arithmetic, planar-coordinate rejection, and the guard that
/// the reported point lies inside the quad's box strictly within the range.
pub open spec fn quad_hit_spec(qd: Quad, r: Ray, tmin: int, tmax: int) -> Option<HitRecord> {
    let denom = dot_raw(qd.ncross, r.direction());
    if denom == 0 {
        None
    } else {
        let num = dot_raw(qd.ncross, qd.q) - dot_raw(qd.ncross, r.origin());
        let t = sdiv(num * (FP as int), denom);
        if !hit_point_ok(qd.bbox, r, t, tmin, tmax) {
            None
        } else {
            let p = Vec3 {
                x: ray_at_x(r, t) as i64,
                y: ray_at_y(r, t) as i64,
                z: ray_at_z(r, t) as i64,
            };
            let planar = Vec3 {
                x: (p.x - qd.q.x) as i64,
                y: (p.y - qd.q.y) as i64,
                z: (p.z - qd.q.z) as i64,
            };
            let nn = dot_raw(qd.ncross, qd.ncross);
            let alpha = (dot_raw(qd.ncross, cross_spec(planar, qd.v)) * (FP as int)) / nn;
            let beta = (dot_raw(qd.ncross, cross_spec(qd.u, planar)) * (FP as int)) / nn;
            if !(0 <= alpha <= FP && 0 <= beta <= FP) {
                None
            } else {
                Some(
                    HitRecord {
                        p,
                        normal: oriented_normal(r, qd.normal),
                        mat: qd.mat,
                        t: t as i64,
                        u: alpha as i64,
                        v: beta as i64,
                        front_face: dot_raw(r.direction(), qd.normal) < 0,
                    },
                )
            }
        }
    }
}

impl Quad {
    /// A parallelogram with corner q and edges u and v; the edges must not
    /// be parallel (their cross product must not vanish in fixed point).
    pub fn new(q: Point3, u: Vec3, v: Vec3, mat: usize) -> (qd: Quad)
        requires
            bounded(q, OBJ_MAX as int),
            bounded(u, OBJ_MAX as int),
            bounded(v, OBJ_MAX as int),
            -(OBJ_MAX as int) <= q.x + u.x + v.x <= OBJ_MAX as int,
            -(OBJ_MAX as int) <= q.y + u.y + v.y <= OBJ_MAX as int,
            -(OBJ_MAX as int) <= q.z + u.z + v.z <= OBJ_MAX as int,
            -(OBJ_MAX as int) <= q.x + u.x <= OBJ_MAX as int,
            -(OBJ_MAX as int) <= q.y + u.y <= OBJ_MAX as int,
            -(OBJ_MAX as int) <= q.z + u.z <= OBJ_MAX as int,
            -(OBJ_MAX as int) <= q.x + v.x <= OBJ_MAX as int,
            -(OBJ_MAX as int) <= q.y + v.y <= OBJ_MAX as int,
            -(OBJ_MAX as int) <= q.z + v.z <= OBJ_MAX as int,
            dot_raw(cross_spec(u, v), cross_spec(u, v)) >= 1,
        ensures
            quad_wf(qd),
            qd.q == q,
            qd.u == u,
            qd.v == v,
            qd.mat == mat,
            qd.ncross == cross_spec(u, v),
            qd.normal == quad_normal_spec(cross_spec(u, v)),
            qd.d == crate::vec3::dot3(qd.normal, q),
            crate::aabb::box_contains(qd.bbox, q),
            crate::aabb::box_contains(
                qd.bbox,
                Vec3 { x: (q.x + u.x) as i64, y: (q.y + u.y) as i64, z: (q.z + u.z) as i64 },
            ),
            crate::aabb::box_contains(
                qd.bbox,
                Vec3 { x: (q.x + v.x) as i64, y: (q.y + v.y) as i64, z: (q.z + v.z) as i64 },
            ),
            crate::aabb::box_contains(
                qd.bbox,
                Vec3 {
                    x: (q.x + u.x + v.x) as i64,
                    y: (q.y + u.y + v.y) as i64,
                    z: (q.z + u.z + v.z) as i64,
                },
            ),
    {
        let corner_u = q.add(&u);
        let corner_v = q.add(&v);
        let corner_uv = corner_u.add(&v);
        let bbox_diag1 = Aabb::new_point(q, corner_uv);
        let bbox_diag2 = Aabb::new_point(corner_u, corner_v);
        let bbox = Aabb::new_boxes(&bbox_diag1, &bbox_diag2);
        let n = Vec3::cross(&u, &v);
        proof {
            lemma_cross_bound(u, v);
            crate::vec3::lemma_dot_self_nonneg(n);
            lemma_dot_raw_to_fp(n);
        }
        let normal = match unit_of_wide(&n) {
            Some(un) => clamp_components(&un, 2 * FP),
            None => Vec3::new(0, FP, 0),
        };
        let d = Vec3::dot(&normal, &q);
        proof {
            crate::aabb::lemma_inside_contains(bbox_diag1, bbox, q);
            crate::aabb::lemma_inside_contains(bbox_diag1, bbox, corner_uv);
            crate::aabb::lemma_inside_contains(bbox_diag2, bbox, corner_u);
            crate::aabb::lemma_inside_contains(bbox_diag2, bbox, corner_v);
        }
        Quad { q, u, v, ncross: n, mat, bbox, normal, d }
    }

    /// Accept planar coordinates inside the unit square, recording them as
    /// the hit's texture coordinates.
    pub fn is_interior(a: i64, b: i64, rec: &mut HitRecord) -> (inside: bool)
        ensures
            inside == (0 <= a <= FP && 0 <= b <= FP),
            inside ==> *final(rec) == (HitRecord { u: a, v: b, ..*old(rec) }),
            !inside ==> *final(rec) == *old(rec),
    {
        if !(0 <= a && a <= FP && 0 <= b && b <= FP) {
            return false;
        }
        rec.u = a;
        rec.v = b;
        true
    }

    /// The quad's intersection test; returns exactly what quad_hit_spec
    /// describes.
    pub fn hit(&self, r: &Ray, ray_t: &Interval) -> (res: Option<HitRecord>)
        requires
            quad_wf(*self),
            ray_wf(*r),
        ensures
            res == quad_hit_spec(*self, *r, ray_t.min as int, ray_t.max as int),
    {
        let n = self.ncross;
        let d = r.direction();
        let o = r.origin();
        proof {
            lemma_quad_products(n, d, o, self.q);
        }
        let denom: i128 = (n.x as i128) * (d.x as i128) + (n.y as i128) * (d.y as i128) + (n.z
            as i128) * (d.z as i128);
        if denom == 0 {
            return None;
        }
        let nq: i128 = (n.x as i128) * (self.q.x as i128) + (n.y as i128) * (self.q.y as i128) + (
        n.z as i128) * (self.q.z as i128);
        let no: i128 = (n.x as i128) * (o.x as i128) + (n.y as i128) * (o.y as i128) + (n.z
            as i128) * (o.z as i128);
        proof {
            lemma_mul_abs_bound(
                nq as int - no as int,
                FP as int,
                0x6000_0000_0000_0000_0000,
                0x1_0000,
            );
        }
        let t: i128 = sdiv_i128((nq - no) * (FP as i128), denom);
        proof {
            lemma_sdiv_bound((nq as int - no as int) * (FP as int), denom as int);
        }
        match checked_point(&self.bbox, r, t, ray_t) {
            None => None,
            Some((t64, p)) => {
                let planar = p.sub(&self.q);
                proof {
                    lemma_planar_products(n, planar, self.u, self.v);
                }
                let pc = Vec3::cross(&planar, &self.v);
                let uc = Vec3::cross(&self.u, &planar);
                proof {
                    lemma_alpha_products(n, pc);
                    lemma_alpha_products(n, uc);
                }
                let nn: i128 = (n.x as i128) * (n.x as i128) + (n.y as i128) * (n.y as i128) + (n.z
                    as i128) * (n.z as i128);
                let anum: i128 = (n.x as i128) * (pc.x as i128) + (n.y as i128) * (pc.y as i128)
                    + (n.z as i128) * (pc.z as i128);
                let bnum: i128 = (n.x as i128) * (uc.x as i128) + (n.y as i128) * (uc.y as i128)
                    + (n.z as i128) * (uc.z as i128);
                proof {
                    lemma_mul_abs_bound(
                        anum as int,
                        FP as int,
                        0x6000_0000_0000_0000_0000_0000_0000,
                        0x1_0000,
                    );
                    lemma_mul_abs_bound(
                        bnum as int,
                        FP as int,
                        0x6000_0000_0000_0000_0000_0000_0000,
                        0x1_0000,
                    );
                }
                let alpha: i128 = div_floor_i128(anum * (FP as i128), nn);
                let beta: i128 = div_floor_i128(bnum * (FP as i128), nn);
                if !(0 <= alpha && alpha <= FP as i128 && 0 <= beta && beta <= FP as i128) {
                    return None;
                }
                let mut rec = HitRecord::new();
                let _interior = Quad::is_interior(alpha as i64, beta as i64, &mut rec);
                rec.p = p;
                rec.t = t64;
                rec.mat = self.mat;
                rec.set_face_normal(r, self.normal);
                Some(rec)
            },
        }
    }

    pub fn bounding_box(&self) -> (b: Aabb)
        ensures
            b == self.bbox,
    {
        self.bbox
    }
}

/// Scale a wide vector (components up to 2^44) to unit length; None when the
/// fixed-point norm vanishes.
pub fn unit_of_wide(n: &Vec3) -> (res: Option<Vec3>)
    requires
        bounded(*n, 0x4000_0000_0000),
    ensures
        crate::vec3::norm3(*n) == 0 ==> res is None,
        crate::vec3::norm3(*n) != 0 ==> (res matches Some(un) ==> un.x == fdiv(
            n.x as int,
            crate::vec3::norm3(*n),
        ) && un.y == fdiv(n.y as int, crate::vec3::norm3(*n)) && un.z == fdiv(
            n.z as int,
            crate::vec3::norm3(*n),
        )),
        crate::vec3::norm3(*n) != 0 ==> res is Some,
{
    proof {
        lemma_mul_abs_bound(n.x as int, n.x as int, 0x4000_0000_0000, 0x4000_0000_0000);
        lemma_mul_abs_bound(n.y as int, n.y as int, 0x4000_0000_0000, 0x4000_0000_0000);
        lemma_mul_abs_bound(n.z as int, n.z as int, 0x4000_0000_0000, 0x4000_0000_0000);
        crate::vec3::lemma_dot_self_nonneg(*n);
        lemma_div_abs_bound(dot_raw(*n, *n), FP as int, 0x3000_0000_0000_0000_0000_0000);
    }
    let sq: i128 = (n.x as i128) * (n.x as i128) + (n.y as i128) * (n.y as i128) + (n.z as i128)
        * (n.z as i128);
    let d3: i128 = sq / (FP as i128);
    let ghost nrm_g = crate::vec3::norm3(*n);
    proof {
        lemma_mul_abs_bound(d3 as int, FP as int, 0x3000_0000_0000_0000_0000_0000, 0x1_0000);
        assert(d3 as int * (FP as int) >= 0) by (nonlinear_arith)
            requires
                d3 as int >= 0,
                FP as int > 0,
        ;
        crate::fixed::lemma_isqrt_exists(d3 as int * (FP as int));
        let rt = crate::fixed::isqrt_spec(d3 as int * (FP as int));
        assert(crate::fixed::is_isqrt(d3 as int * (FP as int), rt));
        if rt > 0x8000_0000_0000_0000int {
            assert(rt * rt > 0x4000_0000_0000_0000_0000_0000_0000_0000int) by (nonlinear_arith)
                requires
                    rt > 0x8000_0000_0000_0000int,
            ;
        }
    }
    let nrm: u128 = crate::fixed::isqrt((d3 as u128) * (FP as u128));
    if nrm == 0 {
        return None;
    }
    proof {
        lemma_mul_abs_bound(n.x as int, FP as int, 0x4000_0000_0000, 0x1_0000);
        lemma_mul_abs_bound(n.y as int, FP as int, 0x4000_0000_0000, 0x1_0000);
        lemma_mul_abs_bound(n.z as int, FP as int, 0x4000_0000_0000, 0x1_0000);
        lemma_div_abs_bound(n.x as int * (FP as int), nrm as int, 0x4000_0000_0000_0000);
        lemma_div_abs_bound(n.y as int * (FP as int), nrm as int, 0x4000_0000_0000_0000);
        lemma_div_abs_bound(n.z as int * (FP as int), nrm as int, 0x4000_0000_0000_0000);
    }
    let ux: i128 = div_floor_i128((n.x as i128) * (FP as i128), nrm as i128);
    let uy: i128 = div_floor_i128((n.y as i128) * (FP as i128), nrm as i128);
    let uz: i128 = div_floor_i128((n.z as i128) * (FP as i128), nrm as i128);
    Some(Vec3 { x: ux as i64, y: uy as i64, z: uz as i64 })
}

/// Clamp every component of a vector into [-bound, bound].
pub fn clamp_components(v: &Vec3, bound: i64) -> (r: Vec3)
    requires
        bound >= 0,
    ensures
        r == clamp_vec(*v, bound as int),
        bounded(r, bound as int),
{
    Vec3 {
        x: if v.x > bound {
            bound
        } else if v.x < -bound {
            -bound
        } else {
            v.x
        },
        y: if v.y > bound {
            bound
        } else if v.y < -bound {
            -bound
        } else {
            v.y
        },
        z: if v.z > bound {
            bound
        } else if v.z < -bound {
            -bound
        } else {
            v.z
        },
    }
}

/// The componentwise clamp of a vector into [-bound, bound].
pub open spec fn clamp_vec(v: Vec3, bound: int) -> Vec3 {
    Vec3 {
        x: (if v.x > bound {
            bound
        } else if v.x < -bound {
            -bound
        } else {
            v.x as int
        }) as i64,
        y: (if v.y > bound {
            bound
        } else if v.y < -bound {
            -bound
        } else {
            v.y as int
        }) as i64,
        z: (if v.z > bound {
            bound
        } else if v.z < -bound {
            -bound
        } else {
            v.z as int
        }) as i64,
    }
}

/// The cross product of OBJ_MAX-bounded edges is bounded by 2 * OBJ_MAX^2 / FP.
proof fn lemma_cross_bound(u: Vec3, v: Vec3)
    requires
        bounded(u, OBJ_MAX as int),
        bounded(v, OBJ_MAX as int),
    ensures
        -0x1000_0000_0000 <= (u.y * v.z - u.z * v.y) / (FP as int) <= 0x1000_0000_0000,
        -0x1000_0000_0000 <= (u.z * v.x - u.x * v.z) / (FP as int) <= 0x1000_0000_0000,
        -0x1000_0000_0000 <= (u.x * v.y - u.y * v.x) / (FP as int) <= 0x1000_0000_0000,
        bounded(cross_spec(u, v), 0x1000_0000_0000),
{
    lemma_mul_abs_bound(u.y as int, v.z as int, 0x2000_0000, 0x2000_0000);
    lemma_mul_abs_bound(u.z as int, v.y as int, 0x2000_0000, 0x2000_0000);
    lemma_mul_abs_bound(u.z as int, v.x as int, 0x2000_0000, 0x2000_0000);
    lemma_mul_abs_bound(u.x as int, v.z as int, 0x2000_0000, 0x2000_0000);
    lemma_mul_abs_bound(u.x as int, v.y as int, 0x2000_0000, 0x2000_0000);
    lemma_mul_abs_bound(u.y as int, v.x as int, 0x2000_0000, 0x2000_0000);
    lemma_div_abs_bound(u.y * v.z - u.z * v.y, FP as int, 0x8000_0000_0000_0000);
    lemma_div_abs_bound(u.z * v.x - u.x * v.z, FP as int, 0x8000_0000_0000_0000);
    lemma_div_abs_bound(u.x * v.y - u.y * v.x, FP as int, 0x8000_0000_0000_0000);
    assert(0x1000_0000_0000 * (FP as int) == 0x1000_0000_0000_0000) by (nonlinear_arith)
        requires
            FP as int == 0x1_0000,
    ;
    crate::fixed::lemma_div_quot_bound(u.y * v.z - u.z * v.y, FP as int, 0x1000_0000_0000);
    crate::fixed::lemma_div_quot_bound(u.z * v.x - u.x * v.z, FP as int, 0x1000_0000_0000);
    crate::fixed::lemma_div_quot_bound(u.x * v.y - u.y * v.x, FP as int, 0x1000_0000_0000);
}

/// If the raw self-dot is at least one, the fixed-point self-dot may be zero,
/// but the fixed-point length is nonnegative.
proof fn lemma_dot_raw_to_fp(n: Vec3)
    ensures
        crate::vec3::dot3(n, n) >= 0,
        crate::vec3::norm3(n) >= 0,
{
    crate::vec3::lemma_dot_self_nonneg(n);
    crate::fixed::lemma_isqrt_exists(crate::vec3::dot3(n, n) * (FP as int));
    let rt = crate::fixed::isqrt_spec(crate::vec3::dot3(n, n) * (FP as int));
    assert(crate::vec3::dot3(n, n) * (FP as int) >= 0) by (nonlinear_arith)
        requires
            crate::vec3::dot3(n, n) >= 0,
    ;
    assert(crate::fixed::is_isqrt(crate::vec3::dot3(n, n) * (FP as int), rt));
}

/// Magnitude bounds for the quad plane computation.
proof fn lemma_quad_products(n: Vec3, d: Vec3, o: Vec3, q: Vec3)
    requires
        bounded(n, 0x1000_0000_0000),
        bounded(d, RAY_MAX as int),
        bounded(o, RAY_MAX as int),
        bounded(q, OBJ_MAX as int),
    ensures
        -0x3000_0000_0000_0000_0000int <= dot_raw(n, d) <= 0x3000_0000_0000_0000_0000int,
        -0x3000_0000_0000_0000_0000int <= dot_raw(n, o) <= 0x3000_0000_0000_0000_0000int,
        -0x3000_0000_0000_0000_0000int <= dot_raw(n, q) <= 0x3000_0000_0000_0000_0000int,
        -0x1000_0000_0000_0000_0000int <= n.x * d.x <= 0x1000_0000_0000_0000_0000int,
        -0x1000_0000_0000_0000_0000int <= n.y * d.y <= 0x1000_0000_0000_0000_0000int,
        -0x1000_0000_0000_0000_0000int <= n.z * d.z <= 0x1000_0000_0000_0000_0000int,
        -0x1000_0000_0000_0000_0000int <= n.x * o.x <= 0x1000_0000_0000_0000_0000int,
        -0x1000_0000_0000_0000_0000int <= n.y * o.y <= 0x1000_0000_0000_0000_0000int,
        -0x1000_0000_0000_0000_0000int <= n.z * o.z <= 0x1000_0000_0000_0000_0000int,
        -0x1000_0000_0000_0000_0000int <= n.x * q.x <= 0x1000_0000_0000_0000_0000int,
        -0x1000_0000_0000_0000_0000int <= n.y * q.y <= 0x1000_0000_0000_0000_0000int,
        -0x1000_0000_0000_0000_0000int <= n.z * q.z <= 0x1000_0000_0000_0000_0000int,
{
    lemma_mul_abs_bound(n.x as int, d.x as int, 0x1000_0000_0000, 0x4000_0000);
    lemma_mul_abs_bound(n.y as int, d.y as int, 0x1000_0000_0000, 0x4000_0000);
    lemma_mul_abs_bound(n.z as int, d.z as int, 0x1000_0000_0000, 0x4000_0000);
    lemma_mul_abs_bound(n.x as int, o.x as int, 0x1000_0000_0000, 0x4000_0000);
    lemma_mul_abs_bound(n.y as int, o.y as int, 0x1000_0000_0000, 0x4000_0000);
    lemma_mul_abs_bound(n.z as int, o.z as int, 0x1000_0000_0000, 0x4000_0000);
    lemma_mul_abs_bound(n.x as int, q.x as int, 0x1000_0000_0000, 0x4000_0000);
    lemma_mul_abs_bound(n.y as int, q.y as int, 0x1000_0000_0000, 0x4000_0000);
    lemma_mul_abs_bound(n.z as int, q.z as int, 0x1000_0000_0000, 0x4000_0000);
}

/// Signed floor division keeps a symmetric magnitude bound.
pub proof fn lemma_sdiv_abs(n: int, d: int, q: int)
    requires
        d != 0,
        0 <= q,
        -q <= n <= q,
    ensures
        -q <= sdiv(n, d) <= q,
{
    if d > 0 {
        lemma_div_abs_bound(n, d, q);
    } else {
        lemma_div_abs_bound(-n, -d, q);
    }
}

/// The plane-intersection quotient fits comfortably in the checked range.
proof fn lemma_sdiv_bound(n: int, d: int)
    requires
        d != 0,
        -0x6000_0000_0000_0000_0000_0000 <= n <= 0x6000_0000_0000_0000_0000_0000,
    ensures
        -0x6000_0000_0000_0000_0000_0000 <= sdiv(n, d) <= 0x6000_0000_0000_0000_0000_0000,
{
    if d > 0 {
        lemma_div_abs_bound(n, d, 0x6000_0000_0000_0000_0000_0000);
    } else {
        lemma_div_abs_bound(-n, -d, 0x6000_0000_0000_0000_0000_0000);
    }
}

/// Bounds for the numerators of the planar coordinates.
proof fn lemma_alpha_products(n: Vec3, c: Vec3)
    requires
        bounded(n, 0x1000_0000_0000),
        bounded(c, 0x4000_0000_0000),
    ensures
        -0x4000_0000_0000_0000_0000_0000int <= n.x * c.x <= 0x4000_0000_0000_0000_0000_0000int,
        -0x4000_0000_0000_0000_0000_0000int <= n.y * c.y <= 0x4000_0000_0000_0000_0000_0000int,
        -0x4000_0000_0000_0000_0000_0000int <= n.z * c.z <= 0x4000_0000_0000_0000_0000_0000int,
        -0x6000_0000_0000_0000_0000_0000_0000int <= dot_raw(n, c)
            <= 0x6000_0000_0000_0000_0000_0000_0000int,
{
    lemma_mul_abs_bound(n.x as int, c.x as int, 0x1000_0000_0000, 0x4000_0000_0000);
    lemma_mul_abs_bound(n.y as int, c.y as int, 0x1000_0000_0000, 0x4000_0000_0000);
    lemma_mul_abs_bound(n.z as int, c.z as int, 0x1000_0000_0000, 0x4000_0000_0000);
}

/// Magnitude bounds for the planar-coordinate recovery.
proof fn lemma_planar_products(n: Vec3, planar: Vec3, u: Vec3, v: Vec3)
    requires
        bounded(n, 0x1000_0000_0000),
        bounded(planar, 0x1_0000_0000),
        bounded(u, OBJ_MAX as int),
        bounded(v, OBJ_MAX as int),
    ensures
        -0x3000_0000_0000_0000_0000_0000int <= dot_raw(n, n) <= 0x3000_0000_0000_0000_0000_0000int,
        -0x1000_0000_0000_0000_0000_0000int <= n.x * n.x <= 0x1000_0000_0000_0000_0000_0000int,
        -0x1000_0000_0000_0000_0000_0000int <= n.y * n.y <= 0x1000_0000_0000_0000_0000_0000int,
        -0x1000_0000_0000_0000_0000_0000int <= n.z * n.z <= 0x1000_0000_0000_0000_0000_0000int,
        -0x4000_0000_0000 <= (planar.y * v.z - planar.z * v.y) / (FP as int) <= 0x4000_0000_0000,
        -0x4000_0000_0000 <= (planar.z * v.x - planar.x * v.z) / (FP as int) <= 0x4000_0000_0000,
        -0x4000_0000_0000 <= (planar.x * v.y - planar.y * v.x) / (FP as int) <= 0x4000_0000_0000,
        -0x4000_0000_0000 <= (u.y * planar.z - u.z * planar.y) / (FP as int) <= 0x4000_0000_0000,
        -0x4000_0000_0000 <= (u.z * planar.x - u.x * planar.z) / (FP as int) <= 0x4000_0000_0000,
        -0x4000_0000_0000 <= (u.x * planar.y - u.y * planar.x) / (FP as int) <= 0x4000_0000_0000,
        bounded(cross_spec(planar, v), 0x4000_0000_0000),
        bounded(cross_spec(u, planar), 0x4000_0000_0000),
{
    assert(0x4000_0000_0000 * (FP as int) == 0x4000_0000_0000_0000) by (nonlinear_arith)
        requires
            FP as int == 0x1_0000,
    ;
    lemma_mul_abs_bound(n.x as int, n.x as int, 0x1000_0000_0000, 0x1000_0000_0000);
    lemma_mul_abs_bound(n.y as int, n.y as int, 0x1000_0000_0000, 0x1000_0000_0000);
    lemma_mul_abs_bound(n.z as int, n.z as int, 0x1000_0000_0000, 0x1000_0000_0000);
    lemma_mul_abs_bound(planar.y as int, v.z as int, 0x1_0000_0000, 0x2000_0000);
    lemma_mul_abs_bound(planar.z as int, v.y as int, 0x1_0000_0000, 0x2000_0000);
    lemma_mul_abs_bound(planar.z as int, v.x as int, 0x1_0000_0000, 0x2000_0000);
    lemma_mul_abs_bound(planar.x as int, v.z as int, 0x1_0000_0000, 0x2000_0000);
    lemma_mul_abs_bound(planar.x as int, v.y as int, 0x1_0000_0000, 0x2000_0000);
    lemma_mul_abs_bound(planar.y as int, v.x as int, 0x1_0000_0000, 0x2000_0000);
    crate::fixed::lemma_div_quot_bound(
        planar.y * v.z - planar.z * v.y,
        FP as int,
        0x4000_0000_0000,
    );
    crate::fixed::lemma_div_quot_bound(
        planar.z * v.x - planar.x * v.z,
        FP as int,
        0x4000_0000_0000,
    );
    crate::fixed::lemma_div_quot_bound(
        planar.x * v.y - planar.y * v.x,
        FP as int,
        0x4000_0000_0000,
    );
    lemma_mul_abs_bound(u.y as int, planar.z as int, 0x2000_0000, 0x1_0000_0000);
    lemma_mul_abs_bound(u.z as int, planar.y as int, 0x2000_0000, 0x1_0000_0000);
    lemma_mul_abs_bound(u.z as int, planar.x as int, 0x2000_0000, 0x1_0000_0000);
    lemma_mul_abs_bound(u.x as int, planar.z as int, 0x2000_0000, 0x1_0000_0000);
    lemma_mul_abs_bound(u.x as int, planar.y as int, 0x2000_0000, 0x1_0000_0000);
    lemma_mul_abs_bound(u.y as int, planar.x as int, 0x2000_0000, 0x1_0000_0000);
    crate::fixed::lemma_div_quot_bound(
        u.y * planar.z - u.z * planar.y,
        FP as int,
        0x4000_0000_0000,
    );
    crate::fixed::lemma_div_quot_bound(
        u.z * planar.x - u.x * planar.z,
        FP as int,
        0x4000_0000_0000,
    );
    crate::fixed::lemma_div_quot_bound(
        u.x * planar.y - u.y * planar.x,
        FP as int,
        0x4000_0000_0000,
    );
}


/// The six-sided box spanning two opposite corners, as a list of quads.
/// Each axis must span at least 4096 ulps (a sixteenth of a unit) so that
/// every face is a nondegenerate parallelogram.
pub fn boxx(a: Point3, b: Point3, mat: usize) -> (o: crate::object::Object)
    requires
        bounded(a, OBJ_MAX as int / 2),
        bounded(b, OBJ_MAX as int / 2),
        a.x + 4096 <= b.x || b.x + 4096 <= a.x,
        a.y + 4096 <= b.y || b.y + 4096 <= a.y,
        a.z + 4096 <= b.z || b.z + 4096 <= a.z,
    ensures
        crate::object::obj_wf(o),
        crate::aabb::box_bounded(crate::object::bbox_of(o), RAY_MAX as int),
        crate::bvh::buildable(o),
        o matches crate::object::Object::List(l) ==> ({
            let lo = box_lo(a, b);
            let hi = box_hi(a, b);
            let dx = Vec3 { x: (hi.x - lo.x) as i64, y: 0i64, z: 0i64 };
            let dy = Vec3 { x: 0i64, y: (hi.y - lo.y) as i64, z: 0i64 };
            let dz = Vec3 { x: 0i64, y: 0i64, z: (hi.z - lo.z) as i64 };
            let ndx = Vec3 { x: (lo.x - hi.x) as i64, y: 0i64, z: 0i64 };
            let ndz = Vec3 { x: 0i64, y: 0i64, z: (lo.z - hi.z) as i64 };
            &&& l.objects@.len() == 6
            &&& (l.objects@[0] matches crate::object::Object::Quad(f) && f.q == (Vec3 {
                x: lo.x,
                y: lo.y,
                z: hi.z,
            }) && f.u == dx && f.v == dy && f.mat == mat)
            &&& (l.objects@[1] matches crate::object::Object::Quad(f) && f.q == (Vec3 {
                x: hi.x,
                y: lo.y,
                z: hi.z,
            }) && f.u == ndz && f.v == dy && f.mat == mat)
            &&& (l.objects@[2] matches crate::object::Object::Quad(f) && f.q == (Vec3 {
                x: hi.x,
                y: lo.y,
                z: lo.z,
            }) && f.u == ndx && f.v == dy && f.mat == mat)
            &&& (l.objects@[3] matches crate::object::Object::Quad(f) && f.q == lo && f.u == dz
                && f.v == dy && f.mat == mat)
            &&& (l.objects@[4] matches crate::object::Object::Quad(f) && f.q == (Vec3 {
                x: lo.x,
                y: hi.y,
                z: hi.z,
            }) && f.u == dx && f.v == ndz && f.mat == mat)
            &&& (l.objects@[5] matches crate::object::Object::Quad(f) && f.q == lo && f.u == dx
                && f.v == dz && f.mat == mat)
            &&& crate::aabb::box_contains(l.bbox, lo)
            &&& crate::aabb::box_contains(l.bbox, hi)
        }),
{
    let minp = Vec3::new(
        if a.x <= b.x { a.x } else { b.x },
        if a.y <= b.y { a.y } else { b.y },
        if a.z <= b.z { a.z } else { b.z },
    );
    let maxp = Vec3::new(
        if a.x >= b.x { a.x } else { b.x },
        if a.y >= b.y { a.y } else { b.y },
        if a.z >= b.z { a.z } else { b.z },
    );
    let dx = Vec3::new(maxp.x - minp.x, 0, 0);
    let dy = Vec3::new(0, maxp.y - minp.y, 0);
    let dz = Vec3::new(0, 0, maxp.z - minp.z);
    proof {
        lemma_axis_quads(maxp.x - minp.x, maxp.y - minp.y, maxp.z - minp.z);
    }
    let mut sides = crate::object::HittableList::new();
    let q1 = Quad::new(Vec3::new(minp.x, minp.y, maxp.z), dx, dy, mat);
    sides.add(crate::object::Object::Quad(q1));
    let q2 = Quad::new(Vec3::new(maxp.x, minp.y, maxp.z), dz.neg(), dy, mat);
    sides.add(crate::object::Object::Quad(q2));
    let q3 = Quad::new(Vec3::new(maxp.x, minp.y, minp.z), dx.neg(), dy, mat);
    sides.add(crate::object::Object::Quad(q3));
    let q4 = Quad::new(Vec3::new(minp.x, minp.y, minp.z), dz, dy, mat);
    sides.add(crate::object::Object::Quad(q4));
    let q5 = Quad::new(Vec3::new(minp.x, maxp.y, maxp.z), dx, dz.neg(), mat);
    sides.add(crate::object::Object::Quad(q5));
    let q6 = Quad::new(Vec3::new(minp.x, minp.y, minp.z), dx, dz, mat);
    sides.add(crate::object::Object::Quad(q6));
    proof {
        assert(crate::object::obj_wf(crate::object::Object::List(sides)));
        crate::object::lemma_wf_list_index(sides.objects@, sides.bbox, 0);
        crate::object::lemma_wf_list_index(sides.objects@, sides.bbox, 5);
        crate::aabb::lemma_inside_contains(q6.bbox, sides.bbox, minp);
        crate::aabb::lemma_inside_contains(
            q1.bbox,
            sides.bbox,
            Vec3 {
                x: (minp.x + dx.x + dy.x) as i64,
                y: (minp.y + dx.y + dy.y) as i64,
                z: (maxp.z + dx.z + dy.z) as i64,
            },
        );
    }
    crate::object::Object::List(sides)
}

/// The smaller corner of the box spanning two points.
pub open spec fn box_lo(a: Point3, b: Point3) -> Point3 {
    Vec3 {
        x: if a.x <= b.x {
            a.x
        } else {
            b.x
        },
        y: if a.y <= b.y {
            a.y
        } else {
            b.y
        },
        z: if a.z <= b.z {
            a.z
        } else {
            b.z
        },
    }
}

/// The larger corner of the box spanning two points.
pub open spec fn box_hi(a: Point3, b: Point3) -> Point3 {
    Vec3 {
        x: if a.x >= b.x {
            a.x
        } else {
            b.x
        },
        y: if a.y >= b.y {
            a.y
        } else {
            b.y
        },
        z: if a.z >= b.z {
            a.z
        } else {
            b.z
        },
    }
}

/// The cross products of axis-aligned edges at least 4096 ulps long are
/// nondegenerate in fixed point.
proof fn lemma_axis_quads(w: int, h: int, d: int)
    requires
        4096 <= w <= OBJ_MAX as int,
        4096 <= h <= OBJ_MAX as int,
        4096 <= d <= OBJ_MAX as int,
    ensures
        ({
            let u = Vec3 { x: w as i64, y: 0i64, z: 0i64 };
            let v = Vec3 { x: 0i64, y: h as i64, z: 0i64 };
            dot_raw(cross_spec(u, v), cross_spec(u, v)) >= 1
        }),
        ({
            let u = Vec3 { x: 0i64, y: 0i64, z: (-d) as i64 };
            let v = Vec3 { x: 0i64, y: h as i64, z: 0i64 };
            dot_raw(cross_spec(u, v), cross_spec(u, v)) >= 1
        }),
        ({
            let u = Vec3 { x: (-w) as i64, y: 0i64, z: 0i64 };
            let v = Vec3 { x: 0i64, y: h as i64, z: 0i64 };
            dot_raw(cross_spec(u, v), cross_spec(u, v)) >= 1
        }),
        ({
            let u = Vec3 { x: 0i64, y: 0i64, z: d as i64 };
            let v = Vec3 { x: 0i64, y: h as i64, z: 0i64 };
            dot_raw(cross_spec(u, v), cross_spec(u, v)) >= 1
        }),
        ({
            let u = Vec3 { x: w as i64, y: 0i64, z: 0i64 };
            let v = Vec3 { x: 0i64, y: 0i64, z: (-d) as i64 };
            dot_raw(cross_spec(u, v), cross_spec(u, v)) >= 1
        }),
        ({
            let u = Vec3 { x: w as i64, y: 0i64, z: 0i64 };
            let v = Vec3 { x: 0i64, y: 0i64, z: d as i64 };
            dot_raw(cross_spec(u, v), cross_spec(u, v)) >= 1
        }),
{
    crate::fixed::lemma_mul_zero(w);
    crate::fixed::lemma_mul_zero(h);
    crate::fixed::lemma_mul_zero(d);
    crate::fixed::lemma_mul_zero(-w);
    crate::fixed::lemma_mul_zero(-h);
    crate::fixed::lemma_mul_zero(-d);
    crate::fixed::lemma_mul_zero(0);
    lemma_axis_pair(w, h);
    lemma_axis_pair(d, h);
    lemma_axis_pair(w, d);
    let uf = Vec3 { x: w as i64, y: 0i64, z: 0i64 };
    let vf = Vec3 { x: 0i64, y: h as i64, z: 0i64 };
    assert(uf.x as int * vf.y as int == w * h);
    lemma_one_axis(cross_spec(uf, vf), w * h / (FP as int));
    let ub = Vec3 { x: 0i64, y: 0i64, z: (-d) as i64 };
    assert(ub.z as int * vf.y as int == (-d) * h);
    lemma_one_axis(cross_spec(ub, vf), d * h / (FP as int));
    let un = Vec3 { x: (-w) as i64, y: 0i64, z: 0i64 };
    assert(un.x as int * vf.y as int == (-w) * h);
    lemma_one_axis(cross_spec(un, vf), (-(w * h)) / (FP as int));
    let ud = Vec3 { x: 0i64, y: 0i64, z: d as i64 };
    assert(ud.z as int * vf.y as int == d * h);
    lemma_one_axis(cross_spec(ud, vf), (-(d * h)) / (FP as int));
    let vz = Vec3 { x: 0i64, y: 0i64, z: (-d) as i64 };
    assert(uf.x as int * vz.z as int == w * (-d));
    lemma_one_axis(cross_spec(uf, vz), w * d / (FP as int));
    let vz2 = Vec3 { x: 0i64, y: 0i64, z: d as i64 };
    assert(uf.x as int * vz2.z as int == w * d);
    lemma_one_axis(cross_spec(uf, vz2), (-(w * d)) / (FP as int));
}

/// The scaled product of two edge lengths of at least 4096 ulps squares to
/// at least one.
proof fn lemma_axis_pair(p: int, q: int)
    requires
        4096 <= p <= OBJ_MAX as int,
        4096 <= q <= OBJ_MAX as int,
    ensures
        256 <= p * q / (FP as int) <= 0x1000_0000_0000,
        -0x1000_0000_0000 <= (-(p * q)) / (FP as int) <= -256,
        0 - (p * q) == (-p) * q,
        0 - (p * q) == p * (-q),
{
    assert(p * q >= 0x100_0000) by (nonlinear_arith)
        requires
            p >= 4096,
            q >= 4096,
    ;
    assert(p * q <= 0x1000_0000_0000_0000) by (nonlinear_arith)
        requires
            p <= 0x2000_0000,
            q <= 0x2000_0000,
            0 <= p,
            0 <= q,
    ;
    crate::fixed::lemma_div_ge_iff(p * q, 256, FP as int);
    assert(256 * (FP as int) <= 0x100_0000) by (nonlinear_arith)
        requires
            FP as int == 0x1_0000,
    ;
    crate::fixed::lemma_div_abs_bound(p * q, FP as int, 0x1000_0000_0000_0000);
    crate::fixed::lemma_div_quot_bound(p * q, FP as int, 0x1000_0000_0000);
    assert(0x1000_0000_0000 * (FP as int) >= 0x1000_0000_0000_0000) by (nonlinear_arith)
        requires
            FP as int == 0x1_0000,
    ;
    assert(0 - (p * q) == (-p) * q) by (nonlinear_arith);
    assert(0 - (p * q) == p * (-q)) by (nonlinear_arith);
    crate::fixed::lemma_div_quot_bound(-(p * q), FP as int, 0x1000_0000_0000);
    let t = (-(p * q)) / (FP as int);
    assert(t <= -256) by {
        crate::fixed::lemma_div_ge_iff(-(p * q), -255, FP as int);
        assert((-255) * (FP as int) >= -(p * q)) by (nonlinear_arith)
            requires
                p * q >= 0x100_0000,
                FP as int == 0x1_0000,
        ;
    }
}

/// A vector with a single component of magnitude at least 256 has a raw
/// self-dot of at least one.
proof fn lemma_one_axis(c: Vec3, v: int)
    requires
        (c.x == v && c.y == 0 && c.z == 0) || (c.y == v && c.x == 0 && c.z == 0) || (c.z == v
            && c.x == 0 && c.y == 0),
        v >= 256 || v <= -256,
    ensures
        dot_raw(c, c) >= 1,
{
    crate::fixed::lemma_mul_zero(0);
    assert(v * v >= 1) by (nonlinear_arith)
        requires
            v >= 256 || v <= -256,
    ;
}


/// The magnitude of a scaled product of two axis spans.
proof fn lemma_signed_quot(prod: int)
    requires
        0x100_0000 <= prod <= 0x1000_0000_0000_0000 || -0x1000_0000_0000_0000 <= prod
            <= -0x100_0000,
    ensures
        prod / (FP as int) >= 256 || prod / (FP as int) <= -256,
        -0x1000_0000_0000 <= prod / (FP as int) <= 0x1000_0000_0000,
{
    crate::fixed::lemma_div_quot_bound(prod, FP as int, 0x1000_0000_0000);
    assert(0x1000_0000_0000 * (FP as int) >= 0x1000_0000_0000_0000) by (nonlinear_arith)
        requires
            FP as int == 0x1_0000,
    ;
    if prod > 0 {
        crate::fixed::lemma_div_ge_iff(prod, 256, FP as int);
        assert(256 * (FP as int) <= 0x100_0000) by (nonlinear_arith)
            requires
                FP as int == 0x1_0000,
        ;
    } else {
        crate::fixed::lemma_div_ge_iff(prod, -255, FP as int);
        assert((-255) * (FP as int) >= -0x100_0000 + 1) by (nonlinear_arith)
            requires
                FP as int == 0x1_0000,
        ;
    }
}

/// Edge vectors that each run along a single (different) axis, at least
/// 4096 ulps long, make a nondegenerate quad: their fixed-point cross
/// product does not vanish.
pub proof fn lemma_axis_aligned_quad(u: Vec3, v: Vec3)
    requires
        (u.x != 0 && u.y == 0 && u.z == 0) || (u.y != 0 && u.x == 0 && u.z == 0) || (u.z != 0
            && u.x == 0 && u.y == 0),
        (v.x != 0 && v.y == 0 && v.z == 0) || (v.y != 0 && v.x == 0 && v.z == 0) || (v.z != 0
            && v.x == 0 && v.y == 0),
        u.x != 0 ==> v.x == 0,
        u.y != 0 ==> v.y == 0,
        u.z != 0 ==> v.z == 0,
        u.x == 0 || 4096 <= u.x <= OBJ_MAX || -(OBJ_MAX as int) <= u.x <= -4096,
        u.y == 0 || 4096 <= u.y <= OBJ_MAX || -(OBJ_MAX as int) <= u.y <= -4096,
        u.z == 0 || 4096 <= u.z <= OBJ_MAX || -(OBJ_MAX as int) <= u.z <= -4096,
        v.x == 0 || 4096 <= v.x <= OBJ_MAX || -(OBJ_MAX as int) <= v.x <= -4096,
        v.y == 0 || 4096 <= v.y <= OBJ_MAX || -(OBJ_MAX as int) <= v.y <= -4096,
        v.z == 0 || 4096 <= v.z <= OBJ_MAX || -(OBJ_MAX as int) <= v.z <= -4096,
    ensures
        dot_raw(cross_spec(u, v), cross_spec(u, v)) >= 1,
{
    crate::fixed::lemma_mul_zero(u.x as int);
    crate::fixed::lemma_mul_zero(u.y as int);
    crate::fixed::lemma_mul_zero(u.z as int);
    crate::fixed::lemma_mul_zero(v.x as int);
    crate::fixed::lemma_mul_zero(v.y as int);
    crate::fixed::lemma_mul_zero(v.z as int);
    crate::fixed::lemma_mul_zero(0);
    if u.x != 0 && v.y != 0 {
        lemma_prod_span(u.x as int, v.y as int);
        lemma_signed_quot(u.x * v.y);
        lemma_one_axis(cross_spec(u, v), (u.x * v.y - u.y * v.x) / (FP as int));
    } else if u.x != 0 && v.z != 0 {
        lemma_prod_span(u.x as int, v.z as int);
        lemma_signed_quot(0 - u.x * v.z);
        lemma_one_axis(cross_spec(u, v), (u.z * v.x - u.x * v.z) / (FP as int));
    } else if u.y != 0 && v.x != 0 {
        lemma_prod_span(u.y as int, v.x as int);
        lemma_signed_quot(0 - u.y * v.x);
        lemma_one_axis(cross_spec(u, v), (u.x * v.y - u.y * v.x) / (FP as int));
    } else if u.y != 0 && v.z != 0 {
        lemma_prod_span(u.y as int, v.z as int);
        lemma_signed_quot(u.y * v.z);
        lemma_one_axis(cross_spec(u, v), (u.y * v.z - u.z * v.y) / (FP as int));
    } else if u.z != 0 && v.x != 0 {
        lemma_prod_span(u.z as int, v.x as int);
        lemma_signed_quot(u.z * v.x);
        lemma_one_axis(cross_spec(u, v), (u.z * v.x - u.x * v.z) / (FP as int));
    } else if u.z != 0 && v.y != 0 {
        lemma_prod_span(u.z as int, v.y as int);
        lemma_signed_quot(0 - u.z * v.y);
        lemma_one_axis(cross_spec(u, v), (u.y * v.z - u.z * v.y) / (FP as int));
    }
}

/// The product of two spans of magnitude in [4096, OBJ_MAX].
proof fn lemma_prod_span(a: int, b: int)
    requires
        4096 <= a <= OBJ_MAX || -(OBJ_MAX as int) <= a <= -4096,
        4096 <= b <= OBJ_MAX || -(OBJ_MAX as int) <= b <= -4096,
    ensures
        0x100_0000 <= a * b <= 0x1000_0000_0000_0000 || -0x1000_0000_0000_0000 <= a * b
            <= -0x100_0000,
        0 - (a * b) == (-(a * b)),
{
    assert(0x100_0000 <= a * b <= 0x1000_0000_0000_0000 || -0x1000_0000_0000_0000 <= a * b
        <= -0x100_0000) by (nonlinear_arith)
        requires
            4096 <= a <= 0x1fff_ff00 || -0x1fff_ff00 <= a <= -4096,
            4096 <= b <= 0x1fff_ff00 || -0x1fff_ff00 <= b <= -4096,
    ;
}

} // verus!
