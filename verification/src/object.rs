//! The closed set of hittables: primitives, volumetric media, lists, rigid
//! transforms and bounding-volume nodes, dispatched by pattern matching.
//! Every intersection query is a pure function of the object, the ray and
//! the range: `hit` returns exactly what `hit_spec` describes, and every
//! reported hit lies strictly inside the query range, on the ray, and inside
//! the reporting object's bounding box.
use vstd::prelude::*;
use crate::aabb::{Aabb, box_contains, box_inside, box_bounded, slab_hit, point_in_box_at};
use crate::fixed::{FP, fmul, fdiv, div_floor_i128};
use crate::hit::{HitRecord, checked_point, ray_wf, hit_point_ok};
use crate::interval::{Interval, INF};
use crate::mathfn::neg_ln_unit;
use crate::quad::{Quad, quad_wf, quad_hit_spec, clamp_vec};
use crate::ray::{Ray, ray_at_x, ray_at_y, ray_at_z, is_ray_at};
use crate::rng::{mix3, mix3_spec, rng_out};
use crate::sphere::{Sphere, sphere_wf, sphere_hit_spec};
use crate::triangle::{Triangle, tri_wf, tri_hit_spec};
use crate::vec3::{Point3, Vec3, bounded, OBJ_MAX, RAY_MAX};

verus! {

/// A participating medium of constant density bounded by another object.
/// Correct only for convex boundaries that a ray crosses exactly twice; this
/// follows the classical formulation and is kept as a documented limitation.
pub struct ConstantMedium {
    pub boundary: Box<Object>,
    /// 1/density in fixed point.
    pub inv_density: i64,
    /// The isotropic phase function's index in the material arena.
    pub phase: usize,
    /// Distinguishes media so their per-ray draws differ.
    pub salt: u64,
}

/// Moves an object by translating incoming rays the opposite way.
pub struct Translate {
    pub object: Box<Object>,
    pub offset: Vec3,
    pub bbox: Aabb,
}

/// Rotates an object about the y axis by rotating incoming rays backwards.
pub struct RotateY {
    pub object: Box<Object>,
    pub sin_theta: i64,
    pub cos_theta: i64,
    pub bbox: Aabb,
}

/// A union of hittables, scanned in order with a shrinking range so the
/// nearest hit wins.
pub struct HittableList {
    pub objects: Vec<Object>,
    pub bbox: Aabb,
}

/// An internal node of a bounding-volume hierarchy.
pub struct BvhNode {
    pub left: Box<Object>,
    pub right: Box<Object>,
    pub bbox: Aabb,
}

pub enum Object {
    Sphere(Sphere),
    Quad(Quad),
    Tri(Triangle),
    Medium(ConstantMedium),
    List(HittableList),
    Node(BvhNode),
    Translated(Translate),
    Rotated(RotateY),
}

/// The bounding box an object reports.
pub open spec fn bbox_of(o: Object) -> Aabb
    decreases o,
{
    match o {
        Object::Sphere(s) => s.bbox,
        Object::Quad(q) => q.bbox,
        Object::Tri(t) => t.bbox,
        Object::Medium(m) => bbox_of(*m.boundary),
        Object::List(l) => l.bbox,
        Object::Node(n) => n.bbox,
        Object::Translated(t) => t.bbox,
        Object::Rotated(rt) => rt.bbox,
    }
}

/// Tolerance on sin^2 + cos^2 for the stored rotation coefficients.
pub const ROT_TOL: i64 = 0x20_0000;

/// Well-formedness of the object tree: geometry within the supported world,
/// bounded boxes, children contained in their parents' boxes.
pub open spec fn obj_wf(o: Object) -> bool
    decreases o,
{
    match o {
        Object::Sphere(s) => sphere_wf(s),
        Object::Quad(q) => quad_wf(q),
        Object::Tri(t) => tri_wf(t),
        Object::Medium(m) => {
            &&& obj_wf(*m.boundary)
            &&& 0 <= m.inv_density <= 0x1_0000_0000
        },
        Object::List(l) => {
            &&& wf_list(l.objects@, l.bbox)
            &&& l.objects@.len() > 0 ==> box_bounded(l.bbox, RAY_MAX as int)
            &&& l.objects@.len() == 0 ==> l.bbox.x.min == INF && l.bbox.x.max == -INF
                && l.bbox.y.min == INF && l.bbox.y.max == -INF && l.bbox.z.min == INF
                && l.bbox.z.max == -INF
        },
        Object::Node(n) => {
            &&& obj_wf(*n.left)
            &&& obj_wf(*n.right)
            &&& box_inside(bbox_of(*n.left), n.bbox)
            &&& box_inside(bbox_of(*n.right), n.bbox)
            &&& box_bounded(n.bbox, RAY_MAX as int)
        },
        Object::Translated(t) => {
            &&& obj_wf(*t.object)
            &&& bounded(t.offset, OBJ_MAX as int)
            &&& box_bounded(t.bbox, RAY_MAX as int)
        },
        Object::Rotated(rt) => {
            &&& obj_wf(*rt.object)
            &&& -FP <= rt.sin_theta <= FP
            &&& -FP <= rt.cos_theta <= FP
            &&& FP * FP - ROT_TOL <= rt.sin_theta * rt.sin_theta + rt.cos_theta * rt.cos_theta
                <= FP * FP + ROT_TOL
            &&& box_bounded(rt.bbox, RAY_MAX as int)
        },
    }
}

/// Every object of the sequence is well formed and its box lies inside the
/// enclosing box.
pub open spec fn wf_list(s: Seq<Object>, lbox: Aabb) -> bool
    decreases s, 0int, 0int,
{
    s.len() == 0 || {
        &&& obj_wf(s.first())
        &&& box_inside(bbox_of(s.first()), lbox)
        &&& wf_list(s.drop_first(), lbox)
    }
}

/// Indexed access into a well-formed sequence.
pub proof fn lemma_wf_list_index(s: Seq<Object>, lbox: Aabb, i: int)
    requires
        wf_list(s, lbox),
        0 <= i < s.len(),
    ensures
        obj_wf(s[i]),
        box_inside(bbox_of(s[i]), lbox),
    decreases s.len(),
{
    if i == 0 {
        assert(s[0] == s.first());
    } else {
        lemma_wf_list_index(s.drop_first(), lbox, i - 1);
        assert(s.drop_first()[i - 1] == s[i]);
    }
}

/// Appending a well-formed, contained object keeps a sequence well formed.
pub proof fn lemma_wf_list_push(s: Seq<Object>, lbox: Aabb, o: Object)
    requires
        wf_list(s, lbox),
        obj_wf(o),
        box_inside(bbox_of(o), lbox),
    ensures
        wf_list(s.push(o), lbox),
    decreases s.len(),
{
    if s.len() == 0 {
        assert(s.push(o).first() == o);
        assert(s.push(o).drop_first() =~= Seq::<Object>::empty());
        assert(wf_list(Seq::<Object>::empty(), lbox));
    } else {
        assert(s.push(o).first() == s.first());
        assert(s.push(o).drop_first() =~= s.drop_first().push(o));
        lemma_wf_list_push(s.drop_first(), lbox, o);
    }
}

/// A sequence inside a box is inside any enclosing box.
pub proof fn lemma_wf_list_widen(s: Seq<Object>, b1: Aabb, b2: Aabb)
    requires
        wf_list(s, b1),
        box_inside(b1, b2),
    ensures
        wf_list(s, b2),
    decreases s.len(),
{
    if s.len() > 0 {
        lemma_wf_list_widen(s.drop_first(), b1, b2);
    }
}

/// The medium's deterministic per-ray draw, in [1, FP].
pub open spec fn medium_draw(m: ConstantMedium, r: Ray) -> int {
    (rng_out(
        mix3_spec(
            (r.origin().x as u64) ^ (r.direction().x as u64),
            (r.origin().y as u64) ^ (r.direction().y as u64),
            (r.origin().z as u64) ^ (r.direction().z as u64) ^ (r.time() as u64),
            m.salt,
        ),
    ) % (FP as u64)) + 1
}

/// What an intersection query returns, for every object kind.
pub open spec fn hit_spec(o: Object, r: Ray, tmin: int, tmax: int) -> Option<HitRecord>
    decreases o, 0int, 1int,
{
    match o {
        Object::Sphere(s) => sphere_hit_spec(s, r, tmin, tmax),
        Object::Quad(q) => quad_hit_spec(q, r, tmin, tmax),
        Object::Tri(t) => tri_hit_spec(t, r, tmin, tmax),
        Object::Medium(m) => medium_hit_spec(m, r, tmin, tmax),
        Object::List(l) => list_hit_from(l.objects@, 0, r, tmin, tmax),
        Object::Node(n) => if !slab_hit(n.bbox, r, tmin, tmax) {
            None
        } else {
            let left = hit_spec(*n.left, r, tmin, tmax);
            match left {
                Some(hl) => match hit_spec(*n.right, r, tmin, hl.t as int) {
                    Some(hr) => Some(hr),
                    None => Some(hl),
                },
                None => hit_spec(*n.right, r, tmin, tmax),
            }
        },
        Object::Translated(t) => translate_hit_spec(t, r, tmin, tmax),
        Object::Rotated(rt) => rotate_hit_spec(rt, r, tmin, tmax),
    }
}

/// The linear scan from index i: each object is queried over the range that
/// remains, and a later hit replaces an earlier one only when strictly
/// closer.
pub open spec fn list_hit_from(
    objs: Seq<Object>,
    i: int,
    r: Ray,
    tmin: int,
    cur_max: int,
) -> Option<HitRecord>
    decreases objs, objs.len() - i, 0int,
{
    if i < 0 || i >= objs.len() {
        None
    } else {
        match hit_spec(objs[i], r, tmin, cur_max) {
            Some(h) => match list_hit_from(objs, i + 1, r, tmin, h.t as int) {
                Some(h2) => Some(h2),
                None => Some(h),
            },
            None => list_hit_from(objs, i + 1, r, tmin, cur_max),
        }
    }
}

/// The medium's intersection: find the two boundary crossings, clip them to
/// the query range, and scatter at an exponentially drawn depth if it falls
/// inside the boundary segment.
pub open spec fn medium_hit_spec(
    m: ConstantMedium,
    r: Ray,
    tmin: int,
    tmax: int,
) -> Option<HitRecord>
    decreases *m.boundary, 2int, 0int,
{
    match hit_spec(*m.boundary, r, -INF as int, INF as int) {
        None => None,
        Some(h1) => match hit_spec(*m.boundary, r, h1.t + 8, INF as int) {
            None => None,
            Some(h2) => {
                if h1.t >= h2.t {
                    None
                } else {
                    let t1a = if h1.t < tmin {
                        tmin
                    } else {
                        h1.t as int
                    };
                    let t2 = if h2.t > tmax {
                        tmax
                    } else {
                        h2.t as int
                    };
                    let t1 = if t1a < 0 {
                        0
                    } else {
                        t1a
                    };
                    let rl = crate::vec3::norm3(r.direction());
                    if rl <= 0 {
                        None
                    } else {
                        let dist_inside = fmul(t2 - t1, rl);
                        let hd = fmul(neg_ln_unit(medium_draw(m, r)), m.inv_density as int);
                        if hd > dist_inside {
                            None
                        } else {
                            let t = t1 + fdiv(hd, rl);
                            if !hit_point_ok(bbox_of(*m.boundary), r, t, tmin, tmax) {
                                None
                            } else {
                                Some(
                                    HitRecord {
                                        p: Vec3 {
                                            x: ray_at_x(r, t) as i64,
                                            y: ray_at_y(r, t) as i64,
                                            z: ray_at_z(r, t) as i64,
                                        },
                                        normal: Vec3 { x: FP as i64, y: 0i64, z: 0i64 },
                                        mat: m.phase,
                                        t: t as i64,
                                        u: 0i64,
                                        v: 0i64,
                                        front_face: true,
                                    },
                                )
                            }
                        }
                    }
                }
            },
        },
    }
}

/// Intersection through a translation: move the ray backwards, query the
/// child, and report the world-space point; rays leaving the supported
/// coordinate range miss.
pub open spec fn translate_hit_spec(t: Translate, r: Ray, tmin: int, tmax: int) -> Option<
    HitRecord,
>
    decreases *t.object, 2int, 0int,
{
    let mox = r.origin().x - t.offset.x;
    let moy = r.origin().y - t.offset.y;
    let moz = r.origin().z - t.offset.z;
    if !(-RAY_MAX <= mox <= RAY_MAX && -RAY_MAX <= moy <= RAY_MAX && -RAY_MAX <= moz <= RAY_MAX) {
        None
    } else {
        let moved = Ray {
            orig: Vec3 { x: mox as i64, y: moy as i64, z: moz as i64 },
            dir: r.direction(),
            time: r.time(),
        };
        match hit_spec(*t.object, moved, tmin, tmax) {
            None => None,
            Some(h) => {
                if !hit_point_ok(t.bbox, r, h.t as int, tmin, tmax) {
                    None
                } else {
                    Some(
                        HitRecord {
                            p: Vec3 {
                                x: ray_at_x(r, h.t as int) as i64,
                                y: ray_at_y(r, h.t as int) as i64,
                                z: ray_at_z(r, h.t as int) as i64,
                            },
                            ..h
                        },
                    )
                }
            },
        }
    }
}

/// A vector rotated about the y axis by the stored coefficients.
pub open spec fn rot_y(sin_t: int, cos_t: int, v: Vec3) -> Vec3 {
    Vec3 {
        x: (fmul(cos_t, v.x as int) + fmul(sin_t, v.z as int)) as i64,
        y: v.y,
        z: (fmul(-sin_t, v.x as int) + fmul(cos_t, v.z as int)) as i64,
    }
}

/// The inverse rotation (the transpose: negated angle).
pub open spec fn rot_y_inv(sin_t: int, cos_t: int, v: Vec3) -> Vec3 {
    rot_y(-sin_t, cos_t, v)
}

/// Intersection through a y-rotation: rotate the ray into the child's frame,
/// query it, then report the world-space point and the rotated normal; rays
/// leaving the supported coordinate range miss.
pub open spec fn rotate_hit_spec(rt: RotateY, r: Ray, tmin: int, tmax: int) -> Option<HitRecord>
    decreases *rt.object, 2int, 0int,
{
    let s = rt.sin_theta as int;
    let c = rt.cos_theta as int;
    let ro = rot_y_inv(s, c, r.origin());
    let rd = rot_y_inv(s, c, r.direction());
    if !(bounded(ro, RAY_MAX as int) && bounded(rd, RAY_MAX as int)) {
        None
    } else {
        let rotated = Ray { orig: ro, dir: rd, time: r.time() };
        match hit_spec(*rt.object, rotated, tmin, tmax) {
            None => None,
            Some(h) => {
                if !hit_point_ok(rt.bbox, r, h.t as int, tmin, tmax) {
                    None
                } else {
                    Some(
                        HitRecord {
                            p: Vec3 {
                                x: ray_at_x(r, h.t as int) as i64,
                                y: ray_at_y(r, h.t as int) as i64,
                                z: ray_at_z(r, h.t as int) as i64,
                            },
                            normal: rot_y(s, c, clamp_vec(h.normal, 0x1_0000_0000_0000)),
                            ..h
                        },
                    )
                }
            },
        }
    }
}

impl Object {
    /// The object's bounding box.
    pub fn bounding_box(&self) -> (b: Aabb)
        ensures
            b == bbox_of(*self),
        decreases *self,
    {
        match self {
            Object::Sphere(s) => s.bbox,
            Object::Quad(q) => q.bbox,
            Object::Tri(t) => t.bbox,
            Object::Medium(m) => m.boundary.bounding_box(),
            Object::List(l) => l.bbox,
            Object::Node(n) => n.bbox,
            Object::Translated(t) => t.bbox,
            Object::Rotated(rt) => rt.bbox,
        }
    }

    /// The intersection query: exactly hit_spec.
    pub fn hit(&self, r: &Ray, ray_t: &Interval) -> (res: Option<HitRecord>)
        requires
            obj_wf(*self),
            ray_wf(*r),
        ensures
            res == hit_spec(*self, *r, ray_t.min as int, ray_t.max as int),
        decreases *self, 0int, 1int,
    {
        match self {
            Object::Sphere(s) => {
                proof {
                    assert(hit_spec(*self, *r, ray_t.min as int, ray_t.max as int)
                        == sphere_hit_spec(*s, *r, ray_t.min as int, ray_t.max as int));
                }
                s.hit(r, ray_t)
            },
            Object::Quad(q) => {
                proof {
                    assert(hit_spec(*self, *r, ray_t.min as int, ray_t.max as int)
                        == quad_hit_spec(*q, *r, ray_t.min as int, ray_t.max as int));
                }
                q.hit(r, ray_t)
            },
            Object::Tri(t) => {
                proof {
                    assert(hit_spec(*self, *r, ray_t.min as int, ray_t.max as int)
                        == tri_hit_spec(*t, *r, ray_t.min as int, ray_t.max as int));
                }
                t.hit(r, ray_t)
            },
            Object::Medium(m) => {
                proof {
                    assert(hit_spec(*self, *r, ray_t.min as int, ray_t.max as int)
                        == medium_hit_spec(*m, *r, ray_t.min as int, ray_t.max as int));
                }
                medium_hit(m, r, ray_t)
            },
            Object::List(l) => {
                proof {
                    assert(hit_spec(*self, *r, ray_t.min as int, ray_t.max as int)
                        == list_hit_from(l.objects@, 0, *r, ray_t.min as int, ray_t.max as int));
                    assert(obj_wf(Object::List(*l)));
                    assert forall|j: int|
                        0 <= j < l.objects@.len() implies #[trigger] obj_wf(l.objects@[j]) by {
                        lemma_wf_list_index(l.objects@, l.bbox, j);
                    }
                }
                list_hit(&l.objects, r, ray_t)
            },
            Object::Node(n) => {
                if !n.bbox.hit(r, *ray_t) {
                    return None;
                }
                let left_res = n.left.hit(r, ray_t);
                match left_res {
                    Some(hl) => {
                        let right_res = n.right.hit(r, &Interval::new(ray_t.min, hl.t));
                        match right_res {
                            Some(hr) => Some(hr),
                            None => Some(hl),
                        }
                    },
                    None => n.right.hit(r, ray_t),
                }
            },
            Object::Translated(t) => {
                proof {
                    assert(hit_spec(*self, *r, ray_t.min as int, ray_t.max as int)
                        == translate_hit_spec(*t, *r, ray_t.min as int, ray_t.max as int));
                }
                let o = r.origin();
                let mox = o.x() - t.offset.x;
                let moy = o.y() - t.offset.y;
                let moz = o.z() - t.offset.z;
                if !(-RAY_MAX <= mox && mox <= RAY_MAX && -RAY_MAX <= moy && moy <= RAY_MAX
                    && -RAY_MAX <= moz && moz <= RAY_MAX) {
                    return None;
                }
                let moved = Ray::new(Vec3::new(mox, moy, moz), r.direction(), r.time());
                match t.object.hit(&moved, ray_t) {
                    None => None,
                    Some(h) => {
                        match checked_point(&t.bbox, r, h.t as i128, ray_t) {
                            None => None,
                            Some((t64, p)) => {
                                let mut rec = h;
                                rec.p = p;
                                rec.t = t64;
                                Some(rec)
                            },
                        }
                    },
                }
            },
            Object::Rotated(rt) => {
                proof {
                    assert(hit_spec(*self, *r, ray_t.min as int, ray_t.max as int)
                        == rotate_hit_spec(*rt, *r, ray_t.min as int, ray_t.max as int));
                }
                let o = r.origin();
                let d = r.direction();
                proof {
                    crate::fixed::lemma_fmul_unit_abs(rt.cos_theta as int, o.x as int, 0x4000_0000);
                    crate::fixed::lemma_fmul_unit_abs(
                        -rt.sin_theta as int,
                        o.z as int,
                        0x4000_0000,
                    );
                    crate::fixed::lemma_fmul_unit_abs(rt.sin_theta as int, o.x as int, 0x4000_0000);
                    crate::fixed::lemma_fmul_unit_abs(rt.cos_theta as int, o.z as int, 0x4000_0000);
                    crate::fixed::lemma_fmul_unit_abs(rt.cos_theta as int, d.x as int, 0x4000_0000);
                    crate::fixed::lemma_fmul_unit_abs(
                        -rt.sin_theta as int,
                        d.z as int,
                        0x4000_0000,
                    );
                    crate::fixed::lemma_fmul_unit_abs(rt.sin_theta as int, d.x as int, 0x4000_0000);
                    crate::fixed::lemma_fmul_unit_abs(rt.cos_theta as int, d.z as int, 0x4000_0000);
                }
                // the ray is rotated by the negated angle: sin(-a) = -sin(a)
                let rox = crate::fixed::fp_mul(rt.cos_theta, o.x) + crate::fixed::fp_mul(
                    -rt.sin_theta,
                    o.z,
                );
                let roz = crate::fixed::fp_mul(rt.sin_theta, o.x) + crate::fixed::fp_mul(
                    rt.cos_theta,
                    o.z,
                );
                let rdx = crate::fixed::fp_mul(rt.cos_theta, d.x) + crate::fixed::fp_mul(
                    -rt.sin_theta,
                    d.z,
                );
                let rdz = crate::fixed::fp_mul(rt.sin_theta, d.x) + crate::fixed::fp_mul(
                    rt.cos_theta,
                    d.z,
                );
                if !(-RAY_MAX <= rox && rox <= RAY_MAX && -RAY_MAX <= roz && roz <= RAY_MAX
                    && -RAY_MAX <= rdx && rdx <= RAY_MAX && -RAY_MAX <= rdz && rdz <= RAY_MAX) {
                    return None;
                }
                let rotated = Ray::new(
                    Vec3::new(rox, o.y(), roz),
                    Vec3::new(rdx, d.y(), rdz),
                    r.time(),
                );
                match rt.object.hit(&rotated, ray_t) {
                    None => None,
                    Some(h) => {
                        match checked_point(&rt.bbox, r, h.t as i128, ray_t) {
                            None => None,
                            Some((t64, p)) => {
                                let cn = crate::quad::clamp_components(
                                    &h.normal,
                                    0x1_0000_0000_0000,
                                );
                                proof {
                                    crate::fixed::lemma_fmul_unit_abs(
                                        rt.cos_theta as int,
                                        cn.x as int,
                                        0x1_0000_0000_0000,
                                    );
                                    crate::fixed::lemma_fmul_unit_abs(
                                        rt.sin_theta as int,
                                        cn.z as int,
                                        0x1_0000_0000_0000,
                                    );
                                    crate::fixed::lemma_fmul_unit_abs(
                                        -rt.sin_theta as int,
                                        cn.x as int,
                                        0x1_0000_0000_0000,
                                    );
                                    crate::fixed::lemma_fmul_unit_abs(
                                        rt.cos_theta as int,
                                        cn.z as int,
                                        0x1_0000_0000_0000,
                                    );
                                }
                                let wnx = crate::fixed::fp_mul(rt.cos_theta, cn.x)
                                    + crate::fixed::fp_mul(rt.sin_theta, cn.z);
                                let wnz = crate::fixed::fp_mul(-rt.sin_theta, cn.x)
                                    + crate::fixed::fp_mul(rt.cos_theta, cn.z);
                                let mut rec = h;
                                rec.p = p;
                                rec.t = t64;
                                rec.normal = Vec3::new(wnx, cn.y, wnz);
                                Some(rec)
                            },
                        }
                    },
                }
            },
        }
    }
}

/// Scan a vector of objects front to back, shrinking the range so that only
/// strictly closer hits replace earlier ones.
fn list_hit(objs: &Vec<Object>, r: &Ray, ray_t: &Interval) -> (res: Option<HitRecord>)
    requires
        forall|j: int| 0 <= j < objs@.len() ==> #[trigger] obj_wf(objs@[j]),
        ray_wf(*r),
    ensures
        res == list_hit_from(objs@, 0, *r, ray_t.min as int, ray_t.max as int),
    decreases objs@, 0int, 0int,
{
    let ghost tmin = ray_t.min as int;
    let ghost tmax0 = ray_t.max as int;
    let mut best: Option<HitRecord> = None;
    let mut cur: i64 = ray_t.max;
    let n = objs.len();
    let mut i: usize = 0;
    while i < n
        invariant
            n == objs@.len(),
            0 <= i <= n,
            forall|j: int| 0 <= j < objs@.len() ==> #[trigger] obj_wf(objs@[j]),
            ray_wf(*r),
            list_hit_from(objs@, 0, *r, tmin, tmax0) == (match list_hit_from(
                objs@,
                i as int,
                *r,
                tmin,
                cur as int,
            ) {
                Some(h2) => Some(h2),
                None => best,
            }),
            match best {
                Some(h) => cur == h.t,
                None => cur == ray_t.max,
            },
            tmin == ray_t.min as int,
            tmax0 == ray_t.max as int,
        decreases n - i,
    {
        proof {
            assert(obj_wf(objs@[i as int]));
        }
        let child_res = objs[i].hit(r, &Interval::new(ray_t.min, cur));
        match child_res {
            Some(h) => {
                cur = h.t;
                best = Some(h);
            },
            None => {},
        }
        i = i + 1;
    }
    best
}

/// The medium's intersection query.
#[verifier::rlimit(60)]
fn medium_hit(m: &ConstantMedium, r: &Ray, ray_t: &Interval) -> (res: Option<HitRecord>)
    requires
        obj_wf(*m.boundary),
        0 <= m.inv_density <= 0x1_0000_0000,
        ray_wf(*r),
    ensures
        res == medium_hit_spec(*m, *r, ray_t.min as int, ray_t.max as int),
    decreases *m.boundary, 1int, 0int,
{
    proof {
        lemma_hit_in_box(*m.boundary, *r, -INF as int, INF as int);
    }
    let rec1 = match m.boundary.hit(r, &Interval::universe()) {
        None => {
            return None;
        },
        Some(h) => h,
    };
    let rec2 = match m.boundary.hit(r, &Interval::new(rec1.t + 8, INF)) {
        None => {
            return None;
        },
        Some(h) => h,
    };
    if rec1.t >= rec2.t {
        return None;
    }
    let t1a: i64 = if rec1.t < ray_t.min {
        ray_t.min
    } else {
        rec1.t
    };
    let t2: i64 = if rec2.t > ray_t.max {
        ray_t.max
    } else {
        rec2.t
    };
    let t1: i64 = if t1a < 0 {
        0
    } else {
        t1a
    };
    let rl = r.direction().length();
    if rl <= 0 {
        return None;
    }
    proof {
        lemma_norm_small(r.direction());
        crate::fixed::lemma_mul_abs_bound(
            t2 as int - t1 as int,
            rl as int,
            0x1_0000_0000_0000_0000,
            0x1_0000_0000,
        );
    }
    let dist_inside: i128 = div_floor_i128((t2 as i128 - t1 as i128) * (rl as i128), FP as i128);
    let o = r.origin();
    let d = r.direction();
    let draw: u64 = mix3(
        (o.x as u64) ^ (d.x as u64),
        (o.y as u64) ^ (d.y as u64),
        (o.z as u64) ^ (d.z as u64) ^ (r.time() as u64),
        m.salt,
    ) % (FP as u64) + 1;
    let nl = crate::mathfn::neg_ln_unit_fp(draw as i64);
    proof {
        crate::fixed::lemma_mul_abs_bound(nl as int, m.inv_density as int, 0x10_0000, 0x1_0000_0000);
        crate::fixed::lemma_div_quot_bound(
            nl as int * m.inv_density as int,
            FP as int,
            0x10_0000_0000_0000,
        );
        assert(0x10_0000_0000_0000 * (FP as int) >= 0x10_0000 * 0x1_0000_0000) by (nonlinear_arith)
            requires
                FP as int == 0x1_0000,
        ;
    }
    let hd: i64 = crate::fixed::fp_mul(nl, m.inv_density);
    if (hd as i128) > dist_inside {
        return None;
    }
    proof {
        crate::fixed::lemma_mul_abs_bound(hd as int, FP as int, 0x10_0000_0000_0000, 0x1_0000);
        crate::fixed::lemma_div_abs_bound(
            hd as int * (FP as int),
            rl as int,
            0x10_0000_0000_0000_0000,
        );
    }
    let tq: i128 = (t1 as i128) + div_floor_i128((hd as i128) * (FP as i128), rl as i128);
    let bbox = m.boundary.bounding_box();
    match checked_point(&bbox, r, tq, ray_t) {
        None => None,
        Some((t64, p)) => {
            Some(
                HitRecord {
                    p,
                    normal: Vec3::new(FP, 0, 0),
                    mat: m.phase,
                    t: t64,
                    u: 0,
                    v: 0,
                    front_face: true,
                },
            )
        },
    }
}


/// Every hit an object reports lies strictly inside the query range, exactly
/// on the ray, and inside the object's bounding box.  This is the property
/// bounding-volume traversal relies on for pruning.
pub proof fn lemma_hit_in_box(o: Object, r: Ray, tmin: int, tmax: int)
    requires
        obj_wf(o),
        -(INF as int) <= tmin,
        tmax <= INF as int,
    ensures
        hit_spec(o, r, tmin, tmax) matches Some(h) ==> {
            &&& tmin < h.t < tmax
            &&& is_ray_at(r, h.t as int, h.p)
            &&& box_contains(bbox_of(o), h.p)
        },
    decreases o, 3int, 0int,
{
    match o {
        Object::Sphere(s) => {
            match sphere_hit_spec(s, r, tmin, tmax) {
                Some(h) => {
                    assert(hit_spec(o, r, tmin, tmax) == Some(h));
                    assert(tmin < h.t < tmax);
                    assert(is_ray_at(r, h.t as int, h.p));
                    assert(box_contains(bbox_of(o), h.p));
                },
                None => {},
            }
        },
        Object::Quad(q) => {
            match quad_hit_spec(q, r, tmin, tmax) {
                Some(h) => {
                    assert(tmin < h.t < tmax);
                    assert(is_ray_at(r, h.t as int, h.p));
                    assert(box_contains(bbox_of(o), h.p));
                },
                None => {},
            }
        },
        Object::Tri(t) => {
            match tri_hit_spec(t, r, tmin, tmax) {
                Some(h) => {
                    assert(tmin < h.t < tmax);
                    assert(is_ray_at(r, h.t as int, h.p));
                    assert(box_contains(bbox_of(o), h.p));
                },
                None => {},
            }
        },
        Object::Medium(m) => {
            match medium_hit_spec(m, r, tmin, tmax) {
                Some(h) => {
                    assert(tmin < h.t < tmax);
                    assert(is_ray_at(r, h.t as int, h.p));
                    assert(box_contains(bbox_of(o), h.p));
                },
                None => {},
            }
        },
        Object::List(l) => {
            assert(o == Object::List(l));
            assert(obj_wf(Object::List(l)));
            assert forall|j: int|
                0 <= j < l.objects@.len() implies #[trigger] obj_wf(l.objects@[j]) by {
                lemma_wf_list_index(l.objects@, l.bbox, j);
            }
            assert forall|j: int|
                0 <= j < l.objects@.len() implies #[trigger] box_inside(
                bbox_of(l.objects@[j]),
                l.bbox,
            ) by {
                lemma_wf_list_index(l.objects@, l.bbox, j);
            }
            lemma_list_in_box(l.objects@, 0, r, tmin, tmax, l.bbox);
        },
        Object::Node(n) => {
            lemma_hit_in_box(*n.left, r, tmin, tmax);
            match hit_spec(*n.left, r, tmin, tmax) {
                Some(hl) => {
                    lemma_hit_in_box(*n.right, r, tmin, hl.t as int);
                },
                None => {
                    lemma_hit_in_box(*n.right, r, tmin, tmax);
                },
            }
        },
        Object::Translated(t) => {
            match translate_hit_spec(t, r, tmin, tmax) {
                Some(h) => {
                    assert(tmin < h.t < tmax);
                    assert(is_ray_at(r, h.t as int, h.p));
                    assert(box_contains(bbox_of(o), h.p));
                },
                None => {},
            }
        },
        Object::Rotated(rt) => {
            match rotate_hit_spec(rt, r, tmin, tmax) {
                Some(h) => {
                    assert(tmin < h.t < tmax);
                    assert(is_ray_at(r, h.t as int, h.p));
                    assert(box_contains(bbox_of(o), h.p));
                },
                None => {},
            }
        },
    }
}

/// The same guarantee for a linear scan, against a box that contains every
/// scanned object's box.
pub proof fn lemma_list_in_box(
    objs: Seq<Object>,
    i: int,
    r: Ray,
    tmin: int,
    cur_max: int,
    lbox: Aabb,
)
    requires
        forall|j: int| 0 <= j < objs.len() ==> #[trigger] obj_wf(objs[j]),
        forall|j: int| 0 <= j < objs.len() ==> #[trigger] box_inside(bbox_of(objs[j]), lbox),
        -(INF as int) <= tmin,
        cur_max <= INF as int,
    ensures
        list_hit_from(objs, i, r, tmin, cur_max) matches Some(h) ==> {
            &&& tmin < h.t < cur_max
            &&& is_ray_at(r, h.t as int, h.p)
            &&& box_contains(lbox, h.p)
        },
    decreases objs, objs.len() - i, 3int,
{
    if 0 <= i < objs.len() {
        assert(obj_wf(objs[i]));
        assert(box_inside(bbox_of(objs[i]), lbox));
        lemma_hit_in_box(objs[i], r, tmin, cur_max);
        match hit_spec(objs[i], r, tmin, cur_max) {
            Some(h) => {
                assert(box_contains(bbox_of(objs[i]), h.p));
                assert(box_contains(lbox, h.p));
                lemma_list_in_box(objs, i + 1, r, tmin, h.t as int, lbox);
            },
            None => {
                lemma_list_in_box(objs, i + 1, r, tmin, cur_max, lbox);
            },
        }
    }
}


/// The fixed-point norm of a direction within the supported ray range stays
/// below 2^32.
proof fn lemma_norm_small(v: Vec3)
    requires
        bounded(v, RAY_MAX as int),
    ensures
        0 <= crate::vec3::norm3(v) <= 0x1_0000_0000,
{
    crate::fixed::lemma_mul_abs_bound(v.x as int, v.x as int, 0x4000_0000, 0x4000_0000);
    crate::fixed::lemma_mul_abs_bound(v.y as int, v.y as int, 0x4000_0000, 0x4000_0000);
    crate::fixed::lemma_mul_abs_bound(v.z as int, v.z as int, 0x4000_0000, 0x4000_0000);
    crate::vec3::lemma_dot_self_nonneg(v);
    vstd::arithmetic::div_mod::lemma_div_is_ordered(
        crate::vec3::dot_raw(v, v),
        0x3000_0000_0000_0000,
        FP as int,
    );
    let d3 = crate::vec3::dot3(v, v);
    assert(d3 * (FP as int) <= 0x3000_0000_0000_0000) by (nonlinear_arith)
        requires
            0 <= d3 <= 0x3000_0000_0000_0000int / 0x1_0000int,
            FP as int == 0x1_0000,
    ;
    assert(d3 * (FP as int) >= 0) by (nonlinear_arith)
        requires
            d3 >= 0,
            FP as int > 0,
    ;
    crate::fixed::lemma_isqrt_exists(d3 * (FP as int));
    let rt = crate::fixed::isqrt_spec(d3 * (FP as int));
    assert(crate::fixed::is_isqrt(d3 * (FP as int), rt));
    if rt > 0x1_0000_0000 {
        assert(rt * rt > 0x1_0000_0000_0000_0000) by (nonlinear_arith)
            requires
                rt > 0x1_0000_0000,
        ;
    }
}


/// Translation wrappers round-trip exactly: shifting a reported hit point
/// back by the offset gives precisely the point the translated ray reaches at
/// the same parameter in the child's frame.
pub proof fn lemma_translate_round_trip(t: Translate, r: Ray, tmin: int, tmax: int)
    ensures
        translate_hit_spec(t, r, tmin, tmax) matches Some(h) ==> {
            let moved = Ray {
                orig: Vec3 {
                    x: (r.origin().x - t.offset.x) as i64,
                    y: (r.origin().y - t.offset.y) as i64,
                    z: (r.origin().z - t.offset.z) as i64,
                },
                dir: r.direction(),
                time: r.time(),
            };
            &&& h.p.x - t.offset.x == ray_at_x(moved, h.t as int)
            &&& h.p.y - t.offset.y == ray_at_y(moved, h.t as int)
            &&& h.p.z - t.offset.z == ray_at_z(moved, h.t as int)
        },
{
}

} // verus!
