//! Construction of composite hittables: the scene list, rigid transforms and
//! volumetric media.
use vstd::prelude::*;
use crate::aabb::{Aabb, box_bounded, box_inside};
use crate::fixed::{FP, fmul, fdiv};
use crate::interval::{Interval, INF};
use crate::mathfn::{PI_FP, TWO_PI_FP, sin_spec, cos_spec, sin_fp, cos_fp, to_radians};
use crate::object::{Object, HittableList, Translate, RotateY, ConstantMedium, obj_wf, bbox_of, wf_list, lemma_wf_list_push, lemma_wf_list_widen, ROT_TOL};
use crate::vec3::{Vec3, Color, bounded, OBJ_MAX, RAY_MAX};
use crate::bvh::buildable;

verus! {

/// A box shifted by an offset, axis by axis.
pub open spec fn shifted_box_spec(b: Aabb, off: Vec3) -> Aabb {
    Aabb {
        x: Interval { min: (b.x.min + off.x) as i64, max: (b.x.max + off.x) as i64 },
        y: Interval { min: (b.y.min + off.y) as i64, max: (b.y.max + off.y) as i64 },
        z: Interval { min: (b.z.min + off.z) as i64, max: (b.z.max + off.z) as i64 },
    }
}

/// An interval clamped into the supported coordinate range.
pub open spec fn clamp_iv(iv: Interval) -> Interval {
    Interval {
        min: (if iv.min < -RAY_MAX {
            -RAY_MAX as int
        } else if iv.min > RAY_MAX {
            RAY_MAX as int
        } else {
            iv.min as int
        }) as i64,
        max: (if iv.max < -RAY_MAX {
            -RAY_MAX as int
        } else if iv.max > RAY_MAX {
            RAY_MAX as int
        } else {
            iv.max as int
        }) as i64,
    }
}

/// A box clamped into the supported coordinate range.
pub open spec fn clamp_box_spec(b: Aabb) -> Aabb {
    Aabb { x: clamp_iv(b.x), y: clamp_iv(b.y), z: clamp_iv(b.z) }
}

fn clamp_iv_exec(iv: Interval) -> (r: Interval)
    ensures
        r == clamp_iv(iv),
        -RAY_MAX <= r.min <= RAY_MAX,
        -RAY_MAX <= r.max <= RAY_MAX,
{
    Interval {
        min: if iv.min < -RAY_MAX {
            -RAY_MAX
        } else if iv.min > RAY_MAX {
            RAY_MAX
        } else {
            iv.min
        },
        max: if iv.max < -RAY_MAX {
            -RAY_MAX
        } else if iv.max > RAY_MAX {
            RAY_MAX
        } else {
            iv.max
        },
    }
}

/// Clamp a box into the supported coordinate range.
pub fn clamp_box(b: &Aabb) -> (r: Aabb)
    ensures
        r == clamp_box_spec(*b),
        box_bounded(r, RAY_MAX as int),
{
    Aabb { x: clamp_iv_exec(b.x), y: clamp_iv_exec(b.y), z: clamp_iv_exec(b.z) }
}

impl HittableList {
    /// An empty scene list.
    pub fn new() -> (l: HittableList)
        ensures
            obj_wf(Object::List(l)),
            l.objects@.len() == 0,
    {
        let l = HittableList { objects: Vec::new(), bbox: Aabb::empty() };
        proof {
            assert(l.objects@ =~= Seq::<Object>::empty());
            assert(wf_list(l.objects@, l.bbox));
            assert(obj_wf(Object::List(l)));
        }
        l
    }

    /// A list holding one object.
    pub fn new_list(object: Object) -> (l: HittableList)
        requires
            obj_wf(object),
            box_bounded(bbox_of(object), RAY_MAX as int),
        ensures
            obj_wf(Object::List(l)),
            l.objects@ =~= seq![object],
            l.bbox == bbox_of(object),
            buildable(object) ==> forall|j: int|
                0 <= j < l.objects@.len() ==> #[trigger] buildable(l.objects@[j]),
    {
        let bbox = object.bounding_box();
        let mut objects: Vec<Object> = Vec::new();
        objects.push(object);
        let l = HittableList { objects, bbox };
        proof {
            assert(l.objects@ =~= seq![object]);
            assert(l.objects@.first() == object);
            assert(l.objects@.drop_first() =~= Seq::<Object>::empty());
            assert(wf_list(l.objects@.drop_first(), l.bbox));
            assert(wf_list(l.objects@, l.bbox));
            assert(obj_wf(Object::List(l)) == (wf_list(l.objects@, l.bbox) && (l.objects@.len()
                > 0 ==> box_bounded(l.bbox, RAY_MAX as int))));
            assert(l.objects@[0] == object);
        }
        l
    }

    /// Add an object, growing the list's box to enclose it.
    pub fn add(&mut self, obj: Object)
        requires
            obj_wf(Object::List(*old(self))),
            obj_wf(obj),
            box_bounded(bbox_of(obj), RAY_MAX as int),
        ensures
            obj_wf(Object::List(*final(self))),
            final(self).objects@ == old(self).objects@.push(obj),
            final(self).bbox == crate::aabb::merge_box(old(self).bbox, bbox_of(obj)),
            box_inside(old(self).bbox, final(self).bbox),
            (buildable(obj) && (forall|j: int|
                0 <= j < old(self).objects@.len() ==> #[trigger] buildable(old(self).objects@[j])))
                ==> (forall|j: int|
                0 <= j < final(self).objects@.len() ==> #[trigger] buildable(
                    final(self).objects@[j],
                )),
    {
        let obox = obj.bounding_box();
        let newbox = Aabb::new_boxes(&self.bbox, &obox);
        proof {
            assert(wf_list(old(self).objects@, old(self).bbox)) by {
                assert(obj_wf(Object::List(*old(self))));
            }
            assert(old(self).objects@.len() > 0 ==> box_bounded(old(self).bbox, RAY_MAX as int))
                by {
                assert(obj_wf(Object::List(*old(self))));
            }
            assert(old(self).objects@.len() == 0 ==> old(self).bbox.x.min == INF) by {
                assert(obj_wf(Object::List(*old(self))));
            }
            assert(old(self).objects@.len() == 0 ==> old(self).bbox.x.max == -INF && old(
                self,
            ).bbox.y.min == INF && old(self).bbox.y.max == -INF && old(self).bbox.z.min == INF
                && old(self).bbox.z.max == -INF) by {
                assert(obj_wf(Object::List(*old(self))));
            }
            lemma_wf_list_widen(self.objects@, self.bbox, newbox);
            lemma_wf_list_push(self.objects@, newbox, obj);
        }
        self.bbox = newbox;
        self.objects.push(obj);
        proof {
            let news = self.objects@;
            let olds = old(self).objects@;
            assert(obj_wf(Object::List(*self)));
            if buildable(obj) && (forall|j: int|
                0 <= j < olds.len() ==> #[trigger] buildable(olds[j])) {
                assert forall|j: int| 0 <= j < news.len() implies #[trigger] buildable(
                    news[j],
                ) by {
                    if j < olds.len() {
                        assert(news[j] == olds[j]);
                    } else {
                        assert(news[j] == obj);
                    }
                }
            }
        }
    }

    /// Drop every object.
    pub fn clear(&mut self)
        ensures
            obj_wf(Object::List(*final(self))),
            final(self).objects@.len() == 0,
    {
        self.objects = Vec::new();
        self.bbox = Aabb::empty();
        proof {
            assert(self.objects@ =~= Seq::<Object>::empty());
            assert(wf_list(self.objects@, self.bbox));
            assert(obj_wf(Object::List(*self)));
        }
    }
}

impl Translate {
    /// Move an object by an offset; its box is the child's box shifted (and
    /// clamped into the supported range).
    pub fn new(object: Object, offset: Vec3) -> (o: Object)
        requires
            obj_wf(object),
            box_bounded(bbox_of(object), RAY_MAX as int),
            bounded(offset, OBJ_MAX as int),
        ensures
            obj_wf(o),
            box_bounded(bbox_of(o), RAY_MAX as int),
            o matches Object::Translated(t) && *t.object == object && t.offset == offset
                && t.bbox == clamp_box_spec(shifted_box_spec(bbox_of(object), offset)),
            !(o is Node),
            buildable(o),
    {
        let ibox = object.bounding_box();
        let shifted = ibox.shift(&offset);
        let bbox = clamp_box(&shifted);
        Object::Translated(Translate { object: Box::new(object), offset, bbox })
    }
}

/// The radian value the rotation constructor derives from degrees.
pub open spec fn rad_of_deg(deg: int) -> int {
    fmul(deg, PI_FP as int) / 180
}

/// The smaller of four values, compared pairwise as the builder does.
pub open spec fn min4_spec(a: int, b: int, c: int, d: int) -> int {
    let m1 = if a <= b {
        a
    } else {
        b
    };
    let m2 = if c <= d {
        c
    } else {
        d
    };
    if m1 <= m2 {
        m1
    } else {
        m2
    }
}

/// The larger of four values, compared pairwise as the builder does.
pub open spec fn max4_spec(a: int, b: int, c: int, d: int) -> int {
    let m1 = if a >= b {
        a
    } else {
        b
    };
    let m2 = if c >= d {
        c
    } else {
        d
    };
    if m1 >= m2 {
        m1
    } else {
        m2
    }
}

/// A rotated corner's x coordinate.
pub open spec fn rot_x_spec(c: int, s: int, x: int, z: int) -> int {
    fmul(c, x) + fmul(s, z)
}

/// A rotated corner's z coordinate.
pub open spec fn rot_z_spec(c: int, s: int, x: int, z: int) -> int {
    fmul(-s, x) + fmul(c, z)
}

/// The axis-aligned enclosure of a box's eight corners rotated about the y
/// axis by the given coefficients.
pub open spec fn rotated_box_spec(sin_t: int, cos_t: int, b: Aabb) -> Aabb {
    let nx1 = rot_x_spec(cos_t, sin_t, b.x.min as int, b.z.min as int);
    let nx2 = rot_x_spec(cos_t, sin_t, b.x.min as int, b.z.max as int);
    let nx3 = rot_x_spec(cos_t, sin_t, b.x.max as int, b.z.min as int);
    let nx4 = rot_x_spec(cos_t, sin_t, b.x.max as int, b.z.max as int);
    let nz1 = rot_z_spec(cos_t, sin_t, b.x.min as int, b.z.min as int);
    let nz2 = rot_z_spec(cos_t, sin_t, b.x.min as int, b.z.max as int);
    let nz3 = rot_z_spec(cos_t, sin_t, b.x.max as int, b.z.min as int);
    let nz4 = rot_z_spec(cos_t, sin_t, b.x.max as int, b.z.max as int);
    Aabb {
        x: Interval {
            min: min4_spec(nx1, nx2, nx3, nx4) as i64,
            max: max4_spec(nx1, nx2, nx3, nx4) as i64,
        },
        y: b.y,
        z: Interval {
            min: min4_spec(nz1, nz2, nz3, nz4) as i64,
            max: max4_spec(nz1, nz2, nz3, nz4) as i64,
        },
    }
}

impl RotateY {
    /// Rotate an object about the y axis by an angle in degrees (fixed
    /// point).  The stored coefficients are the library's sine and cosine of
    /// the angle; if they ever failed the unit-circle tolerance the rotation
    /// would fall back to the identity, which the approximation bounds keep
    /// from happening for supported angles.
    pub fn new(object: Object, angle: i64) -> (o: Object)
        requires
            obj_wf(object),
            box_bounded(bbox_of(object), RAY_MAX as int),
            -23592960 <= angle <= 23592960,
        ensures
            obj_wf(o),
            box_bounded(bbox_of(o), RAY_MAX as int),
            o matches Object::Rotated(rt) && *rt.object == object,
            o matches Object::Rotated(rt) ==> ({
                let sv = sin_spec(rad_of_deg(angle as int));
                let cv = cos_spec(rad_of_deg(angle as int));
                if FP * FP - ROT_TOL <= sv * sv + cv * cv <= FP * FP + ROT_TOL {
                    rt.sin_theta == sv && rt.cos_theta == cv
                } else {
                    rt.sin_theta == 0 && rt.cos_theta == FP
                }
            }),
            o matches Object::Rotated(rt) ==> rt.bbox == clamp_box_spec(
                rotated_box_spec(rt.sin_theta as int, rt.cos_theta as int, bbox_of(object)),
            ),
            !(o is Node),
            buildable(o),
    {
        proof {
            crate::fixed::lemma_mul_abs_bound(angle as int, PI_FP as int, 23592960, 0x4_0000);
            crate::fixed::lemma_div_abs_bound(
                angle as int * PI_FP as int,
                FP as int,
                0x5_8000_0000_0000,
            );
            crate::fixed::lemma_div_quot_bound(fmul(angle as int, PI_FP as int), 180, 411775);
            assert(411775 * 180 == 74119500);
            assert(-74119500 <= fmul(angle as int, PI_FP as int) <= 74119500) by {
                crate::fixed::lemma_div_quot_bound(
                    angle as int * PI_FP as int,
                    FP as int,
                    74119500,
                );
                assert(-(74119500 * 0x1_0000int) <= angle as int * PI_FP as int <= 74119500
                    * 0x1_0000int) by (nonlinear_arith)
                    requires
                        -23592960 <= angle as int <= 23592960,
                        PI_FP as int == 205887,
                ;
            }
        }
        let rad = to_radians(angle);
        let s = sin_fp(rad);
        let c = cos_fp(rad);
        proof {
            crate::fixed::lemma_mul_abs_bound(s as int, s as int, 0x1_0000, 0x1_0000);
            crate::fixed::lemma_mul_abs_bound(c as int, c as int, 0x1_0000, 0x1_0000);
        }
        let ss: i64 = s * s;
        let cc: i64 = c * c;
        let (sin_theta, cos_theta): (i64, i64) = if FP * FP - ROT_TOL <= ss + cc && ss + cc <= FP
            * FP + ROT_TOL {
            (s, c)
        } else {
            (0, FP)
        };
        proof {
            assert(0 * 0 + FP as int * FP as int == FP as int * FP as int) by (nonlinear_arith);
        }
        // the rotated box: every corner of the child's box, rotated, then
        // enclosed and clamped
        let ib = object.bounding_box();
        let nx1 = rot_x(cos_theta, sin_theta, ib.x.min, ib.z.min);
        let nx2 = rot_x(cos_theta, sin_theta, ib.x.min, ib.z.max);
        let nx3 = rot_x(cos_theta, sin_theta, ib.x.max, ib.z.min);
        let nx4 = rot_x(cos_theta, sin_theta, ib.x.max, ib.z.max);
        let nz1 = rot_z(cos_theta, sin_theta, ib.x.min, ib.z.min);
        let nz2 = rot_z(cos_theta, sin_theta, ib.x.min, ib.z.max);
        let nz3 = rot_z(cos_theta, sin_theta, ib.x.max, ib.z.min);
        let nz4 = rot_z(cos_theta, sin_theta, ib.x.max, ib.z.max);
        let xiv = Interval::new(
            imin4(nx1, nx2, nx3, nx4),
            imax4(nx1, nx2, nx3, nx4),
        );
        let ziv = Interval::new(
            imin4(nz1, nz2, nz3, nz4),
            imax4(nz1, nz2, nz3, nz4),
        );
        let bbox = clamp_box(&Aabb { x: xiv, y: ib.y, z: ziv });
        Object::Rotated(RotateY { object: Box::new(object), sin_theta, cos_theta, bbox })
    }
}

/// The x coordinate of a corner rotated forward about the y axis.
fn rot_x(c: i64, s: i64, x: i64, z: i64) -> (r: i64)
    requires
        -FP <= c <= FP,
        -FP <= s <= FP,
        -RAY_MAX <= x <= RAY_MAX,
        -RAY_MAX <= z <= RAY_MAX,
    ensures
        r == fmul(c as int, x as int) + fmul(s as int, z as int),
{
    proof {
        crate::fixed::lemma_fmul_unit_abs(c as int, x as int, 0x4000_0000);
        crate::fixed::lemma_fmul_unit_abs(s as int, z as int, 0x4000_0000);
    }
    crate::fixed::fp_mul(c, x) + crate::fixed::fp_mul(s, z)
}

/// The z coordinate of a corner rotated forward about the y axis.
fn rot_z(c: i64, s: i64, x: i64, z: i64) -> (r: i64)
    requires
        -FP <= c <= FP,
        -FP <= s <= FP,
        -RAY_MAX <= x <= RAY_MAX,
        -RAY_MAX <= z <= RAY_MAX,
    ensures
        r == fmul(-(s as int), x as int) + fmul(c as int, z as int),
{
    proof {
        crate::fixed::lemma_fmul_unit_abs(-(s as int), x as int, 0x4000_0000);
        crate::fixed::lemma_fmul_unit_abs(c as int, z as int, 0x4000_0000);
    }
    crate::fixed::fp_mul(-s, x) + crate::fixed::fp_mul(c, z)
}

fn imin4(a: i64, b: i64, c: i64, d: i64) -> (r: i64)
    ensures
        r == min4_spec(a as int, b as int, c as int, d as int),
        r <= a && r <= b && r <= c && r <= d,
        r == a || r == b || r == c || r == d,
{
    let m1 = if a <= b {
        a
    } else {
        b
    };
    let m2 = if c <= d {
        c
    } else {
        d
    };
    if m1 <= m2 {
        m1
    } else {
        m2
    }
}

fn imax4(a: i64, b: i64, c: i64, d: i64) -> (r: i64)
    ensures
        r == max4_spec(a as int, b as int, c as int, d as int),
        r >= a && r >= b && r >= c && r >= d,
        r == a || r == b || r == c || r == d,
{
    let m1 = if a >= b {
        a
    } else {
        b
    };
    let m2 = if c >= d {
        c
    } else {
        d
    };
    if m1 >= m2 {
        m1
    } else {
        m2
    }
}

impl ConstantMedium {
    /// A medium of constant density inside a convex boundary, scattering
    /// isotropically with the given phase material.
    pub fn new(boundary: Object, density: i64, phase: usize) -> (o: Object)
        requires
            obj_wf(boundary),
            box_bounded(bbox_of(boundary), RAY_MAX as int),
            1 <= density,
        ensures
            obj_wf(o),
            box_bounded(bbox_of(o), RAY_MAX as int),
            o matches Object::Medium(m) && *m.boundary == boundary && m.inv_density == fdiv(
                FP as int,
                density as int,
            ) && m.phase == phase,
            !(o is Node),
            buildable(o),
    {
        proof {
            crate::fixed::lemma_div_abs_bound(
                FP as int * FP as int,
                density as int,
                0x1_0000_0000,
            );
            vstd::arithmetic::div_mod::lemma_div_pos_is_pos(
                FP as int * FP as int,
                density as int,
            );
        }
        let inv_density = crate::fixed::fp_div(FP, density);
        let salt: u64 = (density as u64) ^ ((phase as u64) << 32);
        Object::Medium(
            ConstantMedium { boundary: Box::new(boundary), inv_density, phase, salt },
        )
    }

    /// The textured form: identical, with the phase material sampling a
    /// texture.
    pub fn new_tex(boundary: Object, density: i64, phase: usize) -> (o: Object)
        requires
            obj_wf(boundary),
            box_bounded(bbox_of(boundary), RAY_MAX as int),
            1 <= density,
        ensures
            obj_wf(o),
            box_bounded(bbox_of(o), RAY_MAX as int),
            o matches Object::Medium(m) && *m.boundary == boundary && m.inv_density == fdiv(
                FP as int,
                density as int,
            ) && m.phase == phase,
            !(o is Node),
            buildable(o),
    {
        ConstantMedium::new(boundary, density, phase)
    }
}

} // verus!
