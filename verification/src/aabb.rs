//! Axis-aligned bounding boxes: three intervals, one per axis.  The ray-slab
//! test is exact: it returns true precisely when some fixed-point parameter
//! strictly inside the query range reaches a point inside the box.
use vstd::prelude::*;
use crate::fixed::{FP, fmul, div_floor_i128, lemma_mul_abs_bound, lemma_div_ge_iff};
use crate::interval::Interval;
use crate::ray::{Ray, ray_at_x, ray_at_y, ray_at_z};
use crate::vec3::{Point3, Vec3, bounded};

verus! {

/// Boxes thinner than this many fixed-point ulps along an axis are padded
/// symmetrically, so that no axis is degenerate.
pub const PAD_MIN: i64 = 8;

#[derive(Clone, Copy, Debug, PartialEq, Eq, Structural)]
pub struct Aabb {
    pub x: Interval,
    pub y: Interval,
    pub z: Interval,
}

/// p lies inside the box (inclusive on every face).
pub open spec fn box_contains(b: Aabb, p: Vec3) -> bool {
    &&& b.x.min <= p.x <= b.x.max
    &&& b.y.min <= p.y <= b.y.max
    &&& b.z.min <= p.z <= b.z.max
}

/// Every face coordinate of b is at most m in magnitude.
pub open spec fn box_bounded(b: Aabb, m: int) -> bool {
    &&& -m <= b.x.min <= m && -m <= b.x.max <= m
    &&& -m <= b.y.min <= m && -m <= b.y.max <= m
    &&& -m <= b.z.min <= m && -m <= b.z.max <= m
}

/// b1 lies entirely inside b2 (any point of b1 is a point of b2).
pub open spec fn box_inside(b1: Aabb, b2: Aabb) -> bool {
    &&& b2.x.min <= b1.x.min && b1.x.max <= b2.x.max
    &&& b2.y.min <= b1.y.min && b1.y.max <= b2.y.max
    &&& b2.z.min <= b1.z.min && b1.z.max <= b2.z.max
}

/// One axis of the slab condition: the ray's coordinate at parameter t lies
/// within the axis interval.
pub open spec fn axis_ok(iv: Interval, o: int, d: int, t: int) -> bool {
    iv.min <= o + fmul(t, d) <= iv.max
}

/// The ray reaches a point inside the box at parameter t.
pub open spec fn point_in_box_at(b: Aabb, r: Ray, t: int) -> bool {
    &&& axis_ok(b.x, r.origin().x as int, r.direction().x as int, t)
    &&& axis_ok(b.y, r.origin().y as int, r.direction().y as int, t)
    &&& axis_ok(b.z, r.origin().z as int, r.direction().z as int, t)
}

/// The brute-force slab predicate: some parameter strictly inside
/// (tmin, tmax) reaches a point inside the box.
pub open spec fn slab_hit(b: Aabb, r: Ray, tmin: int, tmax: int) -> bool {
    exists|t: int| tmin < t < tmax && #[trigger] point_in_box_at(b, r, t)
}

/// The exact feasible parameter interval of one slab axis: for d != 0,
/// axis_ok(iv, o, d, t) holds exactly for alo <= t <= ahi.
fn axis_t_range(iv: &Interval, o: i64, d: i64) -> (res: (i128, i128))
    requires
        d != 0,
    ensures
        forall|t: int| res.0 <= t <= res.1 <==> #[trigger] axis_ok(*iv, o as int, d as int, t),
{
    let lo: i128 = iv.min as i128 - o as i128;
    let hi: i128 = iv.max as i128 - o as i128;
    proof {
        lemma_mul_abs_bound(lo as int, FP as int, 0x2_0000_0000_0000_0000, 0x1_0000);
        lemma_mul_abs_bound(hi + 1, FP as int, 0x2_0000_0000_0000_0000, 0x1_0000);
    }
    // The coordinate condition lo <= (t*d)/FP <= hi is equivalent to
    // c1 <= t*d <= c2 with these integer thresholds.
    let c1: i128 = lo * (FP as i128);
    let c2: i128 = (hi + 1) * (FP as i128) - 1;
    let alo: i128;
    let ahi: i128;
    if d > 0 {
        let q1 = div_floor_i128(c1 - 1, d as i128);
        proof {
            crate::fixed::lemma_div_abs_bound(c1 as int - 1, d as int, 0x4_0000_0000_0000_0000_0000int);
        }
        alo = q1 + 1;
        ahi = div_floor_i128(c2, d as i128);
    } else {
        let e: i128 = -(d as i128);
        let q1 = div_floor_i128(-c2 - 1, e);
        proof {
            crate::fixed::lemma_div_abs_bound(-(c2 as int) - 1, e as int, 0x4_0000_0000_0000_0000_0000int);
        }
        alo = q1 + 1;
        ahi = div_floor_i128(-c1, e);
    }
    proof {
        let loi = lo as int;
        let hii = hi as int;
        let di = d as int;
        let fp = FP as int;
        assert forall|t: int| alo <= t <= ahi <==> #[trigger] axis_ok(*iv, o as int, d as int, t) by {
            let td = t * di;
            // coordinate bounds <-> threshold bounds on t*d
            lemma_div_ge_iff(td, loi, fp);
            lemma_div_ge_iff(td, hii + 1, fp);
            assert(loi * fp == c1 as int);
            assert((hii + 1) * fp == c2 as int + 1);
            // threshold bounds on t*d <-> interval bounds on t
            if di > 0 {
                lemma_div_ge_iff(c1 as int - 1, t, di);
                lemma_div_ge_iff(c2 as int, t, di);
            } else {
                let e = -di;
                assert(t * di == -(t * e)) by (nonlinear_arith)
                    requires
                        e == -di,
                ;
                lemma_div_ge_iff(-(c2 as int) - 1, t, e);
                lemma_div_ge_iff(-(c1 as int), t, e);
            }
        }
    }
    (alo, ahi)
}

impl Aabb {
    /// Assemble a box from three axis intervals, padding degenerate axes.
    pub fn new(x: Interval, y: Interval, z: Interval) -> (r: Aabb)
        requires
            -0x2000_0000_0000_0000 <= x.min <= 0x2000_0000_0000_0000,
            -0x2000_0000_0000_0000 <= x.max <= 0x2000_0000_0000_0000,
            -0x2000_0000_0000_0000 <= y.min <= 0x2000_0000_0000_0000,
            -0x2000_0000_0000_0000 <= y.max <= 0x2000_0000_0000_0000,
            -0x2000_0000_0000_0000 <= z.min <= 0x2000_0000_0000_0000,
            -0x2000_0000_0000_0000 <= z.max <= 0x2000_0000_0000_0000,
        ensures
            r == (Aabb { x, y, z }).padded(),
    {
        let mut bbox = Aabb { x, y, z };
        bbox.pad_to_minimums();
        bbox
    }

    /// The result of padding every thin axis of the box.
    pub open spec fn padded(self) -> Aabb {
        Aabb {
            x: pad_interval(self.x),
            y: pad_interval(self.y),
            z: pad_interval(self.z),
        }
    }

    /// The smallest box containing two points, then padded.
    pub fn new_point(a: Point3, b: Point3) -> (r: Aabb)
        requires
            bounded(a, 0x2000_0000_0000_0000),
            bounded(b, 0x2000_0000_0000_0000),
        ensures
            r == (Aabb {
                x: span(a.x as int, b.x as int),
                y: span(a.y as int, b.y as int),
                z: span(a.z as int, b.z as int),
            }).padded(),
            box_contains(r, a),
            box_contains(r, b),
    {
        let bbox = Aabb {
            x: if a.x <= b.x {
                Interval::new(a.x, b.x)
            } else {
                Interval::new(b.x, a.x)
            },
            y: if a.y <= b.y {
                Interval::new(a.y, b.y)
            } else {
                Interval::new(b.y, a.y)
            },
            z: if a.z <= b.z {
                Interval::new(a.z, b.z)
            } else {
                Interval::new(b.z, a.z)
            },
        };
        let mut bbox = bbox;
        bbox.pad_to_minimums();
        bbox
    }

    /// The smallest box containing two boxes.
    pub fn new_boxes(b1: &Aabb, b2: &Aabb) -> (r: Aabb)
        ensures
            r.x == merge_spec(b1.x, b2.x),
            r.y == merge_spec(b1.y, b2.y),
            r.z == merge_spec(b1.z, b2.z),
            box_inside(*b1, r),
            box_inside(*b2, r),
    {
        Aabb {
            x: Interval::merge(&b1.x, &b2.x),
            y: Interval::merge(&b1.y, &b2.y),
            z: Interval::merge(&b1.z, &b2.z),
        }
    }

    /// The empty box: merging it with any box gives that box back.
    pub fn empty() -> (r: Aabb)
        ensures
            r.x.min == crate::interval::INF && r.x.max == -crate::interval::INF,
            r.y.min == crate::interval::INF && r.y.max == -crate::interval::INF,
            r.z.min == crate::interval::INF && r.z.max == -crate::interval::INF,
    {
        Aabb { x: Interval::empty(), y: Interval::empty(), z: Interval::empty() }
    }

    pub fn axis_interval(&self, n: usize) -> (r: &Interval)
        ensures
            r == if n == 1 { &self.y } else if n == 2 { &self.z } else { &self.x },
    {
        if n == 1 {
            return &self.y;
        }
        if n == 2 {
            return &self.z;
        }
        &self.x
    }

    /// The exact ray-slab test: true exactly when some fixed-point parameter
    /// strictly inside ray_t reaches a point inside the box.
    pub fn hit(&self, r: &Ray, ray_t: Interval) -> (res: bool)
        ensures
            res == slab_hit(*self, *r, ray_t.min as int, ray_t.max as int),
    {
        let tmin = ray_t.min;
        let tmax = ray_t.max;
        let mut tlo: i128 = tmin as i128 + 1;
        let mut thi: i128 = tmax as i128 - 1;
        // x axis
        if r.direction().x() == 0 {
            if !(self.x.min <= r.origin().x() && r.origin().x() <= self.x.max) {
                proof {
                    assert forall|t: int| !point_in_box_at(*self, *r, t) by {
                        assert(fmul(t, 0) == 0) by {
                            assert(t * 0 == 0) by (nonlinear_arith);
                        }
                    }
                }
                return false;
            }
            proof {
                assert forall|t: int| axis_ok(
                    self.x,
                    r.origin().x as int,
                    r.direction().x as int,
                    t,
                ) by {
                    assert(fmul(t, 0) == 0) by {
                        assert(t * 0 == 0) by (nonlinear_arith);
                    }
                }
            }
        } else {
            let (alo, ahi) = axis_t_range(&self.x, r.origin().x(), r.direction().x());
            if alo > tlo {
                tlo = alo;
            }
            if ahi < thi {
                thi = ahi;
            }
        }
        assert(forall|t: int| tlo <= t <= thi <==> (tmin < t < tmax && #[trigger] axis_ok(
            self.x,
            r.origin().x as int,
            r.direction().x as int,
            t,
        )));
        // y axis
        let ghost tlo_x = tlo;
        let ghost thi_x = thi;
        if r.direction().y() == 0 {
            if !(self.y.min <= r.origin().y() && r.origin().y() <= self.y.max) {
                proof {
                    assert forall|t: int| !point_in_box_at(*self, *r, t) by {
                        assert(fmul(t, 0) == 0) by {
                            assert(t * 0 == 0) by (nonlinear_arith);
                        }
                    }
                }
                return false;
            }
            proof {
                assert forall|t: int| axis_ok(
                    self.y,
                    r.origin().y as int,
                    r.direction().y as int,
                    t,
                ) by {
                    assert(fmul(t, 0) == 0) by {
                        assert(t * 0 == 0) by (nonlinear_arith);
                    }
                }
            }
        } else {
            let (alo, ahi) = axis_t_range(&self.y, r.origin().y(), r.direction().y());
            if alo > tlo {
                tlo = alo;
            }
            if ahi < thi {
                thi = ahi;
            }
        }
        assert(forall|t: int| tlo <= t <= thi <==> (tmin < t < tmax && #[trigger] axis_ok(
            self.x,
            r.origin().x as int,
            r.direction().x as int,
            t,
        ) && axis_ok(self.y, r.origin().y as int, r.direction().y as int, t)));
        // z axis
        if r.direction().z() == 0 {
            if !(self.z.min <= r.origin().z() && r.origin().z() <= self.z.max) {
                proof {
                    assert forall|t: int| !point_in_box_at(*self, *r, t) by {
                        assert(fmul(t, 0) == 0) by {
                            assert(t * 0 == 0) by (nonlinear_arith);
                        }
                    }
                }
                return false;
            }
            proof {
                assert forall|t: int| axis_ok(
                    self.z,
                    r.origin().z as int,
                    r.direction().z as int,
                    t,
                ) by {
                    assert(fmul(t, 0) == 0) by {
                        assert(t * 0 == 0) by (nonlinear_arith);
                    }
                }
            }
        } else {
            let (alo, ahi) = axis_t_range(&self.z, r.origin().z(), r.direction().z());
            if alo > tlo {
                tlo = alo;
            }
            if ahi < thi {
                thi = ahi;
            }
        }
        assert(forall|t: int| tlo <= t <= thi <==> (tmin < t < tmax
            && #[trigger] point_in_box_at(*self, *r, t)));
        if tlo <= thi {
            assert(point_in_box_at(*self, *r, tlo as int));
            true
        } else {
            false
        }
    }

    /// The axis along which the box is widest; ties go to the later axis.
    pub fn longest_axis(&self) -> (r: usize)
        requires
            i64::MIN <= self.x.max - self.x.min <= i64::MAX,
            i64::MIN <= self.y.max - self.y.min <= i64::MAX,
            i64::MIN <= self.z.max - self.z.min <= i64::MAX,
        ensures
            r == longest_axis_spec(*self),
    {
        let sx = self.x.size();
        let sy = self.y.size();
        let sz = self.z.size();
        if sx > sy {
            if sx > sz {
                0
            } else {
                2
            }
        } else {
            if sy > sz {
                1
            } else {
                2
            }
        }
    }

    /// Pad every axis thinner than PAD_MIN.
    pub fn pad_to_minimums(&mut self)
        requires
            -0x2000_0000_0000_0000 <= old(self).x.min <= 0x2000_0000_0000_0000,
            -0x2000_0000_0000_0000 <= old(self).x.max <= 0x2000_0000_0000_0000,
            -0x2000_0000_0000_0000 <= old(self).y.min <= 0x2000_0000_0000_0000,
            -0x2000_0000_0000_0000 <= old(self).y.max <= 0x2000_0000_0000_0000,
            -0x2000_0000_0000_0000 <= old(self).z.min <= 0x2000_0000_0000_0000,
            -0x2000_0000_0000_0000 <= old(self).z.max <= 0x2000_0000_0000_0000,
        ensures
            *final(self) == old(self).padded(),
    {
        if self.x.max - self.x.min < PAD_MIN {
            self.x = self.x.expand(PAD_MIN);
        }
        if self.y.max - self.y.min < PAD_MIN {
            self.y = self.y.expand(PAD_MIN);
        }
        if self.z.max - self.z.min < PAD_MIN {
            self.z = self.z.expand(PAD_MIN);
        }
    }

    /// The box translated by an offset.
    pub fn shift(&self, offset: &Vec3) -> (r: Aabb)
        requires
            i64::MIN <= self.x.min + offset.x <= i64::MAX,
            i64::MIN <= self.x.max + offset.x <= i64::MAX,
            i64::MIN <= self.y.min + offset.y <= i64::MAX,
            i64::MIN <= self.y.max + offset.y <= i64::MAX,
            i64::MIN <= self.z.min + offset.z <= i64::MAX,
            i64::MIN <= self.z.max + offset.z <= i64::MAX,
        ensures
            r.x.min == self.x.min + offset.x,
            r.x.max == self.x.max + offset.x,
            r.y.min == self.y.min + offset.y,
            r.y.max == self.y.max + offset.y,
            r.z.min == self.z.min + offset.z,
            r.z.max == self.z.max + offset.z,
    {
        Aabb {
            x: self.x.shift(offset.x),
            y: self.y.shift(offset.y),
            z: self.z.shift(offset.z),
        }
    }
}

/// The interval from the smaller to the larger of two values.
pub open spec fn span(a: int, b: int) -> Interval {
    if a <= b {
        Interval { min: a as i64, max: b as i64 }
    } else {
        Interval { min: b as i64, max: a as i64 }
    }
}

/// The union of two boxes, axis by axis.
pub open spec fn merge_box(a: Aabb, b: Aabb) -> Aabb {
    Aabb { x: merge_spec(a.x, b.x), y: merge_spec(a.y, b.y), z: merge_spec(a.z, b.z) }
}

/// A point of an inner box is a point of any enclosing box.
pub proof fn lemma_inside_contains(b1: Aabb, b2: Aabb, p: Vec3)
    requires
        box_inside(b1, b2),
        box_contains(b1, p),
    ensures
        box_contains(b2, p),
{
}

/// The union of two intervals, as merge computes it.
pub open spec fn merge_spec(a: Interval, b: Interval) -> Interval {
    Interval {
        min: if a.min <= b.min { a.min } else { b.min },
        max: if a.max >= b.max { a.max } else { b.max },
    }
}

/// An interval expanded to the minimum thickness if it is too thin.
pub open spec fn pad_interval(iv: Interval) -> Interval {
    if iv.max - iv.min < PAD_MIN {
        Interval { min: (iv.min - PAD_MIN / 2) as i64, max: (iv.max + PAD_MIN / 2) as i64 }
    } else {
        iv
    }
}

/// The index of the longest axis, with ties toward the later axis.
pub open spec fn longest_axis_spec(b: Aabb) -> usize {
    let sx = b.x.max - b.x.min;
    let sy = b.y.max - b.y.min;
    let sz = b.z.max - b.z.min;
    if sx > sy {
        if sx > sz {
            0
        } else {
            2
        }
    } else {
        if sy > sz {
            1
        } else {
            2
        }
    }
}

} // verus!
