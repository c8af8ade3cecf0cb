// Exercises the fixed-point math and the intersection engine from outside.
use raytracer::aabb::Aabb;
use raytracer::fixed::{FP, isqrt, fp_mul, fp_div, fp_sqrt};
use raytracer::interval::{Interval, INF};
use raytracer::material::{Dialectric, Lambertian, Material, Metal};
use raytracer::object::{HittableList, Object, Translate, RotateY, ConstantMedium};
use raytracer::quad::{boxx, Quad};
use raytracer::ray::Ray;
use raytracer::rng::Rng64;
use raytracer::sphere::Sphere;
use raytracer::triangle::Triangle;
use raytracer::vec3::Vec3;
use raytracer::color::{write_color, linear_to_gamma};
use raytracer::hit::HitRecord;

fn v(x: i64, y: i64, z: i64) -> Vec3 {
    Vec3::new(x, y, z)
}

#[test]
fn isqrt_exact_values() {
    assert_eq!(isqrt(0), 0);
    assert_eq!(isqrt(1), 1);
    assert_eq!(isqrt(3), 1);
    assert_eq!(isqrt(4), 2);
    assert_eq!(isqrt(65536 * 65536), 65536);
    assert_eq!(isqrt(65536 * 65536 - 1), 65535);
}

#[test]
fn fixed_point_ops() {
    assert_eq!(fp_mul(FP, FP), FP);
    assert_eq!(fp_mul(2 * FP, 3 * FP), 6 * FP);
    assert_eq!(fp_mul(-FP, FP), -FP);
    assert_eq!(fp_div(FP, 2 * FP), FP / 2);
    assert_eq!(fp_sqrt(4 * FP), 2 * FP);
    assert_eq!(fp_sqrt(FP), FP);
}

#[test]
fn interval_ops() {
    let iv = Interval::new(-FP, FP);
    assert!(iv.contains(FP));
    assert!(!iv.surrounds(FP));
    assert!(iv.surrounds(0));
    assert_eq!(iv.clamp(3 * FP), FP);
    assert_eq!(iv.clamp(-3 * FP), -FP);
    assert_eq!(iv.clamp(5), 5);
    let merged = Interval::merge(&Interval::new(0, 10), &Interval::new(-5, 3));
    assert_eq!(merged.min, -5);
    assert_eq!(merged.max, 10);
    let e = Interval::empty();
    let m2 = Interval::merge(&e, &Interval::new(1, 2));
    assert_eq!(m2.min, 1);
    assert_eq!(m2.max, 2);
    assert_eq!(Interval::new(0, 10).expand(4).min, -2);
    assert_eq!(Interval::new(0, 10).expand(4).max, 12);
    assert_eq!(Interval::new(0, 10).size(), 10);
}

#[test]
fn gamma_encoding() {
    assert_eq!(linear_to_gamma(FP), FP);
    assert_eq!(linear_to_gamma(0), 0);
    assert_eq!(linear_to_gamma(-5), 0);
    assert_eq!(linear_to_gamma(FP / 4), FP / 2);
    let bytes = write_color(&v(FP, 0, FP / 4));
    assert_eq!(bytes.0, 255);
    assert_eq!(bytes.1, 0);
    assert_eq!(bytes.2, 128);
}

#[test]
fn sphere_hit_exact_parameter() {
    // unit sphere at the origin, ray from z = -3 straight in: first crossing
    // at parameter 2 exactly
    let s = Sphere::new(v(0, 0, 0), FP, 0);
    let r = Ray::new(v(0, 0, -3 * FP), v(0, 0, FP), 0);
    let h = s.hit(&r, &Interval::new(16, INF)).expect("must hit");
    assert_eq!(h.t, 2 * FP);
    assert_eq!(h.p.x, 0);
    assert_eq!(h.p.y, 0);
    assert_eq!(h.p.z, -FP);
    assert!(h.front_face);
    // the normal points back against the ray
    assert!(h.normal.z < 0);
}

#[test]
fn sphere_miss() {
    let s = Sphere::new(v(0, 0, 0), FP, 0);
    let r = Ray::new(v(0, 3 * FP, -3 * FP), v(0, 0, FP), 0);
    assert!(s.hit(&r, &Interval::new(16, INF)).is_none());
}

#[test]
fn aabb_slab_matches_brute_force_axis_rays() {
    let b = Aabb::new(
        Interval::new(-FP, FP),
        Interval::new(-FP, FP),
        Interval::new(-FP, FP),
    );
    // straight hit through the middle
    let r = Ray::new(v(0, 0, -3 * FP), v(0, 0, FP), 0);
    assert!(b.hit(&r, Interval::new(0, INF)));
    // ray exactly on the padded boundary plane, aimed along it
    let r2 = Ray::new(v(FP, 0, -3 * FP), v(0, 0, FP), 0);
    assert!(b.hit(&r2, Interval::new(0, INF)));
    // parallel ray outside the slab
    let r3 = Ray::new(v(2 * FP, 0, -3 * FP), v(0, 0, FP), 0);
    assert!(!b.hit(&r3, Interval::new(0, INF)));
    // hit lies beyond the allowed range
    assert!(!b.hit(&r, Interval::new(0, FP)));
    // brute force over integer parameters agrees on a coarse grid
    for ox in [-3 * FP, -FP / 2, 0, FP / 2, 3 * FP] {
        let rr = Ray::new(v(ox, 0, -3 * FP), v(0, 0, FP), 0);
        let fast = b.hit(&rr, Interval::new(0, 10 * FP));
        let mut brute = false;
        let mut t = 1;
        while t < 10 * FP {
            let p = rr.at(t);
            if p.x >= -FP && p.x <= FP && p.y >= -FP && p.y <= FP && p.z >= -FP && p.z <= FP {
                brute = true;
                break;
            }
            t += 64;
        }
        assert_eq!(fast, brute, "slab vs brute force at ox={}", ox);
    }
}

#[test]
fn quad_hit_interior_and_reject() {
    let q = Quad::new(v(-FP, -FP, 0), v(2 * FP, 0, 0), v(0, 2 * FP, 0), 0);
    let r = Ray::new(v(0, 0, -2 * FP), v(0, 0, FP), 0);
    let h = q.hit(&r, &Interval::new(16, INF)).expect("quad hit");
    assert_eq!(h.t, 2 * FP);
    // planar coordinates at the center of the parallelogram
    assert!((h.u - FP / 2).abs() <= 2);
    assert!((h.v - FP / 2).abs() <= 2);
    let r_out = Ray::new(v(3 * FP, 0, -2 * FP), v(0, 0, FP), 0);
    assert!(q.hit(&r_out, &Interval::new(16, INF)).is_none());
    let r_par = Ray::new(v(0, 0, -2 * FP), v(FP, 0, 0), 0);
    assert!(q.hit(&r_par, &Interval::new(16, INF)).is_none());
}

#[test]
fn is_interior_bounds() {
    let mut rec = HitRecord::new();
    assert!(Quad::is_interior(0, FP, &mut rec));
    assert_eq!(rec.u, 0);
    assert_eq!(rec.v, FP);
    assert!(!Quad::is_interior(-1, 0, &mut rec));
    assert!(!Quad::is_interior(0, FP + 1, &mut rec));
}

#[test]
fn triangle_hit_and_barycentric_reject() {
    let t = Triangle::new(v(-FP, -FP, 0), v(FP, -FP, 0), v(0, FP, 0), 0);
    let r = Ray::new(v(0, 0, -2 * FP), v(0, 0, FP), 0);
    let h = t.hit(&r, &Interval::new(16, INF)).expect("triangle hit");
    assert_eq!(h.t, 2 * FP);
    // a ray aimed outside the simplex misses
    let r_out = Ray::new(v(-FP, FP, -2 * FP), v(0, 0, FP), 0);
    assert!(t.hit(&r_out, &Interval::new(16, INF)).is_none());
}

#[test]
fn bvh_matches_linear_scan() {
    // a mixed scene: spheres, a quad and a box, queried by many rays both as
    // a flat list and behind the hierarchy
    let mut objs = Vec::new();
    let mut rng = Rng64::new(99);
    for k in 0..24i64 {
        let x = (k % 5 - 2) * FP;
        let y = (k % 3) * FP;
        let z = (k % 7 - 3) * FP;
        objs.push((x, y, z));
    }
    let mut list = HittableList::new();
    let mut list2 = HittableList::new();
    for &(x, y, z) in objs.iter() {
        list.add(Object::Sphere(Sphere::new(v(x, y, z), FP / 2, 0)));
        list2.add(Object::Sphere(Sphere::new(v(x, y, z), FP / 2, 0)));
    }
    list.add(Object::Quad(Quad::new(v(-4 * FP, -2 * FP, 4 * FP), v(8 * FP, 0, 0), v(0, 4 * FP, 0), 1)));
    list2.add(Object::Quad(Quad::new(v(-4 * FP, -2 * FP, 4 * FP), v(8 * FP, 0, 0), v(0, 4 * FP, 0), 1)));
    list.add(boxx(v(2 * FP, 2 * FP, 2 * FP), v(3 * FP, 3 * FP, 3 * FP), 2));
    list2.add(boxx(v(2 * FP, 2 * FP, 2 * FP), v(3 * FP, 3 * FP, 3 * FP), 2));
    let flat = Object::List(list2);
    let tree = raytracer::object::BvhNode::new(list);
    for _ in 0..500 {
        let ox = (rng.next_unit_fp() - FP / 2) * 12;
        let oy = (rng.next_unit_fp() - FP / 2) * 12;
        let oz = -8 * FP;
        let dx = (rng.next_unit_fp() - FP / 2) / 2;
        let dy = (rng.next_unit_fp() - FP / 2) / 2;
        let r = Ray::new(v(ox, oy, oz), v(dx, dy, FP), 0);
        let a = tree.hit(&r, &Interval::new(16, INF));
        let b = flat.hit(&r, &Interval::new(16, INF));
        match (a, b) {
            (None, None) => {},
            (Some(ha), Some(hb)) => {
                assert_eq!(ha.t, hb.t);
                assert_eq!(ha.p.x, hb.p.x);
                assert_eq!(ha.p.y, hb.p.y);
                assert_eq!(ha.p.z, hb.p.z);
                assert_eq!(ha.mat, hb.mat);
            },
            _ => panic!("hierarchy and linear scan disagree"),
        }
    }
}

#[test]
fn hits_stay_in_range_and_on_ray() {
    // every reported hit parameter lies strictly inside the query range and
    // the point is origin + t * direction
    let mut list = HittableList::new();
    list.add(Object::Sphere(Sphere::new(v(0, 0, 0), FP, 0)));
    list.add(boxx(v(-3 * FP, -3 * FP, 2 * FP), v(3 * FP, -2 * FP, 3 * FP), 1));
    let world = Object::List(list);
    let mut rng = Rng64::new(5);
    for _ in 0..300 {
        let ox = (rng.next_unit_fp() - FP / 2) * 8;
        let oy = (rng.next_unit_fp() - FP / 2) * 8;
        let r = Ray::new(v(ox, oy, -6 * FP), v(0, 0, FP), 0);
        if let Some(h) = world.hit(&r, &Interval::new(16, 20 * FP)) {
            assert!(16 < h.t && h.t < 20 * FP);
            let p = r.at(h.t);
            assert_eq!(p.x, h.p.x);
            assert_eq!(p.y, h.p.y);
            assert_eq!(p.z, h.p.z);
        }
    }
}

#[test]
fn translate_round_trip_exact() {
    let inner = Object::Sphere(Sphere::new(v(0, 0, 0), FP, 0));
    let off = v(3 * FP, FP, -2 * FP);
    let moved = Translate::new(inner, off);
    let r = Ray::new(v(3 * FP, FP, -8 * FP), v(0, 0, FP), 0);
    let h = moved.hit(&r, &Interval::new(16, INF)).expect("hit moved sphere");
    // shifting the hit point back recovers the point on the local ray exactly
    let local_ray = Ray::new(v(0, 0, -6 * FP), v(0, 0, FP), 0);
    let local_p = local_ray.at(h.t);
    assert_eq!(h.p.x - off.x, local_p.x);
    assert_eq!(h.p.y - off.y, local_p.y);
    assert_eq!(h.p.z - off.z, local_p.z);
}

#[test]
fn rotate_round_trip_within_tolerance() {
    let inner = Object::Sphere(Sphere::new(v(0, 0, 0), FP, 0));
    let rot = RotateY::new(inner, 30 * FP);
    let r = Ray::new(v(0, 0, -8 * FP), v(0, 0, FP), 0);
    let h = rot.hit(&r, &Interval::new(16, INF)).expect("hit rotated sphere");
    // the reported point is on the world ray; rotating it into the local
    // frame and back recovers it within a few fixed-point ulps
    let (s, c) = match &rot {
        Object::Rotated(rt) => (rt.sin_theta, rt.cos_theta),
        _ => unreachable!(),
    };
    let lx = (c as i128 * h.p.x as i128 - s as i128 * h.p.z as i128 >> 16) as i64;
    let lz = (s as i128 * h.p.x as i128 + c as i128 * h.p.z as i128 >> 16) as i64;
    let wx = (c as i128 * lx as i128 + s as i128 * lz as i128 >> 16) as i64;
    let wz = (-(s as i128) * lx as i128 + c as i128 * lz as i128 >> 16) as i64;
    assert!((wx - h.p.x).abs() <= 64, "x drift {}", wx - h.p.x);
    assert!((wz - h.p.z).abs() <= 64, "z drift {}", wz - h.p.z);
}

#[test]
fn medium_transmission_converges_to_expected_fraction() {
    // a slab of unit thickness and unit density: the fraction of rays that
    // pass through untouched approaches exp(-1)
    let slab = boxx(v(-50 * FP, -50 * FP, 0), v(50 * FP, 50 * FP, FP), 0);
    let medium = ConstantMedium::new(slab, FP, 0);
    let mut passed = 0u32;
    let n = 60u32;
    for ix in 0..n {
        for iy in 0..n {
            let x = (ix as i64 - 30) * FP + 7 * ix as i64 + 13;
            let y = (iy as i64 - 30) * FP + 11 * iy as i64 + 29;
            let r = Ray::new(v(x % (40 * FP), y % (40 * FP), -2 * FP), v(0, 0, FP), 0);
            if medium.hit(&r, &Interval::new(16, INF)).is_none() {
                passed += 1;
            }
        }
    }
    let frac = passed as f64 / (n * n) as f64;
    let expected = (-1.0f64).exp();
    assert!(
        (frac - expected).abs() < 0.06,
        "transmission {} vs {}",
        frac,
        expected
    );
}

#[test]
fn dielectric_total_internal_reflection_always_reflects() {
    // grazing incidence from inside dense glass: the ratio times the sine
    // exceeds one, so every scatter reflects (positive y direction here)
    let mats = vec![Dialectric::new(3 * FP / 2, 0)];
    let m = &mats[0];
    let mut rec = HitRecord::new();
    rec.p = v(0, 0, 0);
    rec.normal = v(0, FP, 0);
    rec.front_face = false; // leaving the dense medium
    let r_in = Ray::new(v(-4 * FP, FP, 0), v(4 * FP, -FP / 4, 0), 0);
    for seed in 0..64u64 {
        let mut rng = Rng64::new(seed + 1);
        let (_att, scattered) = match m {
            Material::Diel(_) => m.scatter(&r_in, &rec, &mut rng).expect("dielectric scatters"),
            _ => unreachable!(),
        };
        assert!(
            scattered.direction().y > 0,
            "expected reflection at seed {}",
            seed
        );
    }
}

#[test]
fn metal_absorbs_grazing_fuzz() {
    let mats = vec![Metal::new(v(FP / 2, FP / 2, FP / 2), 0), Lambertian::new(v(FP / 2, FP / 2, FP / 2))];
    let mut rec = HitRecord::new();
    rec.p = v(0, 0, 0);
    rec.normal = v(0, FP, 0);
    rec.front_face = true;
    let r_in = Ray::new(v(-4 * FP, 2 * FP, 0), v(4 * FP, -2 * FP, 0), 0);
    let mut rng = Rng64::new(3);
    let (att, scattered) = mats[0].scatter(&r_in, &rec, &mut rng).expect("mirror reflects");
    assert_eq!(att.x, FP / 2);
    assert!(scattered.direction().y > 0);
    // a diffuse surface always scatters and keeps its albedo
    let (att2, _s2) = mats[1].scatter(&r_in, &rec, &mut rng).expect("diffuse scatters");
    assert_eq!(att2.y, FP / 2);
}
