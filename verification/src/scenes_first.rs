//! The two staging scenes of the first, simpler design: the same spheres
//! without motion blur, textures or lights.
use vstd::prelude::*;
use crate::camera::Camera;
use crate::fixed::FP;
use crate::material::{Material, Lambertian, Metal, Dialectric};
use crate::object::{Object, HittableList};
use crate::rng::{Rng64, fresh_seed};
use crate::scenes::{Scene, scene_wf, push_mat};
use crate::sphere::Sphere;
use crate::vec3::Vec3;
use crate::camera::mats_wf;
use crate::object::obj_wf;
use crate::bvh::buildable;

verus! {

/// Three spheres over a large ground sphere, through a defocused lens.
pub fn till_final() -> (s: Scene)
    ensures
        scene_wf(s),
        s.materials@.len() == 5,
        s.materials@[0] == Lambertian::lamb_solid(Vec3 { x: 52429i64, y: 52429i64, z: 0i64 }),
        s.materials@[2] == Material::Diel(Dialectric { refraction_index: 98304, fuzz: FP as i64 }),
        s.materials@[3] == Material::Diel(Dialectric { refraction_index: 43691, fuzz: FP as i64 }),
        s.materials@[4] == Material::Met(
            Metal { albedo: Vec3 { x: 52429i64, y: 39322i64, z: 13107i64 }, fuzz: FP as i64 },
        ),
        s.world matches Object::List(l) ==> ({
            &&& l.objects@.len() == 5
            &&& crate::scenes::sphere_at(
                l.objects@,
                0,
                Vec3 { x: 0i64, y: -6586368i64, z: -65536i64 },
                6553600,
                0,
            )
            &&& crate::scenes::sphere_at(
                l.objects@,
                4,
                Vec3 { x: 65536i64, y: 0i64, z: -65536i64 },
                32768,
                4,
            )
        }),
        s.world is List,
        s.cam.aspect_ratio == 116508 && s.cam.image_width == 300 && s.cam.samples_per_pixel == 60
            && s.cam.max_depth == 50 && s.cam.vfov == 50 * FP && s.cam.defocus_angle == 10 * FP
            && s.cam.focus_dist == 222822,
        s.cam.lookfrom == (Vec3 { x: -131072i64, y: 131072i64, z: 65536i64 }),
        s.cam.background == (Vec3 { x: 45875i64, y: 52429i64, z: 65536i64 }),
{
    let mut mats: Vec<Material> = Vec::new();
    let ground = push_mat(&mut mats, Lambertian::new(Vec3::new(52429, 52429, 0)));
    let center = push_mat(&mut mats, Lambertian::new(Vec3::new(6554, 13107, 32768)));
    let left = push_mat(&mut mats, Dialectric::new(98304, FP));
    let bubble = push_mat(&mut mats, Dialectric::new(43691, FP));
    let right = push_mat(&mut mats, Metal::new(Vec3::new(52429, 39322, 13107), FP));
    let mut world = HittableList::new();
    world.add(Object::Sphere(Sphere::new(Vec3::new(0, -6586368, -65536), 6553600, ground)));
    world.add(Object::Sphere(Sphere::new(Vec3::new(0, 0, -78643), 32768, center)));
    world.add(Object::Sphere(Sphere::new(Vec3::new(-65536, 0, -65536), 32768, left)));
    world.add(Object::Sphere(Sphere::new(Vec3::new(-65536, 0, -65536), 26214, bubble)));
    world.add(Object::Sphere(Sphere::new(Vec3::new(65536, 0, -65536), 32768, right)));
    let mut cam = Camera::new(116508, 300, 60, 50, 50 * FP, 10 * FP, 222822);
    cam.lookfrom = Vec3::new(-131072, 131072, 65536);
    cam.lookat = Vec3::new(0, 0, -65536);
    cam.vup = Vec3::new(0, FP, 0);
    cam.background = Vec3::new(45875, 52429, 65536);
    Scene { cam, world: Object::List(world), materials: mats }
}

/// The wide final scene of the first design: many random small spheres and
/// three large ones.
pub fn end() -> (s: Scene)
    ensures
        scene_wf(s),
        s.materials@.len() >= 4,
        s.materials@[0] == Lambertian::lamb_solid(Vec3 { x: 32768i64, y: 32768i64, z: 32768i64 }),
        s.materials@[s.materials@.len() - 3] == Material::Diel(
            Dialectric { refraction_index: 98304, fuzz: 0 },
        ),
        s.materials@[s.materials@.len() - 2] == Lambertian::lamb_solid(
            Vec3 { x: 26214i64, y: 13107i64, z: 6554i64 },
        ),
        s.materials@[s.materials@.len() - 1] == Material::Met(
            Metal { albedo: Vec3 { x: 45875i64, y: 39322i64, z: 32768i64 }, fuzz: 0 },
        ),
        s.world matches Object::List(l) ==> ({
            &&& l.objects@.len() >= 4
            &&& crate::scenes::sphere_at(
                l.objects@,
                l.objects@.len() - 3,
                Vec3 { x: 0i64, y: FP as i64, z: 0i64 },
                FP as int,
                s.materials@.len() - 3,
            )
            &&& crate::scenes::sphere_at(
                l.objects@,
                l.objects@.len() - 2,
                Vec3 { x: (-4 * FP) as i64, y: FP as i64, z: 0i64 },
                FP as int,
                s.materials@.len() - 2,
            )
            &&& crate::scenes::sphere_at(
                l.objects@,
                l.objects@.len() - 1,
                Vec3 { x: (4 * FP) as i64, y: FP as i64, z: 0i64 },
                FP as int,
                s.materials@.len() - 1,
            )
        }),
        s.world is List,
        s.cam.aspect_ratio == 116508 && s.cam.image_width == 400 && s.cam.samples_per_pixel == 100
            && s.cam.max_depth == 50 && s.cam.vfov == 20 * FP && s.cam.defocus_angle == 39322
            && s.cam.focus_dist == 10 * FP,
        s.cam.lookfrom == (Vec3 { x: (13 * FP) as i64, y: (2 * FP) as i64, z: (3 * FP) as i64 }),
        s.cam.background == (Vec3 { x: 45875i64, y: 52429i64, z: 65536i64 }),
{
    end_seeded(fresh_seed())
}

/// The same scene from an explicit seed.
pub fn end_seeded(seed: u64) -> (s: Scene)
    ensures
        scene_wf(s),
        s.materials@.len() >= 4,
        s.materials@[0] == Lambertian::lamb_solid(Vec3 { x: 32768i64, y: 32768i64, z: 32768i64 }),
        s.materials@[s.materials@.len() - 3] == Material::Diel(
            Dialectric { refraction_index: 98304, fuzz: 0 },
        ),
        s.materials@[s.materials@.len() - 2] == Lambertian::lamb_solid(
            Vec3 { x: 26214i64, y: 13107i64, z: 6554i64 },
        ),
        s.materials@[s.materials@.len() - 1] == Material::Met(
            Metal { albedo: Vec3 { x: 45875i64, y: 39322i64, z: 32768i64 }, fuzz: 0 },
        ),
        s.world matches Object::List(l) ==> ({
            &&& l.objects@.len() >= 4
            &&& crate::scenes::sphere_at(
                l.objects@,
                l.objects@.len() - 3,
                Vec3 { x: 0i64, y: FP as i64, z: 0i64 },
                FP as int,
                s.materials@.len() - 3,
            )
            &&& crate::scenes::sphere_at(
                l.objects@,
                l.objects@.len() - 2,
                Vec3 { x: (-4 * FP) as i64, y: FP as i64, z: 0i64 },
                FP as int,
                s.materials@.len() - 2,
            )
            &&& crate::scenes::sphere_at(
                l.objects@,
                l.objects@.len() - 1,
                Vec3 { x: (4 * FP) as i64, y: FP as i64, z: 0i64 },
                FP as int,
                s.materials@.len() - 1,
            )
        }),
        s.world is List,
        s.cam.aspect_ratio == 116508 && s.cam.image_width == 400 && s.cam.samples_per_pixel == 100
            && s.cam.max_depth == 50 && s.cam.vfov == 20 * FP && s.cam.defocus_angle == 39322
            && s.cam.focus_dist == 10 * FP,
        s.cam.lookfrom == (Vec3 { x: (13 * FP) as i64, y: (2 * FP) as i64, z: (3 * FP) as i64 }),
        s.cam.background == (Vec3 { x: 45875i64, y: 52429i64, z: 65536i64 }),
{
    let mut rng = Rng64::new(seed);
    let mut mats: Vec<Material> = Vec::new();
    let ground = push_mat(&mut mats, Lambertian::new(Vec3::new(32768, 32768, 32768)));
    let mut world = HittableList::new();
    world.add(Object::Sphere(Sphere::new(Vec3::new(0, -65536000, 0), 65536000, ground)));
    let mut a: i64 = -11;
    while a <= 11
        invariant
            mats_wf(mats@),
            obj_wf(Object::List(world)),
            -11 <= a <= 12,
            forall|j: int|
                0 <= j < world.objects@.len() ==> #[trigger] buildable(world.objects@[j]),
            mats@.len() >= 1,
            mats@[0] == Lambertian::lamb_solid(Vec3 { x: 32768i64, y: 32768i64, z: 32768i64 }),
            world.objects@.len() >= 1,
        decreases 12 - a,
    {
        let mut b: i64 = -11;
        while b <= 11
            invariant
                mats_wf(mats@),
                obj_wf(Object::List(world)),
                -11 <= a <= 11,
                -11 <= b <= 12,
                forall|j: int|
                    0 <= j < world.objects@.len() ==> #[trigger] buildable(world.objects@[j]),
                mats@.len() >= 1,
                mats@[0] == Lambertian::lamb_solid(Vec3 { x: 32768i64, y: 32768i64, z: 32768i64 }),
                world.objects@.len() >= 1,
            decreases 12 - b,
        {
            let choose_mat = rng.next_unit_fp();
            let cx = a * FP + rng.next_range_fp(0, 58982);
            let cz = b * FP + rng.next_range_fp(0, 58982);
            let center = Vec3::new(cx, 13107, cz);
            let diff = center.sub(&Vec3::new(4 * FP, 13107, 0));
            if diff.length() > 58982 {
                if choose_mat < 52429 {
                    let c1 = Vec3::random(&mut rng);
                    let c2 = Vec3::random(&mut rng);
                    proof {
                        crate::fixed::lemma_fmul_unit_abs(c1.x as int, c2.x as int, 0x1_0000);
                        crate::fixed::lemma_fmul_unit_abs(c1.y as int, c2.y as int, 0x1_0000);
                        crate::fixed::lemma_fmul_unit_abs(c1.z as int, c2.z as int, 0x1_0000);
                    }
                    let albedo = c1.mul_elem(&c2);
                    let mat = push_mat(&mut mats, Lambertian::new(albedo));
                    world.add(Object::Sphere(Sphere::new(center, 13107, mat)));
                } else if choose_mat < 62259 {
                    let albedo = Vec3::random(&mut rng);
                    let fuzz = rng.next_range_fp(0, 32768);
                    let mat = push_mat(&mut mats, Metal::new(albedo, fuzz));
                    world.add(Object::Sphere(Sphere::new(center, 13107, mat)));
                } else {
                    let mat = push_mat(&mut mats, Dialectric::new(98304, 0));
                    world.add(Object::Sphere(Sphere::new(center, 13107, mat)));
                }
            }
            b = b + 1;
        }
        a = a + 1;
    }
    let m1 = push_mat(&mut mats, Dialectric::new(98304, 0));
    let big1 = Sphere::new(Vec3::new(0, FP, 0), FP, m1);
    world.add(Object::Sphere(big1));
    let m2 = push_mat(&mut mats, Lambertian::new(Vec3::new(26214, 13107, 6554)));
    let big2 = Sphere::new(Vec3::new(-4 * FP, FP, 0), FP, m2);
    world.add(Object::Sphere(big2));
    let m3 = push_mat(&mut mats, Metal::new(Vec3::new(45875, 39322, 32768), 0));
    let big3 = Sphere::new(Vec3::new(4 * FP, FP, 0), FP, m3);
    world.add(Object::Sphere(big3));
    proof {
        let n = world.objects@.len() as int;
        assert(world.objects@[n - 3] == Object::Sphere(big1));
        assert(world.objects@[n - 2] == Object::Sphere(big2));
        assert(world.objects@[n - 1] == Object::Sphere(big3));
    }
    let mut cam = Camera::new(116508, 400, 100, 50, 20 * FP, 39322, 10 * FP);
    cam.lookfrom = Vec3::new(13 * FP, 2 * FP, 3 * FP);
    cam.lookat = Vec3::new(0, 0, 0);
    cam.vup = Vec3::new(0, FP, 0);
    cam.background = Vec3::new(45875, 52429, 65536);
    Scene { cam, world: Object::List(world), materials: mats }
}

} // verus!
