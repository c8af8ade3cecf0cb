//! Hard-coded demonstration scenes: each builds a material arena, a world of
//! hittables (usually behind a bounding-volume hierarchy) and a configured
//! camera.  Coordinates and colors are fixed-point literals.
use vstd::prelude::*;
use crate::aabb::box_bounded;
use crate::bvh::buildable;
use crate::object::BvhNode;
use crate::camera::{Camera, cam_config_wf, mats_wf};
use crate::fixed::FP;
use crate::material::{Material, Lambertian, Metal, Dialectric, DiffuseLight, Isotorpic, mat_wf};
use crate::object::{Object, HittableList, ConstantMedium, Translate, RotateY, obj_wf, bbox_of};
use crate::quad::{Quad, boxx, lemma_axis_aligned_quad};
use crate::rng::{Rng64, fresh_seed};
use crate::sphere::Sphere;
use crate::ray::Ray;
use crate::texture::{Texture, SolidColor, CheckerTexture, NoiseTexture, ImageTexture, COLOR_MAX};
use crate::triangle::Triangle;
use crate::vec3::{Vec3, Color, Point3, bounded, OBJ_MAX, RAY_MAX};

verus! {

/// A complete scene: the world, its material arena and the camera.
pub struct Scene {
    pub cam: Camera,
    pub world: Object,
    pub materials: Vec<Material>,
}

/// Everything a renderer needs of a scene holds.
pub open spec fn scene_wf(s: Scene) -> bool {
    &&& obj_wf(s.world)
    &&& box_bounded(bbox_of(s.world), RAY_MAX as int)
    &&& mats_wf(s.materials@)
    &&& cam_config_wf(s.cam)
}

/// Element k of the sequence is a static sphere with the given center,
/// radius and material index.
pub open spec fn sphere_at(l: Seq<Object>, k: int, c: Point3, rad: int, mi: int) -> bool {
    &&& l[k] matches Object::Sphere(sp)
    &&& (l[k] matches Object::Sphere(sp) ==> sp.center.origin() == c && sp.center.direction()
        == (Vec3 { x: 0i64, y: 0i64, z: 0i64 }) && sp.radius == rad && sp.mat == mi)
}

/// Element k of the sequence is a volumetric medium with the given inverse
/// density and phase material index.
pub open spec fn medium_at(l: Seq<Object>, k: int, inv_density: int, phase: int) -> bool {
    &&& l[k] matches Object::Medium(m)
    &&& (l[k] matches Object::Medium(m) ==> m.inv_density == inv_density && m.phase == phase)
}

/// Element k of the sequence is a quad with the given corner, edges and
/// material index.
pub open spec fn quad_at(l: Seq<Object>, k: int, q: Point3, u: Vec3, v: Vec3, mi: int) -> bool {
    &&& l[k] matches Object::Quad(f)
    &&& (l[k] matches Object::Quad(f) ==> f.q == q && f.u == u && f.v == v && f.mat == mi)
}

/// Add a material to the arena, returning its index.
pub fn push_mat(mats: &mut Vec<Material>, m: Material) -> (idx: usize)
    requires
        mat_wf(m),
        mats_wf(old(mats)@),
    ensures
        mats_wf(final(mats)@),
        final(mats)@ == old(mats)@.push(m),
        idx == old(mats)@.len(),
{
    let idx = mats.len();
    mats.push(m);
    proof {
        assert forall|i: int| 0 <= i < mats@.len() implies #[trigger] mat_wf(mats@[i]) by {
            if i < old(mats)@.len() {
                assert(mats@[i] == old(mats)@[i]);
            } else {
                assert(mats@[i] == m);
            }
        }
    }
    idx
}

/// A fixed-point quad whose edges run along single axes.
fn axis_quad(q: Point3, u: Vec3, v: Vec3, mat: usize) -> (o: Object)
    requires
        bounded(q, OBJ_MAX as int),
        bounded(u, OBJ_MAX as int),
        bounded(v, OBJ_MAX as int),
        -(OBJ_MAX as int) <= q.x + u.x + v.x <= OBJ_MAX as int,
        -(OBJ_MAX as int) <= q.y + u.y + v.y <= OBJ_MAX as int,
        -(OBJ_MAX as int) <= q.z + u.z + v.z <= OBJ_MAX as int,
        -(OBJ_MAX as int) <= q.x + u.x <= OBJ_MAX as int,
        -(OBJ_MAX as int) <= q.y + u.y <= OBJ_MAX as int,
        -(OBJ_MAX as int) <= q.z + u.z <= OBJ_MAX as int,
        -(OBJ_MAX as int) <= q.x + v.x <= OBJ_MAX as int,
        -(OBJ_MAX as int) <= q.y + v.y <= OBJ_MAX as int,
        -(OBJ_MAX as int) <= q.z + v.z <= OBJ_MAX as int,
        (u.x != 0 && u.y == 0 && u.z == 0) || (u.y != 0 && u.x == 0 && u.z == 0) || (u.z != 0
            && u.x == 0 && u.y == 0),
        (v.x != 0 && v.y == 0 && v.z == 0) || (v.y != 0 && v.x == 0 && v.z == 0) || (v.z != 0
            && v.x == 0 && v.y == 0),
        u.x != 0 ==> v.x == 0,
        u.y != 0 ==> v.y == 0,
        u.z != 0 ==> v.z == 0,
        u.x == 0 || 4096 <= u.x || u.x <= -4096,
        u.y == 0 || 4096 <= u.y || u.y <= -4096,
        u.z == 0 || 4096 <= u.z || u.z <= -4096,
        v.x == 0 || 4096 <= v.x || v.x <= -4096,
        v.y == 0 || 4096 <= v.y || v.y <= -4096,
        v.z == 0 || 4096 <= v.z || v.z <= -4096,
    ensures
        obj_wf(o),
        box_bounded(bbox_of(o), RAY_MAX as int),
        buildable(o),
        o matches Object::Quad(f) && f.q == q && f.u == u && f.v == v && f.mat == mat,
{
    proof {
        lemma_axis_aligned_quad(u, v);
    }
    Object::Quad(Quad::new(q, u, v, mat))
}

/// The three-sphere staging scene: a diffuse ground and center sphere, a
/// hollow glass sphere, and a fuzzy metal sphere under a light sky.
pub fn till_final() -> (s: Scene)
    ensures
        scene_wf(s),
        s.materials@.len() == 5,
        s.materials@[0] == Lambertian::lamb_solid(Vec3 { x: 52429i64, y: 52429i64, z: 0i64 }),
        s.materials@[1] == Lambertian::lamb_solid(Vec3 { x: 6554i64, y: 13107i64, z: 32768i64 }),
        s.materials@[2] == Material::Diel(Dialectric { refraction_index: 98304, fuzz: FP as i64 }),
        s.materials@[3] == Material::Diel(Dialectric { refraction_index: 43691, fuzz: FP as i64 }),
        s.materials@[4] == Material::Met(
            Metal { albedo: Vec3 { x: 52429i64, y: 39322i64, z: 13107i64 }, fuzz: FP as i64 },
        ),
        s.world matches Object::List(l) ==> ({
            &&& l.objects@.len() == 5
            &&& sphere_at(l.objects@, 0, Vec3 { x: 0i64, y: -6586368i64, z: -65536i64 }, 6553600, 0)
            &&& sphere_at(l.objects@, 1, Vec3 { x: 0i64, y: 0i64, z: -78643i64 }, 32768, 1)
            &&& sphere_at(l.objects@, 2, Vec3 { x: -65536i64, y: 0i64, z: -65536i64 }, 32768, 2)
            &&& sphere_at(l.objects@, 3, Vec3 { x: -65536i64, y: 0i64, z: -65536i64 }, 26214, 3)
            &&& sphere_at(l.objects@, 4, Vec3 { x: 65536i64, y: 0i64, z: -65536i64 }, 32768, 4)
        }),
        s.world is List,
        s.cam.aspect_ratio == 116508 && s.cam.image_width == 300 && s.cam.samples_per_pixel == 200
            && s.cam.max_depth == 50 && s.cam.vfov == 50 * FP && s.cam.defocus_angle == 0
            && s.cam.focus_dist == 10 * FP,
        s.cam.lookfrom == (Vec3 { x: -131072i64, y: 131072i64, z: 65536i64 }),
        s.cam.lookat == (Vec3 { x: 0i64, y: 0i64, z: -65536i64 }),
        s.cam.vup == (Vec3 { x: 0i64, y: FP as i64, z: 0i64 }),
        s.cam.background == (Vec3 { x: 45875i64, y: 52429i64, z: 65536i64 }),
{
    let mut mats: Vec<Material> = Vec::new();
    let ground = push_mat(&mut mats, Lambertian::new(Vec3::new(52429, 52429, 0)));
    let center = push_mat(&mut mats, Lambertian::new(Vec3::new(6554, 13107, 32768)));
    let left = push_mat(&mut mats, Dialectric::new(98304, FP));
    let bubble = push_mat(&mut mats, Dialectric::new(43691, FP));
    let right = push_mat(&mut mats, Metal::new(Vec3::new(52429, 39322, 13107), FP));
    let mut world = HittableList::new();
    world.add(Object::Sphere(Sphere::new(Vec3::new(0, -6586368, -65536), 6553600, ground)));
    world.add(Object::Sphere(Sphere::new(Vec3::new(0, 0, -78643), 32768, center)));
    world.add(Object::Sphere(Sphere::new(Vec3::new(-65536, 0, -65536), 32768, left)));
    world.add(Object::Sphere(Sphere::new(Vec3::new(-65536, 0, -65536), 26214, bubble)));
    world.add(Object::Sphere(Sphere::new(Vec3::new(65536, 0, -65536), 32768, right)));
    let mut cam = Camera::new(116508, 300, 200, 50, 50 * FP, 0, 10 * FP);
    cam.lookfrom = Vec3::new(-131072, 131072, 65536);
    cam.lookat = Vec3::new(0, 0, -65536);
    cam.vup = Vec3::new(0, FP, 0);
    cam.background = Vec3::new(45875, 52429, 65536);
    Scene { cam, world: Object::List(world), materials: mats }
}

/// Many small random spheres around three large ones, seen through a lens
/// with depth of field; the collection is placed behind a hierarchy.
pub fn bouncing_spheres() -> (s: Scene)
    ensures
        scene_wf(s),
        s.materials@.len() >= 4,
        s.materials@[0] matches Material::Lamb(mg) && mg.tex is Checker,
        s.materials@[s.materials@.len() - 3] == Material::Diel(
            Dialectric { refraction_index: 98304, fuzz: 0 },
        ),
        s.materials@[s.materials@.len() - 2] == Lambertian::lamb_solid(
            Vec3 { x: 26214i64, y: 13107i64, z: 6554i64 },
        ),
        s.materials@[s.materials@.len() - 1] == Material::Met(
            Metal { albedo: Vec3 { x: 45875i64, y: 39322i64, z: 32768i64 }, fuzz: 0 },
        ),
        crate::bvh::leaves(s.world).len() >= 4,
        exists|k: int|
            0 <= k < crate::bvh::leaves(s.world).len() && #[trigger] sphere_at(
                crate::bvh::leaves(s.world),
                k,
                Vec3 { x: 0i64, y: FP as i64, z: 0i64 },
                FP as int,
                s.materials@.len() - 3,
            ),
        exists|k: int|
            0 <= k < crate::bvh::leaves(s.world).len() && #[trigger] sphere_at(
                crate::bvh::leaves(s.world),
                k,
                Vec3 { x: (-4 * FP) as i64, y: FP as i64, z: 0i64 },
                FP as int,
                s.materials@.len() - 2,
            ),
        exists|k: int|
            0 <= k < crate::bvh::leaves(s.world).len() && #[trigger] sphere_at(
                crate::bvh::leaves(s.world),
                k,
                Vec3 { x: (4 * FP) as i64, y: FP as i64, z: 0i64 },
                FP as int,
                s.materials@.len() - 1,
            ),
        s.cam.aspect_ratio == 116508 && s.cam.image_width == 500 && s.cam.samples_per_pixel == 100
            && s.cam.max_depth == 50 && s.cam.vfov == 20 * FP && s.cam.defocus_angle == 39322
            && s.cam.focus_dist == 10 * FP,
        s.cam.lookfrom == (Vec3 { x: (13 * FP) as i64, y: (2 * FP) as i64, z: (3 * FP) as i64 }),
        s.cam.background == (Vec3 { x: 45875i64, y: 52429i64, z: 65536i64 }),
{
    bouncing_spheres_seeded(fresh_seed())
}

/// The same scene from an explicit seed.
pub fn bouncing_spheres_seeded(seed: u64) -> (s: Scene)
    ensures
        scene_wf(s),
        s.materials@.len() >= 4,
        s.materials@[0] matches Material::Lamb(mg) && mg.tex is Checker,
        s.materials@[s.materials@.len() - 3] == Material::Diel(
            Dialectric { refraction_index: 98304, fuzz: 0 },
        ),
        s.materials@[s.materials@.len() - 2] == Lambertian::lamb_solid(
            Vec3 { x: 26214i64, y: 13107i64, z: 6554i64 },
        ),
        s.materials@[s.materials@.len() - 1] == Material::Met(
            Metal { albedo: Vec3 { x: 45875i64, y: 39322i64, z: 32768i64 }, fuzz: 0 },
        ),
        crate::bvh::leaves(s.world).len() >= 4,
        exists|k: int|
            0 <= k < crate::bvh::leaves(s.world).len() && #[trigger] sphere_at(
                crate::bvh::leaves(s.world),
                k,
                Vec3 { x: 0i64, y: FP as i64, z: 0i64 },
                FP as int,
                s.materials@.len() - 3,
            ),
        exists|k: int|
            0 <= k < crate::bvh::leaves(s.world).len() && #[trigger] sphere_at(
                crate::bvh::leaves(s.world),
                k,
                Vec3 { x: (-4 * FP) as i64, y: FP as i64, z: 0i64 },
                FP as int,
                s.materials@.len() - 2,
            ),
        exists|k: int|
            0 <= k < crate::bvh::leaves(s.world).len() && #[trigger] sphere_at(
                crate::bvh::leaves(s.world),
                k,
                Vec3 { x: (4 * FP) as i64, y: FP as i64, z: 0i64 },
                FP as int,
                s.materials@.len() - 1,
            ),
        s.cam.aspect_ratio == 116508 && s.cam.image_width == 500 && s.cam.samples_per_pixel == 100
            && s.cam.max_depth == 50 && s.cam.vfov == 20 * FP && s.cam.defocus_angle == 39322
            && s.cam.focus_dist == 10 * FP,
        s.cam.lookfrom == (Vec3 { x: (13 * FP) as i64, y: (2 * FP) as i64, z: (3 * FP) as i64 }),
        s.cam.background == (Vec3 { x: 45875i64, y: 52429i64, z: 65536i64 }),
{
    let mut rng = Rng64::new(seed);
    let mut mats: Vec<Material> = Vec::new();
    let checker = CheckerTexture::new_color(FP, Vec3::new(13107, 19661, 6554), Vec3::new(58982, 58982, 58982));
    let ground = push_mat(&mut mats, Lambertian::new_tex(checker));
    let mut world = HittableList::new();
    world.add(Object::Sphere(Sphere::new(Vec3::new(0, -65536000, 0), 65536000, ground)));
    let mut a: i64 = -11;
    while a <= 11
        invariant
            mats_wf(mats@),
            obj_wf(Object::List(world)),
            -11 <= a <= 12,
            forall|j: int|
                0 <= j < world.objects@.len() ==> #[trigger] buildable(world.objects@[j]),
            world.objects@.len() >= 1,
            mats@.len() >= 1,
            mats@[0] matches Material::Lamb(mg) && mg.tex is Checker,
        decreases 12 - a,
    {
        let mut b: i64 = -11;
        while b <= 11
            invariant
                mats_wf(mats@),
                obj_wf(Object::List(world)),
                -11 <= a <= 11,
                -11 <= b <= 12,
                forall|j: int|
                    0 <= j < world.objects@.len() ==> #[trigger] buildable(world.objects@[j]),
                world.objects@.len() >= 1,
                mats@.len() >= 1,
                mats@[0] matches Material::Lamb(mg) && mg.tex is Checker,
            decreases 12 - b,
        {
            let choose_mat = rng.next_unit_fp();
            let cx = a * FP + rng.next_range_fp(0, 58982);
            let cz = b * FP + rng.next_range_fp(0, 58982);
            let center = Vec3::new(cx, 13107, cz);
            let diff = center.sub(&Vec3::new(4 * FP, 13107, 0));
            let away = diff.length() > 58982;
            if away {
                if choose_mat < 52429 {
                    let c1 = Vec3::random(&mut rng);
                    let c2 = Vec3::random(&mut rng);
                    proof {
                        crate::fixed::lemma_fmul_unit_abs(c1.x as int, c2.x as int, 0x1_0000);
                        crate::fixed::lemma_fmul_unit_abs(c1.y as int, c2.y as int, 0x1_0000);
                        crate::fixed::lemma_fmul_unit_abs(c1.z as int, c2.z as int, 0x1_0000);
                    }
                    let albedo = c1.mul_elem(&c2);
                    let mat = push_mat(&mut mats, Lambertian::new(albedo));
                    let rise = rng.next_range_fp(0, 32768);
                    let center2 = Vec3::new(center.x, 13107 + rise, center.z);
                    world.add(Object::Sphere(Sphere::new_to(center, center2, 13107, mat)));
                } else if choose_mat < 62259 {
                    let albedo = Vec3::random(&mut rng);
                    let fuzz = rng.next_range_fp(0, 13107);
                    let mat = push_mat(&mut mats, Metal::new(albedo, fuzz));
                    world.add(Object::Sphere(Sphere::new(center, 13107, mat)));
                } else {
                    let mat = push_mat(&mut mats, Dialectric::new(98304, 6554));
                    world.add(Object::Sphere(Sphere::new(center, 13107, mat)));
                }
            }
            b = b + 1;
        }
        a = a + 1;
    }
    let m1 = push_mat(&mut mats, Dialectric::new(98304, 0));
    let big1 = Sphere::new(Vec3::new(0, FP, 0), FP, m1);
    world.add(Object::Sphere(big1));
    let m2 = push_mat(&mut mats, Lambertian::new(Vec3::new(26214, 13107, 6554)));
    let big2 = Sphere::new(Vec3::new(-4 * FP, FP, 0), FP, m2);
    world.add(Object::Sphere(big2));
    let m3 = push_mat(&mut mats, Metal::new(Vec3::new(45875, 39322, 32768), 0));
    let big3 = Sphere::new(Vec3::new(4 * FP, FP, 0), FP, m3);
    world.add(Object::Sphere(big3));
    let ghost wobjs = world.objects@;
    let tree = BvhNode::new(world);
    proof {
        crate::bvh::lemma_leaves_len(tree, wobjs);
        let n = wobjs.len() as int;
        assert(wobjs.contains(wobjs[n - 3]));
        assert(wobjs.contains(wobjs[n - 2]));
        assert(wobjs.contains(wobjs[n - 1]));
        crate::bvh::lemma_leaves_contain(tree, wobjs, wobjs[n - 3]);
        crate::bvh::lemma_leaves_contain(tree, wobjs, wobjs[n - 2]);
        crate::bvh::lemma_leaves_contain(tree, wobjs, wobjs[n - 1]);
        assert(wobjs[n - 3] == Object::Sphere(big1));
        assert(wobjs[n - 2] == Object::Sphere(big2));
        assert(wobjs[n - 1] == Object::Sphere(big3));
        let lv = crate::bvh::leaves(tree);
        let k1 = choose|k: int| 0 <= k < lv.len() && lv[k] == Object::Sphere(big1);
        assert(sphere_at(lv, k1, Vec3 { x: 0i64, y: FP as i64, z: 0i64 }, FP as int, m1 as int));
        let k2 = choose|k: int| 0 <= k < lv.len() && lv[k] == Object::Sphere(big2);
        assert(sphere_at(
            lv,
            k2,
            Vec3 { x: (-4 * FP) as i64, y: FP as i64, z: 0i64 },
            FP as int,
            m2 as int,
        ));
        let k3 = choose|k: int| 0 <= k < lv.len() && lv[k] == Object::Sphere(big3);
        assert(sphere_at(
            lv,
            k3,
            Vec3 { x: (4 * FP) as i64, y: FP as i64, z: 0i64 },
            FP as int,
            m3 as int,
        ));
    }
    let mut cam = Camera::new(116508, 500, 100, 50, 20 * FP, 39322, 10 * FP);
    cam.lookfrom = Vec3::new(13 * FP, 2 * FP, 3 * FP);
    cam.lookat = Vec3::new(0, 0, 0);
    cam.vup = Vec3::new(0, FP, 0);
    cam.background = Vec3::new(45875, 52429, 65536);
    Scene { cam, world: tree, materials: mats }
}

/// Two large checkered spheres facing each other.
pub fn checkered_spheres() -> (s: Scene)
    ensures
        scene_wf(s),
        s.materials@.len() == 2,
        s.materials@[0] matches Material::Lamb(m0) && m0.tex matches Texture::Checker(c0)
            && *c0.even == Texture::Solid(
            SolidColor { albedo: Vec3 { x: 13107i64, y: 19661i64, z: 6554i64 } },
        ) && *c0.odd == Texture::Solid(
            SolidColor { albedo: Vec3 { x: 58982i64, y: 58982i64, z: 58982i64 } },
        ),
        s.materials@[1] matches Material::Lamb(m1) && m1.tex is Checker,
        crate::bvh::leaves(s.world).len() == 2,
        crate::bvh::leaves(s.world).contains(
            Object::Sphere(
                Sphere {
                    center: Ray {
                        orig: Vec3 { x: 0i64, y: -65536i64, z: 0i64 },
                        dir: Vec3 { x: 0i64, y: 0i64, z: 0i64 },
                        time: 0i64,
                    },
                    radius: 65536,
                    mat: 0,
                    bbox: crate::sphere::sphere_box_spec(
                        Vec3 { x: 0i64, y: -65536i64, z: 0i64 },
                        65536,
                    ),
                },
            ),
        ),
        crate::bvh::leaves(s.world).contains(
            Object::Sphere(
                Sphere {
                    center: Ray {
                        orig: Vec3 { x: 0i64, y: 655360i64, z: 0i64 },
                        dir: Vec3 { x: 0i64, y: 0i64, z: 0i64 },
                        time: 0i64,
                    },
                    radius: 655360,
                    mat: 1,
                    bbox: crate::sphere::sphere_box_spec(
                        Vec3 { x: 0i64, y: 655360i64, z: 0i64 },
                        655360,
                    ),
                },
            ),
        ),
        s.cam.image_width == 500 && s.cam.samples_per_pixel == 100 && s.cam.max_depth == 50
            && s.cam.vfov == 20 * FP,
        s.cam.lookfrom == (Vec3 { x: (13 * FP) as i64, y: (2 * FP) as i64, z: (3 * FP) as i64 }),
        s.cam.background == (Vec3 { x: 45875i64, y: 52429i64, z: 65536i64 }),
{
    let mut mats: Vec<Material> = Vec::new();
    let checker = CheckerTexture::new_color(FP, Vec3::new(13107, 19661, 6554), Vec3::new(58982, 58982, 58982));
    let checker2 = CheckerTexture::new_color(FP, Vec3::new(13107, 19661, 6554), Vec3::new(58982, 58982, 58982));
    let lower = push_mat(&mut mats, Lambertian::new_tex(checker));
    let upper = push_mat(&mut mats, Lambertian::new_tex(checker2));
    let mut world = HittableList::new();
    let sp0 = Sphere::new(Vec3::new(0, -65536, 0), 65536, lower);
    world.add(Object::Sphere(sp0));
    let sp1 = Sphere::new(Vec3::new(0, 655360, 0), 655360, upper);
    world.add(Object::Sphere(sp1));
    let ghost wobjs = world.objects@;
    let tree = BvhNode::new(world);
    proof {
        crate::bvh::lemma_leaves_len(tree, wobjs);
        assert(wobjs.contains(wobjs[0]));
        assert(wobjs.contains(wobjs[1]));
        crate::bvh::lemma_leaves_contain(tree, wobjs, wobjs[0]);
        crate::bvh::lemma_leaves_contain(tree, wobjs, wobjs[1]);
        assert(wobjs[0] == Object::Sphere(sp0));
        assert(wobjs[1] == Object::Sphere(sp1));
    }
    let mut cam = Camera::new(116508, 500, 100, 50, 20 * FP, 0, 10 * FP);
    cam.lookfrom = Vec3::new(13 * FP, 2 * FP, 3 * FP);
    cam.lookat = Vec3::new(0, 0, 0);
    cam.vup = Vec3::new(0, FP, 0);
    cam.background = Vec3::new(45875, 52429, 65536);
    Scene { cam, world: tree, materials: mats }
}

/// A globe wrapped in decoded image data (pixels supplied by the caller,
/// since decoding image files is I/O).
pub fn earth(width: usize, height: usize, pixels: Vec<Color>) -> (s: Scene)
    requires
        width <= 0x8000,
        height <= 0x8000,
        pixels@.len() == width * height,
        forall|i: int| 0 <= i < pixels@.len() ==> bounded(#[trigger] pixels@[i], COLOR_MAX as int),
    ensures
        scene_wf(s),
        s.materials@.len() == 1,
        s.materials@[0] matches Material::Lamb(m0) && m0.tex matches Texture::Image(im)
            && im.width == width && im.height == height && im.pixels@ == pixels@,
        s.world matches Object::List(l) ==> ({
            &&& l.objects@.len() == 1
            &&& sphere_at(l.objects@, 0, Vec3 { x: 0i64, y: 0i64, z: 0i64 }, 131072, 0)
        }),
        s.world is List,
        s.cam.image_width == 500 && s.cam.samples_per_pixel == 100 && s.cam.max_depth == 50
            && s.cam.vfov == 20 * FP,
        s.cam.lookfrom == (Vec3 { x: 0i64, y: 0i64, z: (12 * FP) as i64 }),
        s.cam.background == (Vec3 { x: 45875i64, y: 52429i64, z: 65536i64 }),
{
    let mut mats: Vec<Material> = Vec::new();
    let tex = ImageTexture::new(width, height, pixels);
    let surface = push_mat(&mut mats, Lambertian::new_tex(tex));
    let globe = Object::Sphere(Sphere::new(Vec3::new(0, 0, 0), 131072, surface));
    let world = HittableList::new_list(globe);
    let mut cam = Camera::new(116508, 500, 100, 50, 20 * FP, 0, 10 * FP);
    cam.lookfrom = Vec3::new(0, 0, 12 * FP);
    cam.lookat = Vec3::new(0, 0, 0);
    cam.vup = Vec3::new(0, FP, 0);
    cam.background = Vec3::new(45875, 52429, 65536);
    Scene { cam, world: Object::List(world), materials: mats }
}

/// Two spheres textured by procedural noise.
pub fn perlin_spheres() -> (s: Scene)
    ensures
        scene_wf(s),
        s.materials@.len() == 2,
        s.materials@[0] matches Material::Lamb(m0) && m0.tex matches Texture::Noise(n0)
            && n0.scale == 4 * FP,
        s.materials@[1] matches Material::Lamb(m1) && m1.tex matches Texture::Noise(n1)
            && n1.scale == 4 * FP,
        s.world matches Object::List(l) ==> ({
            &&& l.objects@.len() == 2
            &&& sphere_at(l.objects@, 0, Vec3 { x: 0i64, y: -65536000i64, z: 0i64 }, 65536000, 0)
            &&& sphere_at(l.objects@, 1, Vec3 { x: 0i64, y: 131072i64, z: 0i64 }, 131072, 1)
        }),
        s.world is List,
        s.cam.aspect_ratio == 116508 && s.cam.image_width == 500 && s.cam.samples_per_pixel == 100
            && s.cam.max_depth == 50 && s.cam.vfov == 20 * FP && s.cam.defocus_angle == 0
            && s.cam.focus_dist == 10 * FP,
        s.cam.lookfrom == (Vec3 { x: (13 * FP) as i64, y: (2 * FP) as i64, z: (3 * FP) as i64 }),
        s.cam.background == (Vec3 { x: 45875i64, y: 52429i64, z: 65536i64 }),
{
    let mut mats: Vec<Material> = Vec::new();
    let tex1 = NoiseTexture::new(4 * FP, 7);
    let tex2 = NoiseTexture::new(4 * FP, 7);
    let ground = push_mat(&mut mats, Lambertian::new_tex(tex1));
    let ball = push_mat(&mut mats, Lambertian::new_tex(tex2));
    let mut world = HittableList::new();
    world.add(Object::Sphere(Sphere::new(Vec3::new(0, -65536000, 0), 65536000, ground)));
    world.add(Object::Sphere(Sphere::new(Vec3::new(0, 131072, 0), 131072, ball)));
    let mut cam = Camera::new(116508, 500, 100, 50, 20 * FP, 0, 10 * FP);
    cam.lookfrom = Vec3::new(13 * FP, 2 * FP, 3 * FP);
    cam.lookat = Vec3::new(0, 0, 0);
    cam.vup = Vec3::new(0, FP, 0);
    cam.background = Vec3::new(45875, 52429, 65536);
    Scene { cam, world: Object::List(world), materials: mats }
}

/// Five axis-aligned quads facing the camera.
pub fn quads() -> (s: Scene)
    ensures
        scene_wf(s),
        s.materials@.len() == 5,
        s.materials@[0] == Lambertian::lamb_solid(Vec3 { x: 65536i64, y: 13107i64, z: 13107i64 }),
        s.materials@[1] == Lambertian::lamb_solid(Vec3 { x: 13107i64, y: 65536i64, z: 13107i64 }),
        s.materials@[2] == Lambertian::lamb_solid(Vec3 { x: 13107i64, y: 13107i64, z: 65536i64 }),
        s.materials@[3] == Lambertian::lamb_solid(Vec3 { x: 65536i64, y: 32768i64, z: 0i64 }),
        s.materials@[4] == Lambertian::lamb_solid(Vec3 { x: 13107i64, y: 52429i64, z: 52429i64 }),
        s.world matches Object::List(l) ==> ({
            &&& l.objects@.len() == 5
            &&& quad_at(
                l.objects@,
                0,
                Vec3 { x: (-3 * FP) as i64, y: (-2 * FP) as i64, z: (5 * FP) as i64 },
                Vec3 { x: 0i64, y: 0i64, z: (-4 * FP) as i64 },
                Vec3 { x: 0i64, y: (4 * FP) as i64, z: 0i64 },
                0,
            )
            &&& quad_at(
                l.objects@,
                1,
                Vec3 { x: (-2 * FP) as i64, y: (-2 * FP) as i64, z: 0i64 },
                Vec3 { x: (4 * FP) as i64, y: 0i64, z: 0i64 },
                Vec3 { x: 0i64, y: (4 * FP) as i64, z: 0i64 },
                1,
            )
            &&& quad_at(
                l.objects@,
                2,
                Vec3 { x: (3 * FP) as i64, y: (-2 * FP) as i64, z: FP as i64 },
                Vec3 { x: 0i64, y: 0i64, z: (4 * FP) as i64 },
                Vec3 { x: 0i64, y: (4 * FP) as i64, z: 0i64 },
                2,
            )
            &&& quad_at(
                l.objects@,
                3,
                Vec3 { x: (-2 * FP) as i64, y: (3 * FP) as i64, z: FP as i64 },
                Vec3 { x: (4 * FP) as i64, y: 0i64, z: 0i64 },
                Vec3 { x: 0i64, y: 0i64, z: (4 * FP) as i64 },
                3,
            )
            &&& quad_at(
                l.objects@,
                4,
                Vec3 { x: (-2 * FP) as i64, y: (-3 * FP) as i64, z: (5 * FP) as i64 },
                Vec3 { x: (4 * FP) as i64, y: 0i64, z: 0i64 },
                Vec3 { x: 0i64, y: 0i64, z: (-4 * FP) as i64 },
                4,
            )
        }),
        s.world is List,
        s.cam.aspect_ratio == FP && s.cam.image_width == 500 && s.cam.samples_per_pixel == 100
            && s.cam.max_depth == 50 && s.cam.vfov == 80 * FP && s.cam.defocus_angle == 0
            && s.cam.focus_dist == 10 * FP,
        s.cam.lookfrom == (Vec3 { x: 0i64, y: 0i64, z: (9 * FP) as i64 }),
        s.cam.lookat == (Vec3 { x: 0i64, y: 0i64, z: 0i64 }),
        s.cam.background == (Vec3 { x: 45875i64, y: 52429i64, z: 65536i64 }),
{
    let mut mats: Vec<Material> = Vec::new();
    let left_red = push_mat(&mut mats, Lambertian::new(Vec3::new(65536, 13107, 13107)));
    let back_green = push_mat(&mut mats, Lambertian::new(Vec3::new(13107, 65536, 13107)));
    let right_blue = push_mat(&mut mats, Lambertian::new(Vec3::new(13107, 13107, 65536)));
    let upper_orange = push_mat(&mut mats, Lambertian::new(Vec3::new(65536, 32768, 0)));
    let lower_teal = push_mat(&mut mats, Lambertian::new(Vec3::new(13107, 52429, 52429)));
    let mut world = HittableList::new();
    world.add(axis_quad(Vec3::new(-3 * FP, -2 * FP, 5 * FP), Vec3::new(0, 0, -4 * FP), Vec3::new(0, 4 * FP, 0), left_red));
    world.add(axis_quad(Vec3::new(-2 * FP, -2 * FP, 0), Vec3::new(4 * FP, 0, 0), Vec3::new(0, 4 * FP, 0), back_green));
    world.add(axis_quad(Vec3::new(3 * FP, -2 * FP, FP), Vec3::new(0, 0, 4 * FP), Vec3::new(0, 4 * FP, 0), right_blue));
    world.add(axis_quad(Vec3::new(-2 * FP, 3 * FP, FP), Vec3::new(4 * FP, 0, 0), Vec3::new(0, 0, 4 * FP), upper_orange));
    world.add(axis_quad(Vec3::new(-2 * FP, -3 * FP, 5 * FP), Vec3::new(4 * FP, 0, 0), Vec3::new(0, 0, -4 * FP), lower_teal));
    let mut cam = Camera::new(FP, 500, 100, 50, 80 * FP, 0, 10 * FP);
    cam.lookfrom = Vec3::new(0, 0, 9 * FP);
    cam.lookat = Vec3::new(0, 0, 0);
    cam.vup = Vec3::new(0, FP, 0);
    cam.background = Vec3::new(45875, 52429, 65536);
    Scene { cam, world: Object::List(world), materials: mats }
}

/// Noise-textured spheres lit by an emissive sphere and quad against a black
/// background.
pub fn simple_light() -> (s: Scene)
    ensures
        scene_wf(s),
        s.materials@.len() == 3,
        s.materials@[0] matches Material::Lamb(m0) && m0.tex matches Texture::Noise(n0)
            && n0.scale == 4 * FP,
        s.materials@[1] matches Material::Lamb(m1) && m1.tex matches Texture::Noise(n1)
            && n1.scale == 4 * FP,
        s.materials@[2] == Material::Light(
            DiffuseLight {
                tex: Texture::Solid(
                    SolidColor {
                        albedo: Vec3 { x: (4 * FP) as i64, y: (4 * FP) as i64, z: (4 * FP) as i64 },
                    },
                ),
            },
        ),
        s.world matches Object::List(l) ==> ({
            &&& l.objects@.len() == 4
            &&& sphere_at(l.objects@, 0, Vec3 { x: 0i64, y: -65536000i64, z: 0i64 }, 65536000, 0)
            &&& sphere_at(l.objects@, 1, Vec3 { x: 0i64, y: 131072i64, z: 0i64 }, 131072, 1)
            &&& sphere_at(l.objects@, 2, Vec3 { x: 0i64, y: (7 * FP) as i64, z: 0i64 }, 131072, 2)
            &&& quad_at(
                l.objects@,
                3,
                Vec3 { x: (3 * FP) as i64, y: FP as i64, z: (-2 * FP) as i64 },
                Vec3 { x: (2 * FP) as i64, y: 0i64, z: 0i64 },
                Vec3 { x: 0i64, y: (2 * FP) as i64, z: 0i64 },
                2,
            )
        }),
        s.world is List,
        s.cam.image_width == 500 && s.cam.samples_per_pixel == 100 && s.cam.max_depth == 50
            && s.cam.vfov == 20 * FP,
        s.cam.lookfrom == (Vec3 { x: (26 * FP) as i64, y: (3 * FP) as i64, z: (6 * FP) as i64 }),
        s.cam.lookat == (Vec3 { x: 0i64, y: (2 * FP) as i64, z: 0i64 }),
        s.cam.background == (Vec3 { x: 0i64, y: 0i64, z: 0i64 }),
{
    let mut mats: Vec<Material> = Vec::new();
    let tex1 = NoiseTexture::new(4 * FP, 11);
    let tex2 = NoiseTexture::new(4 * FP, 11);
    let ground = push_mat(&mut mats, Lambertian::new_tex(tex1));
    let ball = push_mat(&mut mats, Lambertian::new_tex(tex2));
    let difflight = push_mat(&mut mats, DiffuseLight::new(Vec3::new(4 * FP, 4 * FP, 4 * FP)));
    let mut world = HittableList::new();
    world.add(Object::Sphere(Sphere::new(Vec3::new(0, -65536000, 0), 65536000, ground)));
    world.add(Object::Sphere(Sphere::new(Vec3::new(0, 131072, 0), 131072, ball)));
    world.add(Object::Sphere(Sphere::new(Vec3::new(0, 7 * FP, 0), 131072, difflight)));
    world.add(axis_quad(Vec3::new(3 * FP, FP, -2 * FP), Vec3::new(2 * FP, 0, 0), Vec3::new(0, 2 * FP, 0), difflight));
    let mut cam = Camera::new(116508, 500, 100, 50, 20 * FP, 0, 10 * FP);
    cam.lookfrom = Vec3::new(26 * FP, 3 * FP, 6 * FP);
    cam.lookat = Vec3::new(0, 2 * FP, 0);
    cam.vup = Vec3::new(0, FP, 0);
    cam.background = Vec3::new(0, 0, 0);
    Scene { cam, world: Object::List(world), materials: mats }
}

/// The classical enclosed box: colored walls, one area light in the ceiling
/// and two rotated boxes.
pub fn cornell_box() -> (s: Scene)
    ensures
        scene_wf(s),
        s.materials@.len() == 4,
        s.materials@[0] == Lambertian::lamb_solid(Vec3 { x: 42598i64, y: 3277i64, z: 3277i64 }),
        s.materials@[1] == Lambertian::lamb_solid(Vec3 { x: 47841i64, y: 47841i64, z: 47841i64 }),
        s.materials@[2] == Lambertian::lamb_solid(Vec3 { x: 7864i64, y: 29491i64, z: 9830i64 }),
        s.materials@[3] == Material::Light(
            DiffuseLight {
                tex: Texture::Solid(
                    SolidColor {
                        albedo: Vec3 {
                            x: (15 * FP) as i64,
                            y: (15 * FP) as i64,
                            z: (15 * FP) as i64,
                        },
                    },
                ),
            },
        ),
        crate::bvh::leaves(s.world).len() == 8,
        exists|k: int|
            0 <= k < crate::bvh::leaves(s.world).len() && #[trigger] quad_at(
                crate::bvh::leaves(s.world),
                k,
                Vec3 { x: 22478848i64, y: 36306944i64, z: 21757952i64 },
                Vec3 { x: -8519680i64, y: 0i64, z: 0i64 },
                Vec3 { x: 0i64, y: 0i64, z: -6881280i64 },
                3,
            ),
        s.cam.aspect_ratio == FP && s.cam.image_width == 300 && s.cam.samples_per_pixel == 100
            && s.cam.max_depth == 50 && s.cam.vfov == 40 * FP && s.cam.defocus_angle == 0,
        s.cam.lookfrom == (Vec3 { x: 18219008i64, y: 18219008i64, z: -52428800i64 }),
        s.cam.lookat == (Vec3 { x: 18219008i64, y: 18219008i64, z: 0i64 }),
        s.cam.background == (Vec3 { x: 0i64, y: 0i64, z: 0i64 }),
{
    let mut mats: Vec<Material> = Vec::new();
    let red = push_mat(&mut mats, Lambertian::new(Vec3::new(42598, 3277, 3277)));
    let white = push_mat(&mut mats, Lambertian::new(Vec3::new(47841, 47841, 47841)));
    let green = push_mat(&mut mats, Lambertian::new(Vec3::new(7864, 29491, 9830)));
    let light = push_mat(&mut mats, DiffuseLight::new(Vec3::new(15 * FP, 15 * FP, 15 * FP)));
    let mut world = HittableList::new();
    world.add(axis_quad(Vec3::new(36372480, 0, 0), Vec3::new(0, 36372480, 0), Vec3::new(0, 0, 36372480), green));
    world.add(axis_quad(Vec3::new(0, 0, 0), Vec3::new(0, 36372480, 0), Vec3::new(0, 0, 36372480), red));
    let lightq = axis_quad(Vec3::new(22478848, 36306944, 21757952), Vec3::new(-8519680, 0, 0), Vec3::new(0, 0, -6881280), light);
    world.add(lightq);
    world.add(axis_quad(Vec3::new(0, 0, 0), Vec3::new(36372480, 0, 0), Vec3::new(0, 0, 36372480), white));
    world.add(axis_quad(Vec3::new(36372480, 36372480, 36372480), Vec3::new(-36372480, 0, 0), Vec3::new(0, 0, -36372480), white));
    world.add(axis_quad(Vec3::new(0, 0, 36372480), Vec3::new(36372480, 0, 0), Vec3::new(0, 36372480, 0), white));
    let box1 = boxx(Vec3::new(0, 0, 0), Vec3::new(10813440, 21626880, 10813440), white);
    let box1 = RotateY::new(box1, 15 * FP);
    let box1 = Translate::new(box1, Vec3::new(17367040, 0, 19333120));
    world.add(box1);
    let box2 = boxx(Vec3::new(0, 0, 0), Vec3::new(10813440, 10813440, 10813440), white);
    let box2 = RotateY::new(box2, -18 * FP);
    let box2 = Translate::new(box2, Vec3::new(8519680, 0, 4259840));
    world.add(box2);
    let ghost wobjs = world.objects@;
    let tree = BvhNode::new(world);
    proof {
        crate::bvh::lemma_leaves_len(tree, wobjs);
        assert(wobjs.contains(wobjs[2]));
        crate::bvh::lemma_leaves_contain(tree, wobjs, wobjs[2]);
        assert(wobjs[2] == lightq);
        let lv = crate::bvh::leaves(tree);
        let k = choose|k: int| 0 <= k < lv.len() && lv[k] == lightq;
        assert(quad_at(
            lv,
            k,
            Vec3 { x: 22478848i64, y: 36306944i64, z: 21757952i64 },
            Vec3 { x: -8519680i64, y: 0i64, z: 0i64 },
            Vec3 { x: 0i64, y: 0i64, z: -6881280i64 },
            3,
        ));
    }
    let mut cam = Camera::new(FP, 300, 100, 50, 40 * FP, 0, 10 * FP);
    cam.lookfrom = Vec3::new(18219008, 18219008, -52428800);
    cam.lookat = Vec3::new(18219008, 18219008, 0);
    cam.vup = Vec3::new(0, FP, 0);
    cam.background = Vec3::new(0, 0, 0);
    Scene { cam, world: tree, materials: mats }
}

/// The enclosed box with its boxes replaced by participating media.
pub fn cornell_smoke() -> (s: Scene)
    ensures
        scene_wf(s),
        s.materials@.len() == 6,
        s.materials@[3] == Material::Light(
            DiffuseLight {
                tex: Texture::Solid(
                    SolidColor {
                        albedo: Vec3 {
                            x: (7 * FP) as i64,
                            y: (7 * FP) as i64,
                            z: (7 * FP) as i64,
                        },
                    },
                ),
            },
        ),
        s.materials@[4] == Material::Iso(
            Isotorpic {
                tex: Texture::Solid(SolidColor { albedo: Vec3 { x: 0i64, y: 0i64, z: 0i64 } }),
            },
        ),
        s.materials@[5] == Material::Iso(
            Isotorpic {
                tex: Texture::Solid(
                    SolidColor { albedo: Vec3 { x: FP as i64, y: FP as i64, z: FP as i64 } },
                ),
            },
        ),
        crate::bvh::leaves(s.world).len() == 8,
        exists|k: int|
            0 <= k < crate::bvh::leaves(s.world).len() && #[trigger] quad_at(
                crate::bvh::leaves(s.world),
                k,
                Vec3 { x: 7405568i64, y: 36306944i64, z: 8323072i64 },
                Vec3 { x: 21626880i64, y: 0i64, z: 0i64 },
                Vec3 { x: 0i64, y: 0i64, z: 19988480i64 },
                3,
            ),
        exists|k: int|
            0 <= k < crate::bvh::leaves(s.world).len() && #[trigger] medium_at(
                crate::bvh::leaves(s.world),
                k,
                crate::fixed::fdiv(FP as int, 655),
                4,
            ),
        exists|k: int|
            0 <= k < crate::bvh::leaves(s.world).len() && #[trigger] medium_at(
                crate::bvh::leaves(s.world),
                k,
                crate::fixed::fdiv(FP as int, 655),
                5,
            ),
        s.cam.aspect_ratio == FP && s.cam.image_width == 600 && s.cam.samples_per_pixel == 200
            && s.cam.max_depth == 50 && s.cam.vfov == 40 * FP,
        s.cam.lookfrom == (Vec3 { x: 18219008i64, y: 18219008i64, z: -52428800i64 }),
        s.cam.background == (Vec3 { x: 0i64, y: 0i64, z: 0i64 }),
{
    let mut mats: Vec<Material> = Vec::new();
    let red = push_mat(&mut mats, Lambertian::new(Vec3::new(42598, 3277, 3277)));
    let white = push_mat(&mut mats, Lambertian::new(Vec3::new(47841, 47841, 47841)));
    let green = push_mat(&mut mats, Lambertian::new(Vec3::new(7864, 29491, 9830)));
    let light = push_mat(&mut mats, DiffuseLight::new(Vec3::new(7 * FP, 7 * FP, 7 * FP)));
    let dark = push_mat(&mut mats, Isotorpic::new(Vec3::new(0, 0, 0)));
    let fog = push_mat(&mut mats, Isotorpic::new(Vec3::new(FP, FP, FP)));
    let mut world = HittableList::new();
    world.add(axis_quad(Vec3::new(36372480, 0, 0), Vec3::new(0, 36372480, 0), Vec3::new(0, 0, 36372480), green));
    world.add(axis_quad(Vec3::new(0, 0, 0), Vec3::new(0, 36372480, 0), Vec3::new(0, 0, 36372480), red));
    let lightq = axis_quad(Vec3::new(7405568, 36306944, 8323072), Vec3::new(21626880, 0, 0), Vec3::new(0, 0, 19988480), light);
    world.add(lightq);
    world.add(axis_quad(Vec3::new(0, 36372480, 0), Vec3::new(36372480, 0, 0), Vec3::new(0, 0, 36372480), white));
    world.add(axis_quad(Vec3::new(0, 0, 0), Vec3::new(36372480, 0, 0), Vec3::new(0, 0, 36372480), white));
    world.add(axis_quad(Vec3::new(0, 0, 36372480), Vec3::new(36372480, 0, 0), Vec3::new(0, 36372480, 0), white));
    let box1 = boxx(Vec3::new(0, 0, 0), Vec3::new(10813440, 21626880, 10813440), white);
    let box1 = RotateY::new(box1, 15 * FP);
    let box1 = Translate::new(box1, Vec3::new(17367040, 0, 19333120));
    let med1 = ConstantMedium::new(box1, 655, dark);
    world.add(med1);
    let box2 = boxx(Vec3::new(0, 0, 0), Vec3::new(10813440, 10813440, 10813440), white);
    let box2 = RotateY::new(box2, -18 * FP);
    let box2 = Translate::new(box2, Vec3::new(8519680, 0, 4259840));
    let med2 = ConstantMedium::new(box2, 655, fog);
    world.add(med2);
    let ghost wobjs = world.objects@;
    let tree = BvhNode::new(world);
    proof {
        crate::bvh::lemma_leaves_len(tree, wobjs);
        assert(wobjs.contains(wobjs[2]));
        assert(wobjs.contains(wobjs[6]));
        assert(wobjs.contains(wobjs[7]));
        crate::bvh::lemma_leaves_contain(tree, wobjs, wobjs[2]);
        crate::bvh::lemma_leaves_contain(tree, wobjs, wobjs[6]);
        crate::bvh::lemma_leaves_contain(tree, wobjs, wobjs[7]);
        assert(wobjs[2] == lightq);
        assert(wobjs[6] == med1);
        assert(wobjs[7] == med2);
        let lv = crate::bvh::leaves(tree);
        let k1 = choose|k: int| 0 <= k < lv.len() && lv[k] == lightq;
        assert(quad_at(
            lv,
            k1,
            Vec3 { x: 7405568i64, y: 36306944i64, z: 8323072i64 },
            Vec3 { x: 21626880i64, y: 0i64, z: 0i64 },
            Vec3 { x: 0i64, y: 0i64, z: 19988480i64 },
            3,
        ));
        let k2 = choose|k: int| 0 <= k < lv.len() && lv[k] == med1;
        assert(medium_at(lv, k2, crate::fixed::fdiv(FP as int, 655), 4));
        let k3 = choose|k: int| 0 <= k < lv.len() && lv[k] == med2;
        assert(medium_at(lv, k3, crate::fixed::fdiv(FP as int, 655), 5));
    }
    let mut cam = Camera::new(FP, 600, 200, 50, 40 * FP, 0, 10 * FP);
    cam.lookfrom = Vec3::new(18219008, 18219008, -52428800);
    cam.lookat = Vec3::new(18219008, 18219008, 0);
    cam.vup = Vec3::new(0, FP, 0);
    cam.background = Vec3::new(0, 0, 0);
    Scene { cam, world: tree, materials: mats }
}

/// Everything together: a ground of random boxes, a quad light, moving,
/// glass and metal spheres, media, a textured globe, noise, and a rotated
/// cloud of small spheres.
pub fn final_scene(width: usize, height: usize, pixels: Vec<Color>) -> (s: Scene)
    requires
        width <= 0x8000,
        height <= 0x8000,
        pixels@.len() == width * height,
        forall|i: int| 0 <= i < pixels@.len() ==> bounded(#[trigger] pixels@[i], COLOR_MAX as int),
    ensures
        scene_wf(s),
        s.materials@.len() >= 10,
        crate::bvh::leaves(s.world).len() == 11,
        exists|k: int|
            0 <= k < crate::bvh::leaves(s.world).len() && #[trigger] quad_at(
                crate::bvh::leaves(s.world),
                k,
                Vec3 { x: 8060928i64, y: 36306944i64, z: 9633792i64 },
                Vec3 { x: 19660800i64, y: 0i64, z: 0i64 },
                Vec3 { x: 0i64, y: 0i64, z: 17367040i64 },
                1,
            ),
        s.cam.aspect_ratio == FP && s.cam.image_width == 800 && s.cam.samples_per_pixel == 5000
            && s.cam.max_depth == 40 && s.cam.vfov == 40 * FP && s.cam.defocus_angle == 0,
        s.cam.lookfrom == (Vec3 { x: 31326208i64, y: 18219008i64, z: -39321600i64 }),
        s.cam.lookat == (Vec3 { x: 18219008i64, y: 18219008i64, z: 0i64 }),
        s.cam.background == (Vec3 { x: 0i64, y: 0i64, z: 0i64 }),
{
    final_scene_seeded(width, height, pixels, fresh_seed())
}

/// The same scene from an explicit seed.
pub fn final_scene_seeded(width: usize, height: usize, pixels: Vec<Color>, seed: u64) -> (s: Scene)
    requires
        width <= 0x8000,
        height <= 0x8000,
        pixels@.len() == width * height,
        forall|i: int| 0 <= i < pixels@.len() ==> bounded(#[trigger] pixels@[i], COLOR_MAX as int),
    ensures
        scene_wf(s),
        s.materials@.len() >= 10,
        crate::bvh::leaves(s.world).len() == 11,
        exists|k: int|
            0 <= k < crate::bvh::leaves(s.world).len() && #[trigger] quad_at(
                crate::bvh::leaves(s.world),
                k,
                Vec3 { x: 8060928i64, y: 36306944i64, z: 9633792i64 },
                Vec3 { x: 19660800i64, y: 0i64, z: 0i64 },
                Vec3 { x: 0i64, y: 0i64, z: 17367040i64 },
                1,
            ),
        s.cam.aspect_ratio == FP && s.cam.image_width == 800 && s.cam.samples_per_pixel == 5000
            && s.cam.max_depth == 40 && s.cam.vfov == 40 * FP && s.cam.defocus_angle == 0,
        s.cam.lookfrom == (Vec3 { x: 31326208i64, y: 18219008i64, z: -39321600i64 }),
        s.cam.lookat == (Vec3 { x: 18219008i64, y: 18219008i64, z: 0i64 }),
        s.cam.background == (Vec3 { x: 0i64, y: 0i64, z: 0i64 }),
{
    let mut rng = Rng64::new(seed);
    let mut mats: Vec<Material> = Vec::new();
    let ground = push_mat(&mut mats, Lambertian::new(Vec3::new(31457, 54395, 34734)));
    let mut boxes1 = HittableList::new();
    let mut i: i64 = 0;
    while i < 20
        invariant
            mats_wf(mats@),
            obj_wf(Object::List(boxes1)),
            0 <= i <= 20,
            forall|j: int|
                0 <= j < boxes1.objects@.len() ==> #[trigger] buildable(boxes1.objects@[j]),
            i >= 1 ==> boxes1.objects@.len() >= 1,
        decreases 20 - i,
    {
        let mut j: i64 = 0;
        while j < 20
            invariant
                mats_wf(mats@),
                obj_wf(Object::List(boxes1)),
                0 <= i < 20,
                0 <= j <= 20,
                forall|k: int|
                    0 <= k < boxes1.objects@.len() ==> #[trigger] buildable(boxes1.objects@[k]),
                j >= 1 || i >= 1 ==> boxes1.objects@.len() >= 1,
            decreases 20 - j,
        {
            let w: i64 = 100 * FP;
            let x0: i64 = -1000 * FP + i * w;
            let z0: i64 = -1000 * FP + j * w;
            let y0: i64 = 0;
            let x1: i64 = x0 + w;
            let y1: i64 = rng.next_range_fp(FP, 101 * FP);
            let z1: i64 = z0 + w;
            boxes1.add(boxx(Vec3::new(x0, y0, z0), Vec3::new(x1, y1, z1), ground));
            j = j + 1;
        }
        i = i + 1;
    }
    let mut world = HittableList::new();
    world.add(Object::List(HittableList::new_list(BvhNode::new(boxes1))));
    let light = push_mat(&mut mats, DiffuseLight::new(Vec3::new(7 * FP, 7 * FP, 7 * FP)));
    let lightq = axis_quad(Vec3::new(8060928, 36306944, 9633792), Vec3::new(19660800, 0, 0), Vec3::new(0, 0, 17367040), light);
    world.add(lightq);
    let moving = push_mat(&mut mats, Lambertian::new(Vec3::new(45875, 19661, 6554)));
    let center1 = Vec3::new(26214400, 26214400, 13107200);
    let center2 = Vec3::new(28180480, 26214400, 13107200);
    world.add(Object::Sphere(Sphere::new_to(center1, center2, 3276800, moving)));
    let glass = push_mat(&mut mats, Dialectric::new(98304, 0));
    world.add(Object::Sphere(Sphere::new(Vec3::new(17039360, 9830400, 2949120), 3276800, glass)));
    let steel = push_mat(&mut mats, Metal::new(Vec3::new(52429, 52429, 58982), FP));
    world.add(Object::Sphere(Sphere::new(Vec3::new(0, 9830400, 9502720), 3276800, steel)));
    let glass2 = push_mat(&mut mats, Dialectric::new(98304, 0));
    let boundary = Object::Sphere(Sphere::new(Vec3::new(23592960, 9830400, 9502720), 4587520, glass2));
    world.add(boundary);
    let blue_fog = push_mat(&mut mats, Isotorpic::new(Vec3::new(13107, 26214, 58982)));
    let boundary2 = Object::Sphere(Sphere::new(Vec3::new(23592960, 9830400, 9502720), 4587520, glass2));
    world.add(ConstantMedium::new(boundary2, 13107, blue_fog));
    let mist = push_mat(&mut mats, Isotorpic::new(Vec3::new(FP, FP, FP)));
    let glass3 = push_mat(&mut mats, Dialectric::new(98304, 0));
    let boundary3 = Object::Sphere(Sphere::new(Vec3::new(0, 0, 0), 327680000, glass3));
    world.add(ConstantMedium::new(boundary3, 7, mist));
    let etex = ImageTexture::new(width, height, pixels);
    let emat = push_mat(&mut mats, Lambertian::new_tex(etex));
    world.add(Object::Sphere(Sphere::new(Vec3::new(26214400, 13107200, 26214400), 6553600, emat)));
    let pertex = NoiseTexture::new(13107, 13);
    let permat = push_mat(&mut mats, Lambertian::new_tex(pertex));
    world.add(Object::Sphere(Sphere::new(Vec3::new(14417920, 18350080, 19660800), 5242880, permat)));
    let white = push_mat(&mut mats, Lambertian::new(Vec3::new(47841, 47841, 47841)));
    let mut boxes2 = HittableList::new();
    let mut n: i64 = 0;
    while n < 1000
        invariant
            mats_wf(mats@),
            obj_wf(Object::List(boxes2)),
            0 <= n <= 1000,
            forall|k: int|
                0 <= k < boxes2.objects@.len() ==> #[trigger] buildable(boxes2.objects@[k]),
            boxes2.objects@.len() == n,
        decreases 1000 - n,
    {
        let p = Vec3::random_range(&mut rng, 0, 10813440);
        boxes2.add(Object::Sphere(Sphere::new(p, 655360, white)));
        n = n + 1;
    }
    let cloud = BvhNode::new(boxes2);
    let cloud = RotateY::new(cloud, 15 * FP);
    let cloud = Translate::new(cloud, Vec3::new(-6553600, 17694720, 25886720));
    world.add(cloud);
    let ghost wobjs = world.objects@;
    let tree = BvhNode::new(world);
    proof {
        crate::bvh::lemma_leaves_len(tree, wobjs);
        assert(wobjs.contains(wobjs[1]));
        crate::bvh::lemma_leaves_contain(tree, wobjs, wobjs[1]);
        assert(wobjs[1] == lightq);
        let lv = crate::bvh::leaves(tree);
        let k = choose|k: int| 0 <= k < lv.len() && lv[k] == lightq;
        assert(quad_at(
            lv,
            k,
            Vec3 { x: 8060928i64, y: 36306944i64, z: 9633792i64 },
            Vec3 { x: 19660800i64, y: 0i64, z: 0i64 },
            Vec3 { x: 0i64, y: 0i64, z: 17367040i64 },
            1,
        ));
    }
    let mut cam = Camera::new(FP, 800, 5000, 40, 40 * FP, 0, 10 * FP);
    cam.lookfrom = Vec3::new(31326208, 18219008, -39321600);
    cam.lookat = Vec3::new(18219008, 18219008, 0);
    cam.vup = Vec3::new(0, FP, 0);
    cam.background = Vec3::new(0, 0, 0);
    Scene { cam, world: tree, materials: mats }
}

/// The enclosed box around a mirror floor and a triangle mesh handed in as
/// plain vertex triples (loading model files is I/O and happens outside).
pub fn cornell_car(mesh: &Vec<(Point3, Point3, Point3)>) -> (s: Scene)
    requires
        forall|i: int|
            0 <= i < mesh@.len() ==> bounded(#[trigger] mesh@[i].0, OBJ_MAX as int) && bounded(
                mesh@[i].1,
                OBJ_MAX as int,
            ) && bounded(mesh@[i].2, OBJ_MAX as int),
    ensures
        scene_wf(s),
        s.materials@.len() == 6,
        s.materials@[3] == Material::Light(
            DiffuseLight {
                tex: Texture::Solid(
                    SolidColor {
                        albedo: Vec3 {
                            x: (15 * FP) as i64,
                            y: (15 * FP) as i64,
                            z: (15 * FP) as i64,
                        },
                    },
                ),
            },
        ),
        s.materials@[4] == Material::Met(
            Metal { albedo: Vec3 { x: 26214i64, y: 26214i64, z: 26214i64 }, fuzz: 655 },
        ),
        s.materials@[5] == Material::Met(
            Metal { albedo: Vec3 { x: 6554i64, y: 6554i64, z: 6554i64 }, fuzz: 0 },
        ),
        s.world matches Object::List(l) ==> ({
            &&& l.objects@.len() >= 6
            &&& quad_at(
                l.objects@,
                2,
                Vec3 { x: 51445760i64, y: (39321600 - FP) as i64, z: 26542080i64 },
                Vec3 { x: -34078720i64, y: 0i64, z: 0i64 },
                Vec3 { x: 0i64, y: 0i64, z: -13762560i64 },
                3,
            )
            &&& quad_at(
                l.objects@,
                3,
                Vec3 { x: 0i64, y: 0i64, z: 0i64 },
                Vec3 { x: 68812800i64, y: 0i64, z: 0i64 },
                Vec3 { x: 0i64, y: 0i64, z: 52428800i64 },
                4,
            )
        }),
        s.world is List,
        s.cam.aspect_ratio == 116508 && s.cam.image_width == 700 && s.cam.samples_per_pixel == 20
            && s.cam.max_depth == 10 && s.cam.vfov == 40 * FP,
        s.cam.lookfrom == (Vec3 { x: 34406400i64, y: 19660800i64, z: -52428800i64 }),
        s.cam.background == (Vec3 { x: 45875i64, y: 52429i64, z: 65536i64 }),
{
    let mut mats: Vec<Material> = Vec::new();
    let red = push_mat(&mut mats, Lambertian::new(Vec3::new(42598, 3277, 3277)));
    let white = push_mat(&mut mats, Lambertian::new(Vec3::new(47841, 47841, 47841)));
    let green = push_mat(&mut mats, Lambertian::new(Vec3::new(7864, 29491, 9830)));
    let light = push_mat(&mut mats, DiffuseLight::new(Vec3::new(15 * FP, 15 * FP, 15 * FP)));
    let mirror = push_mat(&mut mats, Metal::new(Vec3::new(26214, 26214, 26214), 655));
    let car_mat = push_mat(&mut mats, Metal::new(Vec3::new(6554, 6554, 6554), 0));
    let bw: i64 = 68812800;
    let bh: i64 = 39321600;
    let bd: i64 = 52428800;
    let mut world = HittableList::new();
    world.add(axis_quad(Vec3::new(bw, 0, 0), Vec3::new(0, bh, 0), Vec3::new(0, 0, bd), green));
    world.add(axis_quad(Vec3::new(0, 0, 0), Vec3::new(0, bh, 0), Vec3::new(0, 0, bd), red));
    world.add(axis_quad(Vec3::new(51445760, bh - FP, 26542080), Vec3::new(-34078720, 0, 0), Vec3::new(0, 0, -13762560), light));
    world.add(axis_quad(Vec3::new(0, 0, 0), Vec3::new(bw, 0, 0), Vec3::new(0, 0, bd), mirror));
    world.add(axis_quad(Vec3::new(bw, bh, bd), Vec3::new(-bw, 0, 0), Vec3::new(0, 0, -bd), white));
    world.add(axis_quad(Vec3::new(0, 0, bd), Vec3::new(bw, 0, 0), Vec3::new(0, bh, 0), white));
    let mut triangles = HittableList::new();
    let mut i: usize = 0;
    while i < mesh.len()
        invariant
            obj_wf(Object::List(triangles)),
            forall|k: int|
                0 <= k < triangles.objects@.len() ==> #[trigger] buildable(
                    triangles.objects@[k],
                ),
            i <= mesh@.len(),
            forall|k: int|
                0 <= k < mesh@.len() ==> bounded(#[trigger] mesh@[k].0, OBJ_MAX as int)
                    && bounded(mesh@[k].1, OBJ_MAX as int) && bounded(mesh@[k].2, OBJ_MAX as int),
        decreases mesh@.len() - i,
    {
        let (a, b, c) = mesh[i];
        let tri = Object::Tri(Triangle::new(a, b, c, car_mat));
        triangles.add(RotateY::new(tri, 40 * FP));
        i = i + 1;
    }
    if triangles.objects.len() > 0 {
        world.add(BvhNode::new(triangles));
    }
    let mut cam = Camera::new(116508, 700, 20, 10, 40 * FP, 0, 10 * FP);
    cam.lookfrom = Vec3::new(34406400, 19660800, -52428800);
    cam.lookat = Vec3::new(34406400, 19660800, 0);
    cam.vup = Vec3::new(0, FP, 0);
    cam.background = Vec3::new(45875, 52429, 65536);
    Scene { cam, world: Object::List(world), materials: mats }
}

} // verus!
