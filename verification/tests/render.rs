// End-to-end rendering scenarios: deterministic buffers, darkness where no
// light can reach, and the demonstration scenes building cleanly.
use raytracer::camera::Camera;
use raytracer::fixed::FP;
use raytracer::material::{DiffuseLight, Lambertian};
use raytracer::object::{HittableList, Object};
use raytracer::quad::boxx;
use raytracer::scenes;
use raytracer::scenes_first;
use raytracer::sphere::Sphere;
use raytracer::vec3::Vec3;

fn v(x: i64, y: i64, z: i64) -> Vec3 {
    Vec3::new(x, y, z)
}

#[test]
fn three_sphere_scene_renders_deterministically() {
    // the diffuse/reflective/refractive staging scene under a uniform sky:
    // a fixed seed gives the same pixel buffer every time
    let mut s1 = scenes::till_final();
    s1.cam.image_width = 8;
    s1.cam.samples_per_pixel = 8;
    s1.cam.max_depth = 8;
    let buf1 = s1.cam.render(&s1.world, &s1.materials, 42);
    let mut s2 = scenes::till_final();
    s2.cam.image_width = 8;
    s2.cam.samples_per_pixel = 8;
    s2.cam.max_depth = 8;
    let buf2 = s2.cam.render(&s2.world, &s2.materials, 42);
    assert_eq!(buf1, buf2);
    assert_eq!(buf1.len() as i64, 3 * s1.cam.image_height * 8);
    // the recorded reference for this configuration and seed; sky pixels
    // encode the background (0.7, 0.8, 1.0) exactly as (214, 228, 255)
    let reference: Vec<u8> = vec![
        191, 204, 0, 160, 173, 143, 191, 204, 0, 194, 207, 90, 203, 217, 181, 203, 217, 181,
        214, 228, 255, 214, 228, 255, 191, 204, 0, 179, 191, 0, 191, 204, 0, 191, 204, 0, 191,
        204, 0, 191, 204, 0, 194, 207, 90, 188, 201, 156, 191, 204, 0, 191, 204, 0, 191, 204,
        0, 191, 204, 0, 191, 204, 0, 191, 204, 0, 191, 204, 0, 191, 204, 0, 191, 204, 0, 191,
        204, 0, 191, 204, 0, 191, 204, 0, 191, 204, 0, 191, 204, 0, 191, 204, 0, 191, 204, 0,
    ];
    assert_eq!(buf1, reference);
    // the sky makes the image far from black overall
    let total: u64 = buf1.iter().map(|&b| b as u64).sum();
    assert!(total > buf1.len() as u64 * 8);
    // a different seed jitters differently
    let mut s3 = scenes::till_final();
    s3.cam.image_width = 8;
    s3.cam.samples_per_pixel = 8;
    s3.cam.max_depth = 8;
    let buf3 = s3.cam.render(&s3.world, &s3.materials, 43);
    assert!(buf1 != buf3 || buf1.iter().all(|&b| b == 0));
}

#[test]
fn enclosed_light_leaves_outside_black() {
    // a quad light sealed inside a closed box, black background: pixels seen
    // from outside have no path to the light and stay exactly black
    let mut mats = Vec::new();
    mats.push(Lambertian::new(v(FP / 2, FP / 2, FP / 2)));
    mats.push(DiffuseLight::new(v(15 * FP, 15 * FP, 15 * FP)));
    let mut world = HittableList::new();
    // double walls: a grazing bounce cannot slip past both shells
    world.add(boxx(v(-2 * FP, -2 * FP, -2 * FP), v(2 * FP, 2 * FP, 2 * FP), 0));
    world.add(boxx(v(-3 * FP, -3 * FP, -3 * FP), v(3 * FP, 3 * FP, 3 * FP), 0));
    world.add(Object::Sphere(Sphere::new(v(0, 0, 0), FP / 2, 1)));
    let world = Object::List(world);
    let mut cam = Camera::new(FP, 8, 8, 8, 40 * FP, 0, 10 * FP);
    cam.lookfrom = v(0, 0, -10 * FP);
    cam.lookat = v(0, 0, 0);
    cam.vup = v(0, FP, 0);
    cam.background = v(0, 0, 0);
    let buf = cam.render(&world, &mats, 7);
    assert!(buf.iter().all(|&b| b == 0), "an outside pixel was not black");
}

#[test]
fn demonstration_scenes_build() {
    let s = scenes::till_final();
    assert!(s.materials.len() >= 5);
    let s = scenes::bouncing_spheres_seeded(1);
    assert!(s.materials.len() > 4);
    let s = scenes::checkered_spheres();
    assert!(s.materials.len() == 2);
    let s = scenes::perlin_spheres();
    assert!(s.materials.len() == 2);
    let s = scenes::quads();
    assert!(s.materials.len() == 5);
    let s = scenes::simple_light();
    assert!(s.materials.len() == 3);
    let s = scenes::cornell_box();
    assert!(s.materials.len() == 4);
    let s = scenes::cornell_smoke();
    assert!(s.materials.len() == 6);
    let s = scenes_first::till_final();
    assert!(s.materials.len() == 5);
    let s = scenes_first::end_seeded(2);
    assert!(s.materials.len() > 4);
    // image-textured scenes accept decoded pixel data
    let pixels = vec![v(FP / 2, FP / 4, FP / 8); 4];
    let s = scenes::earth(2, 2, pixels.clone());
    assert!(s.materials.len() == 1);
    let s = scenes::final_scene_seeded(2, 2, pixels, 3);
    assert!(s.materials.len() >= 10);
    // the mesh scene takes plain vertex triples
    let mesh = vec![(v(30 * FP, FP, 30 * FP), v(32 * FP, FP, 30 * FP), v(31 * FP, 3 * FP, 30 * FP))];
    let s = scenes::cornell_car(&mesh);
    assert!(s.materials.len() == 6);
}

#[test]
fn cornell_box_renders_with_light() {
    let mut s = scenes::cornell_box();
    s.cam.image_width = 6;
    s.cam.samples_per_pixel = 16;
    s.cam.max_depth = 8;
    let buf = s.cam.render(&s.world, &s.materials, 11);
    assert_eq!(buf.len() as i64, 3 * s.cam.image_height * 6);
    // some light reaches the film
    let total: u64 = buf.iter().map(|&b| b as u64).sum();
    assert!(total > 0);
}
