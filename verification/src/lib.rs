use vstd::prelude::*;

pub mod fixed;
pub mod interval;
pub mod ray;
pub mod vec3;
pub mod aabb;
pub mod rng;
pub mod mathfn;
pub mod hit;
pub mod sphere;
pub mod quad;
pub mod triangle;
pub mod object;
pub mod bvh;
pub mod world;
pub mod perlin;
pub mod texture;
pub mod material;
pub mod color;
pub mod camera;
pub mod scenes;
pub mod scenes_first;

verus! {

} // verus!
