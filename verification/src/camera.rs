//! The integrator: generates jittered primary rays per pixel and sample,
//! resolves each path recursively through the scene, and averages samples
//! into gamma-encoded bytes.  Radiance is clamped channelwise into
//! [0, CLIMIT], so every color the integrator produces is bounded.
use vstd::prelude::*;
use crate::color::{write_color, byte_of};
use crate::fixed::{FP, fmul, fp_mul, fp_div};
use crate::hit::ray_wf;
use crate::interval::{Interval, INF};
use crate::material::{Material, mat_wf, emitted_spec, scatter_spec};
use crate::mathfn::{sin_fp, cos_fp, to_radians, PI_FP, TWO_PI_FP};
use crate::object::{Object, obj_wf, bbox_of, hit_spec, lemma_hit_in_box};
use crate::ray::Ray;
use crate::rng::{Rng64, rng_step, rng_out, unit_fp_of, unit_scaled, seed_state};
use crate::vec3::{Vec3, Color, Point3, bounded, unit_disk_spec, OBJ_MAX, RAY_MAX, DOT_MAX};

verus! {

/// Radiance ceiling per channel (256 in fixed point): every color the
/// integrator handles is clamped into [0, CLIMIT].
pub const CLIMIT: i64 = 0x100_0000;

/// Every material of the arena is well formed.
pub open spec fn mats_wf(s: Seq<Material>) -> bool {
    forall|i: int| 0 <= i < s.len() ==> #[trigger] mat_wf(s[i])
}

/// A value clamped into [-bound, bound].
pub open spec fn cmag(v: int, bound: int) -> int {
    if v > bound {
        bound
    } else if v < -bound {
        -bound
    } else {
        v
    }
}

/// A radiance channel clamped into [0, CLIMIT].
pub open spec fn cchan(v: int) -> int {
    if v < 0 {
        0
    } else if v > CLIMIT {
        CLIMIT as int
    } else {
        v
    }
}

/// A color clamped channelwise into [0, CLIMIT].
pub open spec fn ccolor(c: Color) -> Color {
    Vec3 { x: cchan(c.x as int) as i64, y: cchan(c.y as int) as i64, z: cchan(c.z as int) as i64 }
}

/// The image height derived from the width and aspect ratio: the rounded
/// quotient, clamped into [1, 4096].
pub open spec fn height_of(width: int, aspect: int) -> int {
    let h = crate::fixed::fdiv(width * (FP as int), aspect) / (FP as int);
    if h < 1 {
        1
    } else if h > 4096 {
        4096
    } else {
        h
    }
}

pub struct Camera {
    pub aspect_ratio: i64,
    pub image_width: i64,
    pub samples_per_pixel: i64,
    pub max_depth: i64,
    pub background: Color,
    pub image_height: i64,
    pub pixel_samples_scale: i64,
    pub center: Point3,
    pub pixel00_loc: Point3,
    pub pixel_delta_u: Vec3,
    pub pixel_delta_v: Vec3,
    pub vfov: i64,
    pub lookfrom: Point3,
    pub lookat: Point3,
    pub vup: Vec3,
    pub defocus_angle: i64,
    pub focus_dist: i64,
    pub defocus_disk_u: Vec3,
    pub defocus_disk_v: Vec3,
}

/// The camera's configuration is within supported limits.
pub open spec fn cam_config_wf(c: Camera) -> bool {
    &&& 0x2000 <= c.aspect_ratio <= 0x8_0000
    &&& 1 <= c.image_width <= 4096
    &&& 1 <= c.samples_per_pixel <= 8192
    &&& 0 <= c.max_depth <= 64
    &&& bounded(c.background, CLIMIT as int)
    &&& FP / 8 <= c.vfov <= 170 * FP
    &&& bounded(c.lookfrom, OBJ_MAX as int)
    &&& bounded(c.lookat, OBJ_MAX as int)
    &&& bounded(c.vup, 4 * FP as int)
    &&& 0 <= c.defocus_angle <= 60 * FP
    &&& 1 <= c.focus_dist <= OBJ_MAX
}

/// The derived state initialize produces: everything a ray generator reads
/// is bounded tightly enough that primary rays stay in the supported range.
pub open spec fn cam_ready(c: Camera) -> bool {
    &&& cam_config_wf(c)
    &&& 1 <= c.image_height <= 4096
    &&& 0 <= c.pixel_samples_scale <= 0x1_0000_0000
    &&& bounded(c.center, OBJ_MAX as int)
    &&& bounded(c.pixel00_loc, 0x2000_0000)
    &&& bounded(c.pixel_delta_u, 0x4_0000)
    &&& bounded(c.pixel_delta_v, 0x4_0000)
    &&& bounded(c.defocus_disk_u, 0x100_0000)
    &&& bounded(c.defocus_disk_v, 0x100_0000)
}


/// The primary ray for pixel (i, j) from a generator state, together with
/// the state the draws leave behind: a jitter offset within the pixel, an
/// optional lens-disk offset, a clamped direction, and a time stamp.
pub open spec fn get_ray_spec(c: Camera, i: int, j: int, s: u64) -> (Ray, u64) {
    let s1 = rng_step(s);
    let ox = unit_fp_of(rng_out(s1)) - FP / 2;
    let s2 = rng_step(s1);
    let oy = unit_fp_of(rng_out(s2)) - FP / 2;
    let iw = i * FP + ox;
    let jw = j * FP + oy;
    let sample = Vec3 {
        x: cmag(
            c.pixel00_loc.x + fmul(iw, c.pixel_delta_u.x as int) + fmul(
                jw,
                c.pixel_delta_v.x as int,
            ),
            0x3000_0000,
        ) as i64,
        y: cmag(
            c.pixel00_loc.y + fmul(iw, c.pixel_delta_u.y as int) + fmul(
                jw,
                c.pixel_delta_v.y as int,
            ),
            0x3000_0000,
        ) as i64,
        z: cmag(
            c.pixel00_loc.z + fmul(iw, c.pixel_delta_u.z as int) + fmul(
                jw,
                c.pixel_delta_v.z as int,
            ),
            0x3000_0000,
        ) as i64,
    };
    let lens = if c.defocus_angle <= 0 {
        (c.center, s2)
    } else {
        let p = unit_disk_spec(
            unit_fp_of(rng_out(rng_step(s2))) as int,
            unit_scaled(rng_out(rng_step(rng_step(s2))), crate::mathfn::TWO_PI_FP as int),
        );
        (
            Vec3 {
                x: cmag(
                    c.center.x + fmul(p.x as int, c.defocus_disk_u.x as int) + fmul(
                        p.y as int,
                        c.defocus_disk_v.x as int,
                    ),
                    0x2100_0000,
                ) as i64,
                y: cmag(
                    c.center.y + fmul(p.x as int, c.defocus_disk_u.y as int) + fmul(
                        p.y as int,
                        c.defocus_disk_v.y as int,
                    ),
                    0x2100_0000,
                ) as i64,
                z: cmag(
                    c.center.z + fmul(p.x as int, c.defocus_disk_u.z as int) + fmul(
                        p.y as int,
                        c.defocus_disk_v.z as int,
                    ),
                    0x2100_0000,
                ) as i64,
            },
            rng_step(rng_step(s2)),
        )
    };
    let origin = lens.0;
    let s3 = lens.1;
    let direction = Vec3 {
        x: cmag(sample.x - origin.x, RAY_MAX as int) as i64,
        y: cmag(sample.y - origin.y, RAY_MAX as int) as i64,
        z: cmag(sample.z - origin.z, RAY_MAX as int) as i64,
    };
    let time = unit_fp_of(rng_out(rng_step(s3)));
    (Ray { orig: origin, dir: direction, time }, rng_step(s3))
}

/// The integrator's recursion: black when the depth budget is exhausted, the
/// clamped background when nothing is hit, otherwise the clamped emission
/// plus the attenuated, clamped radiance of the scattered path; absorption
/// (and an out-of-range material index) terminates with the emission alone.
/// The second component is the generator state the path's draws leave.
pub open spec fn ray_color_spec(
    background: Color,
    r: Ray,
    depth: int,
    world: Object,
    mats: Seq<Material>,
    s: u64,
) -> (Color, u64)
    decreases depth,
{
    if depth <= 0 {
        (Vec3 { x: 0i64, y: 0i64, z: 0i64 }, s)
    } else {
        match hit_spec(world, r, 16, crate::interval::INF as int) {
            None => (ccolor(background), s),
            Some(rec) => {
                if rec.mat >= mats.len() {
                    (Vec3 { x: 0i64, y: 0i64, z: 0i64 }, s)
                } else {
                    let m = mats[rec.mat as int];
                    let emission = ccolor(emitted_spec(m, rec.u as int, rec.v as int, rec.p));
                    let scat = scatter_spec(m, r, rec, s);
                    match scat.0 {
                        None => (emission, scat.1),
                        Some(ar) => {
                            let inner = ray_color_spec(
                                background,
                                ar.1,
                                depth - 1,
                                world,
                                mats,
                                scat.1,
                            );
                            (
                                Vec3 {
                                    x: cchan(
                                        emission.x + fmul(ar.0.x as int, inner.0.x as int),
                                    ) as i64,
                                    y: cchan(
                                        emission.y + fmul(ar.0.y as int, inner.0.y as int),
                                    ) as i64,
                                    z: cchan(
                                        emission.z + fmul(ar.0.z as int, inner.0.z as int),
                                    ) as i64,
                                },
                                inner.1,
                            )
                        },
                    }
                }
            },
        }
    }
}

/// Every branch of the integrator's recursion yields a clamped color.
pub proof fn lemma_ray_color_spec_bounds(
    background: Color,
    r: Ray,
    depth: int,
    world: Object,
    mats: Seq<Material>,
    s: u64,
)
    ensures
        ({
            let c = ray_color_spec(background, r, depth, world, mats, s).0;
            0 <= c.x <= CLIMIT && 0 <= c.y <= CLIMIT && 0 <= c.z <= CLIMIT
        }),
{
}

/// The channel sums of n samples from a pixel, head draw first, with the
/// state the samples leave behind.
pub open spec fn sample_acc_spec(
    c: Camera,
    world: Object,
    mats: Seq<Material>,
    i: int,
    j: int,
    s: u64,
    n: int,
) -> (Color, u64)
    decreases n,
{
    if n <= 0 {
        (Vec3 { x: 0i64, y: 0i64, z: 0i64 }, s)
    } else {
        let rs = get_ray_spec(c, i, j, s);
        let cc = ray_color_spec(c.background, rs.0, c.max_depth as int, world, mats, rs.1);
        let rest = sample_acc_spec(c, world, mats, i, j, cc.1, n - 1);
        (
            Vec3 {
                x: (cc.0.x + rest.0.x) as i64,
                y: (cc.0.y + rest.0.y) as i64,
                z: (cc.0.z + rest.0.z) as i64,
            },
            rest.1,
        )
    }
}

/// With a black background and no emissive material anywhere in the arena,
/// the integrator's radiance is exactly zero: depth exhaustion, misses and
/// absorption all yield black, and an attenuated black stays black, so such
/// pixels gamma-encode to exact zero.
pub proof fn lemma_dark_scene_black(
    background: Color,
    r: Ray,
    depth: int,
    world: Object,
    mats: Seq<Material>,
    s: u64,
)
    requires
        background == (Vec3 { x: 0i64, y: 0i64, z: 0i64 }),
        forall|k: int| 0 <= k < mats.len() ==> !(#[trigger] mats[k] is Light),
    ensures
        ray_color_spec(background, r, depth, world, mats, s).0 == (Vec3 {
            x: 0i64,
            y: 0i64,
            z: 0i64,
        }),
    decreases depth,
{
    if depth > 0 {
        match hit_spec(world, r, 16, crate::interval::INF as int) {
            None => {
                assert(ccolor(background) == (Vec3 { x: 0i64, y: 0i64, z: 0i64 }));
            },
            Some(rec) => {
                if rec.mat < mats.len() {
                    let m = mats[rec.mat as int];
                    assert(!(m is Light));
                    assert(emitted_spec(m, rec.u as int, rec.v as int, rec.p) == (Vec3 {
                        x: 0i64,
                        y: 0i64,
                        z: 0i64,
                    }));
                    let scat = scatter_spec(m, r, rec, s);
                    match scat.0 {
                        None => {},
                        Some(ar) => {
                            lemma_dark_scene_black(background, ar.1, depth - 1, world, mats, scat.1);
                            crate::fixed::lemma_mul_zero(ar.0.x as int);
                            crate::fixed::lemma_mul_zero(ar.0.y as int);
                            crate::fixed::lemma_mul_zero(ar.0.z as int);
                        },
                    }
                }
            },
        }
    }
}

/// The sample sums grow by at most one clamped color per sample.
pub proof fn lemma_sample_acc_bounds(
    c: Camera,
    world: Object,
    mats: Seq<Material>,
    i: int,
    j: int,
    s: u64,
    n: int,
)
    requires
        0 <= n <= 8192,
    ensures
        ({
            let a = sample_acc_spec(c, world, mats, i, j, s, n).0;
            0 <= a.x <= n * CLIMIT && 0 <= a.y <= n * CLIMIT && 0 <= a.z <= n * CLIMIT
        }),
    decreases n,
{
    if n > 0 {
        let rs = get_ray_spec(c, i, j, s);
        lemma_ray_color_spec_bounds(c.background, rs.0, c.max_depth as int, world, mats, rs.1);
        let cc = ray_color_spec(c.background, rs.0, c.max_depth as int, world, mats, rs.1);
        lemma_sample_acc_bounds(c, world, mats, i, j, cc.1, n - 1);
        assert(n * CLIMIT == (n - 1) * CLIMIT + CLIMIT) by (nonlinear_arith);
        assert((n - 1) * CLIMIT >= 0) by (nonlinear_arith)
            requires
                n >= 1,
                CLIMIT > 0,
        ;
    } else {
        assert(sample_acc_spec(c, world, mats, i, j, s, n).0 == (Vec3 {
            x: 0i64,
            y: 0i64,
            z: 0i64,
        }));
        assert(0 * CLIMIT == 0) by (nonlinear_arith);
    }
}

/// One pixel's display bytes: the sample average of the integrator's
/// radiance, gamma-encoded and quantized channelwise.
pub open spec fn pixel_bytes_spec(
    c: Camera,
    world: Object,
    mats: Seq<Material>,
    i: int,
    j: int,
    s: u64,
) -> (Seq<u8>, u64) {
    let a = sample_acc_spec(c, world, mats, i, j, s, c.samples_per_pixel as int);
    let avg = Vec3 {
        x: fmul(a.0.x as int, c.pixel_samples_scale as int) as i64,
        y: fmul(a.0.y as int, c.pixel_samples_scale as int) as i64,
        z: fmul(a.0.z as int, c.pixel_samples_scale as int) as i64,
    };
    (
        seq![
            byte_of(avg.x as int) as u8,
            byte_of(avg.y as int) as u8,
            byte_of(avg.z as int) as u8,
        ],
        a.1,
    )
}

/// The bytes of one row from column i on, threading the generator state
/// from pixel to pixel.
pub open spec fn row_bytes_spec(
    c: Camera,
    world: Object,
    mats: Seq<Material>,
    j: int,
    i: int,
    s: u64,
) -> (Seq<u8>, u64)
    decreases c.image_width - i,
{
    if i < 0 || i >= c.image_width {
        (Seq::<u8>::empty(), s)
    } else {
        let px = pixel_bytes_spec(c, world, mats, i, j, s);
        let rest = row_bytes_spec(c, world, mats, j, i + 1, px.1);
        (px.0 + rest.0, rest.1)
    }
}

/// The image bytes from row j on, in row-major order.
pub open spec fn image_bytes_spec(
    c: Camera,
    world: Object,
    mats: Seq<Material>,
    j: int,
    s: u64,
) -> (Seq<u8>, u64)
    decreases c.image_height - j,
{
    if j < 0 || j >= c.image_height {
        (Seq::<u8>::empty(), s)
    } else {
        let row = row_bytes_spec(c, world, mats, j, 0, s);
        let rest = image_bytes_spec(c, world, mats, j + 1, row.1);
        (row.0 + rest.0, rest.1)
    }
}

impl Camera {
    /// A camera with the given image and lens parameters; orientation fields
    /// start at their conventional defaults and scenes overwrite them.
    pub fn new(
        aspect_ratio: i64,
        image_width: i64,
        samples: i64,
        depth: i64,
        fov: i64,
        defocus_angle: i64,
        focus_dist: i64,
    ) -> (c: Camera)
        requires
            0x2000 <= aspect_ratio <= 0x8_0000,
            1 <= image_width <= 4096,
            1 <= samples <= 8192,
            0 <= depth <= 64,
            FP / 8 <= fov <= 170 * FP,
            0 <= defocus_angle <= 60 * FP,
            1 <= focus_dist <= OBJ_MAX,
        ensures
            cam_config_wf(c),
            c.aspect_ratio == aspect_ratio,
            c.image_width == image_width,
            c.samples_per_pixel == samples,
            c.max_depth == depth,
            c.vfov == fov,
            c.defocus_angle == defocus_angle,
            c.focus_dist == focus_dist,
            c.background == (Vec3 { x: 0i64, y: 0i64, z: 0i64 }),
            c.lookfrom == (Vec3 { x: 0i64, y: 0i64, z: 0i64 }),
            c.lookat == (Vec3 { x: 0i64, y: 0i64, z: (-FP) as i64 }),
            c.vup == (Vec3 { x: 0i64, y: FP as i64, z: 0i64 }),
    {
        Camera {
            aspect_ratio,
            image_width,
            samples_per_pixel: samples,
            max_depth: depth,
            background: Vec3::zero(),
            image_height: 1,
            pixel_samples_scale: 0,
            center: Vec3::zero(),
            pixel00_loc: Vec3::zero(),
            pixel_delta_u: Vec3::zero(),
            pixel_delta_v: Vec3::zero(),
            vfov: fov,
            lookfrom: Vec3::zero(),
            lookat: Vec3::new(0, 0, -FP),
            vup: Vec3::new(0, FP, 0),
            defocus_angle,
            focus_dist,
            defocus_disk_u: Vec3::zero(),
            defocus_disk_v: Vec3::zero(),
        }
    }

    /// Derive the viewport geometry from the configuration.
    fn initialize(&mut self)
        requires
            cam_config_wf(*old(self)),
        ensures
            cam_ready(*final(self)),
            final(self).aspect_ratio == old(self).aspect_ratio,
            final(self).image_width == old(self).image_width,
            final(self).samples_per_pixel == old(self).samples_per_pixel,
            final(self).max_depth == old(self).max_depth,
            final(self).background == old(self).background,
            final(self).center == old(self).lookfrom,
            final(self).image_height == height_of(
                old(self).image_width as int,
                old(self).aspect_ratio as int,
            ),
            final(self).pixel_samples_scale == FP as int / old(self).samples_per_pixel as int,
    {
        proof {
            crate::fixed::lemma_mul_abs_bound(
                self.image_width as int,
                FP as int,
                4096,
                0x1_0000,
            );
            crate::fixed::lemma_fdiv_in(
                self.image_width as int * FP as int,
                self.aspect_ratio as int,
                0x1000_0000,
            );
        }
        let width_fp = self.image_width * FP;
        let hf = fp_div(width_fp, self.aspect_ratio);
        let mut h_px: i64 = hf / FP;
        if h_px < 1 {
            h_px = 1;
        }
        if h_px > 4096 {
            h_px = 4096;
        }
        self.image_height = h_px;
        proof {
            vstd::arithmetic::div_mod::lemma_div_pos_is_pos(
                FP as int,
                self.samples_per_pixel as int,
            );
            vstd::arithmetic::div_mod::lemma_div_nonincreasing(
                FP as int,
                self.samples_per_pixel as int,
            );
        }
        self.pixel_samples_scale = FP / self.samples_per_pixel;
        self.center = self.lookfrom;
        // the viewport's half height: the tangent of half the field of view,
        // clamped into [1/64, 4]
        proof {
            lemma_angle_ranges(self.vfov as int, self.defocus_angle as int);
        }
        let theta = to_radians(self.vfov);
        let half = theta / 2;
        let sh = sin_fp(half);
        let ch = cos_fp(half);
        let h: i64 = if ch <= 0 {
            4 * FP
        } else {
            proof {
                crate::fixed::lemma_fdiv_in(sh as int, ch as int, 0x1_0000);
            }
            let t = fp_div(sh, ch);
            if t < FP / 64 {
                FP / 64
            } else if t > 4 * FP {
                4 * FP
            } else {
                t
            }
        };
        proof {
            crate::fixed::lemma_mul_abs_bound(2 * h as int, self.focus_dist as int, 0x8_0000, 0x2000_0000);
            crate::fixed::lemma_fmul_div_scale(2 * h as int * self.focus_dist as int, 0x1000_0000_0000);
        }
        let viewport_height_raw = fp_mul(2 * h, self.focus_dist);
        let viewport_height = clamp_mag(viewport_height_raw, 0x4000_0000);
        proof {
            crate::fixed::lemma_mul_abs_bound(
                viewport_height as int,
                self.image_width as int,
                0x4000_0000,
                4096,
            );
        }
        let viewport_width = clamp_mag(
            ((viewport_height as i128) * (self.image_width as i128) / (self.image_height as i128))
                as i64,
            0x4000_0000,
        );
        // camera frame: w looks backwards, u right, v up
        let wdir = unit_fallback(&self.lookfrom.sub(&self.lookat), Vec3::new(0, 0, FP));
        let udir = unit_fallback(&cross_small(&self.vup, &wdir), Vec3::new(FP, 0, 0));
        let vdir = cross_small(&wdir, &udir);
        // viewport edge vectors and per-pixel deltas, clamped into range
        let vu = scale_clamped(&udir, viewport_width, 0x10_0000_0000);
        let vv = scale_clamped(&vdir.neg_small(), viewport_height, 0x10_0000_0000);
        self.pixel_delta_u = div_clamped(&vu, self.image_width, 0x4_0000);
        self.pixel_delta_v = div_clamped(&vv, self.image_height, 0x4_0000);
        let foc = scale_clamped(&wdir, self.focus_dist, 0x10_0000_0000);
        let upper_left = Vec3::new(
            clamp_mag(self.center.x - foc.x - vu.x / 2 - vv.x / 2, 0x1fff_0000),
            clamp_mag(self.center.y - foc.y - vu.y / 2 - vv.y / 2, 0x1fff_0000),
            clamp_mag(self.center.z - foc.z - vu.z / 2 - vv.z / 2, 0x1fff_0000),
        );
        self.pixel00_loc = Vec3::new(
            clamp_mag(upper_left.x + self.pixel_delta_u.x / 2 + self.pixel_delta_v.x / 2, 0x2000_0000),
            clamp_mag(upper_left.y + self.pixel_delta_u.y / 2 + self.pixel_delta_v.y / 2, 0x2000_0000),
            clamp_mag(upper_left.z + self.pixel_delta_u.z / 2 + self.pixel_delta_v.z / 2, 0x2000_0000),
        );
        // the defocus disk: the lens radius along the camera's u and v
        let half_def = to_radians(self.defocus_angle) / 2;
        let sd = sin_fp(half_def);
        let cd = cos_fp(half_def);
        let dtan: i64 = if cd <= 0 {
            FP
        } else {
            proof {
                crate::fixed::lemma_fdiv_in(sd as int, cd as int, 0x1_0000);
            }
            let t = fp_div(sd, cd);
            clamp_mag(t, FP)
        };
        proof {
            crate::fixed::lemma_mul_abs_bound(self.focus_dist as int, dtan as int, 0x2000_0000, 0x1_0000);
            crate::fixed::lemma_fmul_div_scale(self.focus_dist as int * dtan as int, 0x2000_0000);
        }
        let defocus_radius = clamp_mag(fp_mul(self.focus_dist, dtan), 0x10_0000);
        self.defocus_disk_u = scale_clamped(&udir, defocus_radius, 0x100_0000);
        self.defocus_disk_v = scale_clamped(&vdir, defocus_radius, 0x100_0000);
    }

    /// A primary ray through pixel (i, j): jittered within the pixel, offset
    /// within the lens disk when the camera has one, stamped with a random
    /// time in [0, 1).  Exactly get_ray_spec, with the generator advanced
    /// the same way.
    fn get_ray(&self, i: i64, j: i64, rng: &mut Rng64) -> (r: Ray)
        requires
            cam_ready(*self),
            0 <= i <= 4096,
            0 <= j <= 4096,
        ensures
            ray_wf(r),
            r == get_ray_spec(*self, i as int, j as int, old(rng).state).0,
            final(rng).state == get_ray_spec(*self, i as int, j as int, old(rng).state).1,
    {
        let ox = rng.next_unit_fp() - FP / 2;
        let oy = rng.next_unit_fp() - FP / 2;
        let iw: i64 = i * FP + ox;
        let jw: i64 = j * FP + oy;
        proof {
            crate::fixed::lemma_mul_abs_bound(iw as int, self.pixel_delta_u.x as int, 0x1001_0000, 0x4_0000);
            crate::fixed::lemma_mul_abs_bound(iw as int, self.pixel_delta_u.y as int, 0x1001_0000, 0x4_0000);
            crate::fixed::lemma_mul_abs_bound(iw as int, self.pixel_delta_u.z as int, 0x1001_0000, 0x4_0000);
            crate::fixed::lemma_mul_abs_bound(jw as int, self.pixel_delta_v.x as int, 0x1001_0000, 0x4_0000);
            crate::fixed::lemma_mul_abs_bound(jw as int, self.pixel_delta_v.y as int, 0x1001_0000, 0x4_0000);
            crate::fixed::lemma_mul_abs_bound(jw as int, self.pixel_delta_v.z as int, 0x1001_0000, 0x4_0000);
            crate::fixed::lemma_fmul_div_scale(iw as int * self.pixel_delta_u.x as int, 0x4_0440_0000);
            crate::fixed::lemma_fmul_div_scale(iw as int * self.pixel_delta_u.y as int, 0x4_0440_0000);
            crate::fixed::lemma_fmul_div_scale(iw as int * self.pixel_delta_u.z as int, 0x4_0440_0000);
            crate::fixed::lemma_fmul_div_scale(jw as int * self.pixel_delta_v.x as int, 0x4_0440_0000);
            crate::fixed::lemma_fmul_div_scale(jw as int * self.pixel_delta_v.y as int, 0x4_0440_0000);
            crate::fixed::lemma_fmul_div_scale(jw as int * self.pixel_delta_v.z as int, 0x4_0440_0000);
        }
        let sample = Vec3::new(
            clamp_mag(self.pixel00_loc.x + fp_mul(iw, self.pixel_delta_u.x) + fp_mul(jw, self.pixel_delta_v.x), 0x3000_0000),
            clamp_mag(self.pixel00_loc.y + fp_mul(iw, self.pixel_delta_u.y) + fp_mul(jw, self.pixel_delta_v.y), 0x3000_0000),
            clamp_mag(self.pixel00_loc.z + fp_mul(iw, self.pixel_delta_u.z) + fp_mul(jw, self.pixel_delta_v.z), 0x3000_0000),
        );
        let origin: Point3 = if self.defocus_angle <= 0 {
            self.center
        } else {
            let p = Vec3::random_in_unit_disk(rng);
            proof {
                crate::fixed::lemma_fmul_unit_abs(p.x as int, self.defocus_disk_u.x as int, 0x100_0000);
                crate::fixed::lemma_fmul_unit_abs(p.x as int, self.defocus_disk_u.y as int, 0x100_0000);
                crate::fixed::lemma_fmul_unit_abs(p.x as int, self.defocus_disk_u.z as int, 0x100_0000);
                crate::fixed::lemma_fmul_unit_abs(p.y as int, self.defocus_disk_v.x as int, 0x100_0000);
                crate::fixed::lemma_fmul_unit_abs(p.y as int, self.defocus_disk_v.y as int, 0x100_0000);
                crate::fixed::lemma_fmul_unit_abs(p.y as int, self.defocus_disk_v.z as int, 0x100_0000);
            }
            Vec3::new(
                clamp_mag(self.center.x + fp_mul(p.x, self.defocus_disk_u.x) + fp_mul(p.y, self.defocus_disk_v.x), 0x2100_0000),
                clamp_mag(self.center.y + fp_mul(p.x, self.defocus_disk_u.y) + fp_mul(p.y, self.defocus_disk_v.y), 0x2100_0000),
                clamp_mag(self.center.z + fp_mul(p.x, self.defocus_disk_u.z) + fp_mul(p.y, self.defocus_disk_v.z), 0x2100_0000),
            )
        };
        let direction = Vec3::new(
            clamp_mag(sample.x - origin.x, RAY_MAX),
            clamp_mag(sample.y - origin.y, RAY_MAX),
            clamp_mag(sample.z - origin.z, RAY_MAX),
        );
        let time = rng.next_unit_fp();
        Ray::new(origin, direction, time)
    }

    /// The radiance carried back along a ray: exactly the recursion
    /// ray_color_spec describes (background when nothing is hit, emission
    /// plus attenuated scattering otherwise, black when the depth budget is
    /// exhausted), with the generator advanced the same way.  Channels stay
    /// within [0, CLIMIT].
    pub fn ray_color(&self, r: &Ray, depth: i64, world: &Object, mats: &Vec<Material>, rng: &mut Rng64) -> (c: Color)
        requires
            obj_wf(*world),
            crate::aabb::box_bounded(bbox_of(*world), RAY_MAX as int),
            ray_wf(*r),
            mats_wf(mats@),
            bounded(self.background, CLIMIT as int),
        ensures
            c == ray_color_spec(
                self.background,
                *r,
                depth as int,
                *world,
                mats@,
                old(rng).state,
            ).0,
            final(rng).state == ray_color_spec(
                self.background,
                *r,
                depth as int,
                *world,
                mats@,
                old(rng).state,
            ).1,
            bounded(c, CLIMIT as int),
            c.x >= 0 && c.y >= 0 && c.z >= 0,
        decreases depth,
    {
        if depth <= 0 {
            return Vec3::zero();
        }
        let res = world.hit(r, &Interval::new(16, INF));
        let rec = match res {
            None => {
                return clamp_color(&self.background);
            },
            Some(rec) => rec,
        };
        proof {
            lemma_hit_in_box(*world, *r, 16, INF as int);
        }
        if rec.mat >= mats.len() {
            return Vec3::zero();
        }
        let m = &mats[rec.mat];
        proof {
            assert(mat_wf(mats@[rec.mat as int]));
        }
        let emission = clamp_color(&m.emitted(rec.u, rec.v, rec.p));
        let scat = m.scatter(r, &rec, rng);
        match scat {
            None => emission,
            Some((attenuation, scattered)) => {
                proof {
                    assert(0 <= rec.t);
                    assert(scattered.time() == r.time());
                }
                let inner = self.ray_color(&scattered, depth - 1, world, mats, rng);
                proof {
                    crate::fixed::lemma_mul_abs_bound(attenuation.x as int, inner.x as int, 0x1000_0000_0000, 0x100_0000);
                    crate::fixed::lemma_mul_abs_bound(attenuation.y as int, inner.y as int, 0x1000_0000_0000, 0x100_0000);
                    crate::fixed::lemma_mul_abs_bound(attenuation.z as int, inner.z as int, 0x1000_0000_0000, 0x100_0000);
                    crate::fixed::lemma_fmul_div_scale(attenuation.x as int * inner.x as int, 0x1000_0000_0000_0000);
                    crate::fixed::lemma_fmul_div_scale(attenuation.y as int * inner.y as int, 0x1000_0000_0000_0000);
                    crate::fixed::lemma_fmul_div_scale(attenuation.z as int * inner.z as int, 0x1000_0000_0000_0000);
                }
                let sx = fp_mul(attenuation.x, inner.x);
                let sy = fp_mul(attenuation.y, inner.y);
                let sz = fp_mul(attenuation.z, inner.z);
                Vec3::new(
                    clamp_channel(emission.x + sx),
                    clamp_channel(emission.y + sy),
                    clamp_channel(emission.z + sz),
                )
            },
        }
    }

    /// Sum the radiance of all samples of one pixel; exactly the head-first
    /// sample fold of sample_acc_spec.
    #[verifier::rlimit(100)]
    #[verifier::spinoff_prover]
    fn accumulate_samples(
        &self,
        i: i64,
        j: i64,
        world: &Object,
        mats: &Vec<Material>,
        rng: &mut Rng64,
    ) -> (acc: Color)
        requires
            cam_ready(*self),
            obj_wf(*world),
            crate::aabb::box_bounded(bbox_of(*world), RAY_MAX as int),
            mats_wf(mats@),
            0 <= i <= 4096,
            0 <= j <= 4096,
        ensures
            acc == sample_acc_spec(
                *self,
                *world,
                mats@,
                i as int,
                j as int,
                old(rng).state,
                self.samples_per_pixel as int,
            ).0,
            final(rng).state == sample_acc_spec(
                *self,
                *world,
                mats@,
                i as int,
                j as int,
                old(rng).state,
                self.samples_per_pixel as int,
            ).1,
            0 <= acc.x <= self.samples_per_pixel * CLIMIT,
            0 <= acc.y <= self.samples_per_pixel * CLIMIT,
            0 <= acc.z <= self.samples_per_pixel * CLIMIT,
    {
        let ghost cam = *self;
        let ghost pix_start = rng.state;
        let mut acc = Vec3::zero();
        let mut s: i64 = 0;
        let samples = self.samples_per_pixel;
        while s < samples
            invariant
                cam_ready(*self),
                *self == cam,
                obj_wf(*world),
                crate::aabb::box_bounded(bbox_of(*world), RAY_MAX as int),
                mats_wf(mats@),
                0 <= s <= samples,
                samples == cam.samples_per_pixel,
                1 <= samples <= 8192,
                0 <= i <= 4096,
                0 <= j <= 4096,
                0 <= acc.x <= s * CLIMIT,
                0 <= acc.y <= s * CLIMIT,
                0 <= acc.z <= s * CLIMIT,
                sample_acc_spec(cam, *world, mats@, i as int, j as int, pix_start, samples as int).0.x
                    == acc.x + sample_acc_spec(
                    cam,
                    *world,
                    mats@,
                    i as int,
                    j as int,
                    rng.state,
                    samples as int - s as int,
                ).0.x,
                sample_acc_spec(cam, *world, mats@, i as int, j as int, pix_start, samples as int).0.y
                    == acc.y + sample_acc_spec(
                    cam,
                    *world,
                    mats@,
                    i as int,
                    j as int,
                    rng.state,
                    samples as int - s as int,
                ).0.y,
                sample_acc_spec(cam, *world, mats@, i as int, j as int, pix_start, samples as int).0.z
                    == acc.z + sample_acc_spec(
                    cam,
                    *world,
                    mats@,
                    i as int,
                    j as int,
                    rng.state,
                    samples as int - s as int,
                ).0.z,
                sample_acc_spec(cam, *world, mats@, i as int, j as int, pix_start, samples as int).1
                    == sample_acc_spec(
                    cam,
                    *world,
                    mats@,
                    i as int,
                    j as int,
                    rng.state,
                    samples as int - s as int,
                ).1,
            decreases samples - s,
        {
            let ghost step_start = rng.state;
            let r = self.get_ray(i, j, rng);
            let c = self.ray_color(&r, self.max_depth, world, mats, rng);
            proof {
                assert((s + 1) * CLIMIT == s * CLIMIT + CLIMIT) by (nonlinear_arith);
                lemma_sample_acc_bounds(
                    cam,
                    *world,
                    mats@,
                    i as int,
                    j as int,
                    rng.state,
                    samples as int - s as int - 1,
                );
                assert(sample_acc_spec(
                    cam,
                    *world,
                    mats@,
                    i as int,
                    j as int,
                    step_start,
                    samples as int - s as int,
                ).0.x == c.x + sample_acc_spec(
                    cam,
                    *world,
                    mats@,
                    i as int,
                    j as int,
                    rng.state,
                    samples as int - s as int - 1,
                ).0.x);
            }
            acc = Vec3::new(acc.x + c.x, acc.y + c.y, acc.z + c.z);
            s = s + 1;
        }
        proof {
            lemma_sample_acc_bounds(
                cam,
                *world,
                mats@,
                i as int,
                j as int,
                pix_start,
                samples as int,
            );
        }
        acc
    }

    /// Render the scene into row-major RGB bytes, three per pixel, from the
    /// given seed: exactly the image image_bytes_spec describes for the
    /// derived camera state, the scene and the seed.
    #[verifier::rlimit(100)]
    #[verifier::spinoff_prover]
    pub fn render(&mut self, world: &Object, mats: &Vec<Material>, seed: u64) -> (buf: Vec<u8>)
        requires
            cam_config_wf(*old(self)),
            obj_wf(*world),
            crate::aabb::box_bounded(bbox_of(*world), RAY_MAX as int),
            mats_wf(mats@),
        ensures
            buf@ == image_bytes_spec(*final(self), *world, mats@, 0, seed_state(seed)).0,
            buf@.len() == 3 * final(self).image_height * final(self).image_width,
            final(self).image_height == height_of(
                old(self).image_width as int,
                old(self).aspect_ratio as int,
            ),
            final(self).pixel_samples_scale == FP as int / old(self).samples_per_pixel as int,
            1 <= final(self).image_height <= 4096,
            final(self).image_width == old(self).image_width,
            final(self).samples_per_pixel == old(self).samples_per_pixel,
            final(self).max_depth == old(self).max_depth,
            final(self).background == old(self).background,
    {
        self.initialize();
        let ghost cam = *self;
        let ghost s0 = seed_state(seed);
        let mut rng = Rng64::new(seed);
        let mut buf: Vec<u8> = Vec::new();
        let height = self.image_height;
        let width = self.image_width;
        proof {
            assert(buf@ =~= Seq::<u8>::empty());
            assert(Seq::<u8>::empty() + image_bytes_spec(cam, *world, mats@, 0, s0).0
                =~= image_bytes_spec(cam, *world, mats@, 0, s0).0);
            assert(3 * 0 * (width as int) == 0) by (nonlinear_arith);
        }
        let mut j: i64 = 0;
        while j < height
            invariant
                cam_ready(*self),
                *self == cam,
                obj_wf(*world),
                crate::aabb::box_bounded(bbox_of(*world), RAY_MAX as int),
                mats_wf(mats@),
                0 <= j <= height,
                height == cam.image_height,
                width == cam.image_width,
                1 <= height <= 4096,
                1 <= width <= 4096,
                buf@.len() == 3 * j * width,
                image_bytes_spec(cam, *world, mats@, 0, s0).0 == buf@ + image_bytes_spec(
                    cam,
                    *world,
                    mats@,
                    j as int,
                    rng.state,
                ).0,
                image_bytes_spec(cam, *world, mats@, 0, s0).1 == image_bytes_spec(
                    cam,
                    *world,
                    mats@,
                    j as int,
                    rng.state,
                ).1,
            decreases height - j,
        {
            let ghost row_start = rng.state;
            let mut i: i64 = 0;
            proof {
                assert(image_bytes_spec(cam, *world, mats@, j as int, row_start).0
                    == row_bytes_spec(cam, *world, mats@, j as int, 0, row_start).0
                    + image_bytes_spec(
                    cam,
                    *world,
                    mats@,
                    j as int + 1,
                    row_bytes_spec(cam, *world, mats@, j as int, 0, row_start).1,
                ).0);
            }
            while i < width
                invariant
                    cam_ready(*self),
                    *self == cam,
                    obj_wf(*world),
                    crate::aabb::box_bounded(bbox_of(*world), RAY_MAX as int),
                    mats_wf(mats@),
                    0 <= i <= width,
                    0 <= j < height,
                    height == cam.image_height,
                    width == cam.image_width,
                    1 <= height <= 4096,
                    1 <= width <= 4096,
                    buf@.len() == 3 * j * width + 3 * i,
                    image_bytes_spec(cam, *world, mats@, 0, s0).0 == buf@ + row_bytes_spec(
                        cam,
                        *world,
                        mats@,
                        j as int,
                        i as int,
                        rng.state,
                    ).0 + image_bytes_spec(
                        cam,
                        *world,
                        mats@,
                        j as int + 1,
                        row_bytes_spec(cam, *world, mats@, j as int, i as int, rng.state).1,
                    ).0,
                    image_bytes_spec(cam, *world, mats@, 0, s0).1 == image_bytes_spec(
                        cam,
                        *world,
                        mats@,
                        j as int + 1,
                        row_bytes_spec(cam, *world, mats@, j as int, i as int, rng.state).1,
                    ).1,
                decreases width - i,
            {
                let ghost pix_start = rng.state;
                let samples = self.samples_per_pixel;
                let acc = self.accumulate_samples(i, j, world, mats, &mut rng);
                proof {
                    lemma_sample_acc_bounds(
                        cam,
                        *world,
                        mats@,
                        i as int,
                        j as int,
                        pix_start,
                        samples as int,
                    );
                    assert(samples as int * CLIMIT as int <= 0x20_0000_0000) by (nonlinear_arith)
                        requires
                            1 <= samples as int <= 8192,
                            CLIMIT as int == 0x100_0000,
                    ;
                    crate::fixed::lemma_mul_abs_bound(acc.x as int, self.pixel_samples_scale as int, 0x20_0000_0000, 0x1_0000_0000);
                    crate::fixed::lemma_mul_abs_bound(acc.y as int, self.pixel_samples_scale as int, 0x20_0000_0000, 0x1_0000_0000);
                    crate::fixed::lemma_mul_abs_bound(acc.z as int, self.pixel_samples_scale as int, 0x20_0000_0000, 0x1_0000_0000);
                    crate::fixed::lemma_fmul_div_scale(acc.x as int * self.pixel_samples_scale as int, 0x20_0000_0000_0000);
                    crate::fixed::lemma_fmul_div_scale(acc.y as int * self.pixel_samples_scale as int, 0x20_0000_0000_0000);
                    crate::fixed::lemma_fmul_div_scale(acc.z as int * self.pixel_samples_scale as int, 0x20_0000_0000_0000);
                }
                let avg = Vec3::new(
                    fp_mul(acc.x, self.pixel_samples_scale),
                    fp_mul(acc.y, self.pixel_samples_scale),
                    fp_mul(acc.z, self.pixel_samples_scale),
                );
                let (rb, gb, bb) = write_color(&avg);
                let ghost buf_before = buf@;
                buf.push(rb);
                buf.push(gb);
                buf.push(bb);
                proof {
                    assert(pixel_bytes_spec(cam, *world, mats@, i as int, j as int, pix_start).0
                        =~= seq![rb, gb, bb]);
                    assert(pixel_bytes_spec(cam, *world, mats@, i as int, j as int, pix_start).1
                        == rng.state);
                    assert(buf@ =~= buf_before + seq![rb, gb, bb]);
                    assert(row_bytes_spec(cam, *world, mats@, j as int, i as int, pix_start).0
                        =~= seq![rb, gb, bb] + row_bytes_spec(
                        cam,
                        *world,
                        mats@,
                        j as int,
                        i as int + 1,
                        rng.state,
                    ).0);
                    assert(buf_before + (seq![rb, gb, bb] + row_bytes_spec(
                        cam,
                        *world,
                        mats@,
                        j as int,
                        i as int + 1,
                        rng.state,
                    ).0) =~= buf@ + row_bytes_spec(
                        cam,
                        *world,
                        mats@,
                        j as int,
                        i as int + 1,
                        rng.state,
                    ).0);
                    assert((buf_before + row_bytes_spec(
                        cam,
                        *world,
                        mats@,
                        j as int,
                        i as int,
                        pix_start,
                    ).0) + image_bytes_spec(
                        cam,
                        *world,
                        mats@,
                        j as int + 1,
                        row_bytes_spec(cam, *world, mats@, j as int, i as int, pix_start).1,
                    ).0 =~= (buf@ + row_bytes_spec(
                        cam,
                        *world,
                        mats@,
                        j as int,
                        i as int + 1,
                        rng.state,
                    ).0) + image_bytes_spec(
                        cam,
                        *world,
                        mats@,
                        j as int + 1,
                        row_bytes_spec(cam, *world, mats@, j as int, i as int + 1, rng.state).1,
                    ).0);
                }
                i = i + 1;
            }
            proof {
                assert(3 * (j + 1) * width == 3 * j * width + 3 * width) by (nonlinear_arith);
                assert(row_bytes_spec(cam, *world, mats@, j as int, i as int, rng.state).0
                    =~= Seq::<u8>::empty());
                assert(buf@ + Seq::<u8>::empty() =~= buf@);
                assert(buf@ + (Seq::<u8>::empty() + image_bytes_spec(
                    cam,
                    *world,
                    mats@,
                    j as int + 1,
                    rng.state,
                ).0) =~= buf@ + image_bytes_spec(cam, *world, mats@, j as int + 1, rng.state).0);
                assert((buf@ + Seq::<u8>::empty()) + image_bytes_spec(
                    cam,
                    *world,
                    mats@,
                    j as int + 1,
                    rng.state,
                ).0 =~= buf@ + image_bytes_spec(cam, *world, mats@, j as int + 1, rng.state).0);
            }
            j = j + 1;
        }
        proof {
            assert(image_bytes_spec(cam, *world, mats@, j as int, rng.state).0
                =~= Seq::<u8>::empty());
            assert(buf@ + Seq::<u8>::empty() =~= buf@);
        }
        buf
    }
}

/// Clamp a value into [-bound, bound].
fn clamp_mag(v: i64, bound: i64) -> (r: i64)
    requires
        bound >= 0,
    ensures
        r == cmag(v as int, bound as int),
        -bound <= r <= bound,
        -bound <= v <= bound ==> r == v,
{
    if v > bound {
        bound
    } else if v < -bound {
        -bound
    } else {
        v
    }
}

/// Clamp every channel into [0, CLIMIT].
fn clamp_color(c: &Color) -> (r: Color)
    ensures
        r == ccolor(*c),
        bounded(r, CLIMIT as int),
        r.x >= 0 && r.y >= 0 && r.z >= 0,
{
    Vec3 {
        x: clamp_channel(c.x),
        y: clamp_channel(c.y),
        z: clamp_channel(c.z),
    }
}

/// Clamp one channel into [0, CLIMIT].
fn clamp_channel(v: i64) -> (r: i64)
    ensures
        r == cchan(v as int),
        0 <= r <= CLIMIT,
{
    if v < 0 {
        0
    } else if v > CLIMIT {
        CLIMIT
    } else {
        v
    }
}

/// Normalize a small vector, or fall back to a default axis when it has no
/// fixed-point length.
fn unit_fallback(v: &Vec3, fallback: Vec3) -> (r: Vec3)
    requires
        bounded(*v, DOT_MAX as int),
        bounded(fallback, FP as int),
    ensures
        bounded(r, 8 * FP as int),
{
    proof {
        crate::material::lemma_unit_small(*v);
    }
    let len = v.length();
    if len > 0 {
        proof {
            crate::fixed::lemma_fdiv_in(v.x as int, len as int, 0x40_0000_0000);
            crate::fixed::lemma_fdiv_in(v.y as int, len as int, 0x40_0000_0000);
            crate::fixed::lemma_fdiv_in(v.z as int, len as int, 0x40_0000_0000);
        }
        Vec3::new(fp_div(v.x, len), fp_div(v.y, len), fp_div(v.z, len))
    } else {
        fallback
    }
}

/// The cross product of two near-unit vectors.
fn cross_small(a: &Vec3, b: &Vec3) -> (r: Vec3)
    requires
        bounded(*a, 8 * FP as int),
        bounded(*b, 8 * FP as int),
    ensures
        bounded(r, 0x80_0000),
{
    proof {
        crate::fixed::lemma_mul_abs_bound(a.y as int, b.z as int, 0x8_0000, 0x8_0000);
        crate::fixed::lemma_mul_abs_bound(a.z as int, b.y as int, 0x8_0000, 0x8_0000);
        crate::fixed::lemma_mul_abs_bound(a.z as int, b.x as int, 0x8_0000, 0x8_0000);
        crate::fixed::lemma_mul_abs_bound(a.x as int, b.z as int, 0x8_0000, 0x8_0000);
        crate::fixed::lemma_mul_abs_bound(a.x as int, b.y as int, 0x8_0000, 0x8_0000);
        crate::fixed::lemma_mul_abs_bound(a.y as int, b.x as int, 0x8_0000, 0x8_0000);
        crate::fixed::lemma_fmul_div_scale(a.y as int * b.z as int - a.z as int * b.y as int, 0x80_0000);
        crate::fixed::lemma_fmul_div_scale(a.z as int * b.x as int - a.x as int * b.z as int, 0x80_0000);
        crate::fixed::lemma_fmul_div_scale(a.x as int * b.y as int - a.y as int * b.x as int, 0x80_0000);
    }
    Vec3::cross(a, b)
}

impl Vec3 {
    /// Negation of a small vector (no boundary case).
    fn neg_small(&self) -> (r: Vec3)
        requires
            bounded(*self, 0x100_0000),
        ensures
            r.x == -self.x && r.y == -self.y && r.z == -self.z,
            bounded(r, 0x100_0000),
    {
        Vec3 { x: -self.x, y: -self.y, z: -self.z }
    }
}

/// Scale a direction by a fixed-point factor, clamping into a bound.
fn scale_clamped(v: &Vec3, s: i64, bound: i64) -> (r: Vec3)
    requires
        bounded(*v, 0x80_0000),
        -0x4000_0000 <= s <= 0x4000_0000,
        0 <= bound,
    ensures
        bounded(r, bound as int),
{
    proof {
        crate::fixed::lemma_mul_abs_bound(v.x as int, s as int, 0x80_0000, 0x4000_0000);
        crate::fixed::lemma_mul_abs_bound(v.y as int, s as int, 0x80_0000, 0x4000_0000);
        crate::fixed::lemma_mul_abs_bound(v.z as int, s as int, 0x80_0000, 0x4000_0000);
        crate::fixed::lemma_fmul_div_scale(v.x as int * s as int, 0x2_0000_0000_0000);
        crate::fixed::lemma_fmul_div_scale(v.y as int * s as int, 0x2_0000_0000_0000);
        crate::fixed::lemma_fmul_div_scale(v.z as int * s as int, 0x2_0000_0000_0000);
    }
    Vec3 {
        x: clamp_mag(fp_mul(v.x, s), bound),
        y: clamp_mag(fp_mul(v.y, s), bound),
        z: clamp_mag(fp_mul(v.z, s), bound),
    }
}

/// Divide a vector by a positive pixel count, clamping into a bound.
fn div_clamped(v: &Vec3, n: i64, bound: i64) -> (r: Vec3)
    requires
        1 <= n <= 4096,
        bounded(*v, 0x10_0000_0000),
        0 <= bound,
    ensures
        bounded(r, bound as int),
{
    proof {
        crate::fixed::lemma_mul_abs_bound(n as int, FP as int, 4096, 0x1_0000);
        crate::fixed::lemma_fmul_div_scale(n as int * FP as int, 0x1000_0000);
        crate::fixed::lemma_div_ge_iff(n as int * FP as int, 1int, FP as int);
        assert(1int * (FP as int) <= n as int * FP as int) by (nonlinear_arith)
            requires
                n as int >= 1,
                FP as int > 0,
        ;
        crate::fixed::lemma_fdiv_in(v.x as int, fmul(n as int, FP as int), 0x10_0000_0000);
        crate::fixed::lemma_fdiv_in(v.y as int, fmul(n as int, FP as int), 0x10_0000_0000);
        crate::fixed::lemma_fdiv_in(v.z as int, fmul(n as int, FP as int), 0x10_0000_0000);
    }
    let nf = fp_mul(n, FP);
    Vec3 {
        x: clamp_mag(fp_div(v.x, nf), bound),
        y: clamp_mag(fp_div(v.y, nf), bound),
        z: clamp_mag(fp_div(v.z, nf), bound),
    }
}

/// The vertical field of view and lens angle stay within the trig range.
proof fn lemma_angle_ranges(vfov: int, defocus: int)
    requires
        0 <= vfov <= 170 * FP as int,
        0 <= defocus <= 60 * FP as int,
    ensures
        -(TWO_PI_FP as int) <= fmul(vfov, PI_FP as int) / 180 <= TWO_PI_FP as int,
        -(TWO_PI_FP as int) <= fmul(defocus, PI_FP as int) / 180 <= TWO_PI_FP as int,
        -0x2000_0000 <= vfov,
        vfov <= 0x2000_0000,
        -0x2000_0000 <= defocus,
        defocus <= 0x2000_0000,
{
    assert(0 <= vfov * (PI_FP as int) <= 0x2_0000_0000 * 0x4_0000) by (nonlinear_arith)
        requires
            0 <= vfov <= 170 * FP as int,
            PI_FP as int == 205887,
            FP as int == 0x1_0000,
    ;
    crate::fixed::lemma_fmul_div_scale(vfov * (PI_FP as int), 0x8_0000_0000);
    crate::fixed::lemma_div_quot_bound(fmul(vfov, PI_FP as int), 180, TWO_PI_FP as int);
    assert(fmul(vfov, PI_FP as int) <= (TWO_PI_FP as int) * 180) by {
        assert(vfov * (PI_FP as int) <= 74119500 * 0x1_0000) by (nonlinear_arith)
            requires
                0 <= vfov <= 170 * FP as int,
                PI_FP as int == 205887,
                FP as int == 0x1_0000,
        ;
        crate::fixed::lemma_fmul_div_scale(vfov * (PI_FP as int), 74119500);
        assert((TWO_PI_FP as int) * 180 == 74119500) by (nonlinear_arith)
            requires
                TWO_PI_FP as int == 411775,
        ;
    }
    assert(fmul(vfov, PI_FP as int) >= 0) by {
        assert(vfov * (PI_FP as int) >= 0) by (nonlinear_arith)
            requires
                vfov >= 0,
                PI_FP as int > 0,
        ;
        vstd::arithmetic::div_mod::lemma_div_pos_is_pos(vfov * (PI_FP as int), FP as int);
    }
    assert(-((TWO_PI_FP as int) * 180) <= fmul(vfov, PI_FP as int));
    assert(0 <= defocus * (PI_FP as int) <= 0x2_0000_0000 * 0x4_0000) by (nonlinear_arith)
        requires
            0 <= defocus <= 60 * FP as int,
            PI_FP as int == 205887,
            FP as int == 0x1_0000,
    ;
    crate::fixed::lemma_fmul_div_scale(defocus * (PI_FP as int), 0x8_0000_0000);
    crate::fixed::lemma_div_quot_bound(fmul(defocus, PI_FP as int), 180, TWO_PI_FP as int);
    assert(fmul(defocus, PI_FP as int) <= (TWO_PI_FP as int) * 180) by {
        assert(defocus * (PI_FP as int) <= 74119500 * 0x1_0000) by (nonlinear_arith)
            requires
                0 <= defocus <= 60 * FP as int,
                PI_FP as int == 205887,
                FP as int == 0x1_0000,
        ;
        crate::fixed::lemma_fmul_div_scale(defocus * (PI_FP as int), 74119500);
        assert((TWO_PI_FP as int) * 180 == 74119500) by (nonlinear_arith)
            requires
                TWO_PI_FP as int == 411775,
        ;
    }
    assert(fmul(defocus, PI_FP as int) >= 0) by {
        assert(defocus * (PI_FP as int) >= 0) by (nonlinear_arith)
            requires
                defocus >= 0,
                PI_FP as int > 0,
        ;
        vstd::arithmetic::div_mod::lemma_div_pos_is_pos(defocus * (PI_FP as int), FP as int);
    }
    assert(-((TWO_PI_FP as int) * 180) <= fmul(defocus, PI_FP as int));
}

} // verus!
