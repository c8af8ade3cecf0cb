//! The material model: given a hit, a material either scatters the path (an
//! attenuation and a new ray) or absorbs it, and may emit light.  Scattering
//! consumes draws from the caller's generator; each outcome is an exact
//! function of the material, the ray, the hit and the generator state.
use vstd::prelude::*;
use crate::fixed::{FP, fmul, fdiv, fp_mul, fp_div};
use crate::hit::HitRecord;
use crate::quad::clamp_vec;
use crate::ray::Ray;
use crate::rng::{Rng64, rng_step, rng_out, unit_fp_of, unit_scaled};
use crate::texture::{Texture, SolidColor, tex_wf, tex_value_spec, COLOR_MAX};
use crate::vec3::{Vec3, Color, Point3, bounded, dot3, norm3, unit_sphere_spec, reflect_spec, refract_spec, clamp_fp_unit, RAY_MAX};
use crate::mathfn::TWO_PI_FP;

verus! {

pub struct Lambertian {
    pub tex: Texture,
}

pub struct Metal {
    pub albedo: Color,
    pub fuzz: i64,
}

pub struct Dialectric {
    pub refraction_index: i64,
    pub fuzz: i64,
}

pub struct DiffuseLight {
    pub tex: Texture,
}

pub struct Isotorpic {
    pub tex: Texture,
}

pub enum Material {
    Lamb(Lambertian),
    Met(Metal),
    Diel(Dialectric),
    Light(DiffuseLight),
    Iso(Isotorpic),
}

pub open spec fn mat_wf(m: Material) -> bool {
    match m {
        Material::Lamb(l) => tex_wf(l.tex),
        Material::Met(mt) => bounded(mt.albedo, COLOR_MAX as int) && 0 <= mt.fuzz <= FP,
        Material::Diel(d) => 1 <= d.refraction_index <= 16 * FP && 0 <= d.fuzz <= FP,
        Material::Light(li) => tex_wf(li.tex),
        Material::Iso(i) => tex_wf(i.tex),
    }
}

impl Lambertian {
    /// The diffuse material over a solid color, as a value.
    pub open spec fn lamb_solid(albedo: Color) -> Material {
        Material::Lamb(Lambertian { tex: Texture::Solid(SolidColor { albedo }) })
    }

    pub fn new(albedo: Color) -> (m: Material)
        requires
            bounded(albedo, COLOR_MAX as int),
        ensures
            mat_wf(m),
            m == Material::Lamb(Lambertian { tex: Texture::Solid(SolidColor { albedo }) }),
    {
        Material::Lamb(Lambertian { tex: Texture::Solid(SolidColor::new(albedo)) })
    }

    pub fn new_tex(tex: Texture) -> (m: Material)
        requires
            tex_wf(tex),
        ensures
            mat_wf(m),
            m == Material::Lamb(Lambertian { tex }),
    {
        Material::Lamb(Lambertian { tex })
    }
}

impl Metal {
    pub fn new(color: Color, fuzz: i64) -> (m: Material)
        requires
            bounded(color, COLOR_MAX as int),
            0 <= fuzz <= FP,
        ensures
            mat_wf(m),
            m == Material::Met(Metal { albedo: color, fuzz }),
    {
        Material::Met(Metal { albedo: color, fuzz })
    }
}

impl Dialectric {
    pub fn new(refraction_index: i64, fuzz: i64) -> (m: Material)
        requires
            1 <= refraction_index <= 16 * FP,
            0 <= fuzz <= FP,
        ensures
            mat_wf(m),
            m == Material::Diel(Dialectric { refraction_index, fuzz }),
    {
        Material::Diel(Dialectric { refraction_index, fuzz })
    }

    /// Schlick's reflectance approximation in fixed point.
    pub fn reflectance(cosine: i64, refraction_index: i64) -> (r: i64)
        requires
            -FP <= cosine <= FP,
            1 <= refraction_index <= 0x1_0000_0000,
        ensures
            r == reflectance_spec(cosine as int, refraction_index as int),
    {
        proof {
            lemma_reflectance_bounds(cosine as int, refraction_index as int);
        }
        let r0a = fp_div(FP - refraction_index, FP + refraction_index);
        let r0 = fp_mul(r0a, r0a);
        let omc = FP - cosine;
        let p2 = fp_mul(omc, omc);
        let p4 = fp_mul(p2, p2);
        let p5 = fp_mul(p4, omc);
        r0 + fp_mul(FP - r0, p5)
    }
}

/// Schlick's approximation: r0 + (1 - r0)(1 - cos)^5 with
/// r0 = ((1 - n)/(1 + n))^2, evaluated in fixed point.
pub open spec fn reflectance_spec(cosine: int, refraction_index: int) -> int {
    let r0a = fdiv(FP as int - refraction_index, FP as int + refraction_index);
    let r0 = fmul(r0a, r0a);
    let omc = FP as int - cosine;
    let p2 = fmul(omc, omc);
    let p4 = fmul(p2, p2);
    let p5 = fmul(p4, omc);
    r0 + fmul(FP as int - r0, p5)
}

/// Magnitude bounds for the reflectance evaluation.
proof fn lemma_reflectance_bounds(cosine: int, n: int)
    requires
        -(FP as int) <= cosine <= FP as int,
        1 <= n <= 0x1_0000_0000,
    ensures
        -0x1_0000 <= fdiv(FP as int - n, FP as int + n) <= 0x1_0000,
        0 <= fmul(fdiv(FP as int - n, FP as int + n), fdiv(FP as int - n, FP as int + n))
            <= 0x1_0000,
        0 <= FP as int - cosine <= 0x2_0000,
        0 <= fmul(FP as int - cosine, FP as int - cosine) <= 0x4_0000,
        0 <= fmul(
            fmul(FP as int - cosine, FP as int - cosine),
            fmul(FP as int - cosine, FP as int - cosine),
        ) <= 0x10_0000,
        0 <= fmul(
            fmul(
                fmul(FP as int - cosine, FP as int - cosine),
                fmul(FP as int - cosine, FP as int - cosine),
            ),
            FP as int - cosine,
        ) <= 0x20_0000,
        -0x4000_0000 <= fmul(
            FP as int - fmul(
                fdiv(FP as int - n, FP as int + n),
                fdiv(FP as int - n, FP as int + n),
            ),
            fmul(
                fmul(
                    fmul(FP as int - cosine, FP as int - cosine),
                    fmul(FP as int - cosine, FP as int - cosine),
                ),
                FP as int - cosine,
            ),
        ) <= 0x4000_0000,
{
    let num = FP as int - n;
    let den = FP as int + n;
    assert(-(0x1_0000 * den) <= num * (FP as int) <= 0x1_0000 * den) by (nonlinear_arith)
        requires
            1 <= n <= 0x1_0000_0000,
            num == FP as int - n,
            den == FP as int + n,
            FP as int == 0x1_0000,
    ;
    crate::fixed::lemma_div_quot_bound(num * (FP as int), den, 0x1_0000);
    let r0a = fdiv(num, den);
    crate::fixed::lemma_mul_abs_bound(r0a, r0a, 0x1_0000, 0x1_0000);
    assert(r0a * r0a >= 0) by (nonlinear_arith);
    vstd::arithmetic::div_mod::lemma_div_pos_is_pos(r0a * r0a, FP as int);
    crate::fixed::lemma_fmul_div_scale(r0a * r0a, 0x1_0000);
    let omc = FP as int - cosine;
    crate::fixed::lemma_mul_abs_bound(omc, omc, 0x2_0000, 0x2_0000);
    assert(omc * omc >= 0) by (nonlinear_arith);
    vstd::arithmetic::div_mod::lemma_div_pos_is_pos(omc * omc, FP as int);
    crate::fixed::lemma_fmul_div_scale(omc * omc, 0x4_0000);
    let p2 = fmul(omc, omc);
    crate::fixed::lemma_mul_abs_bound(p2, p2, 0x4_0000, 0x4_0000);
    assert(p2 * p2 >= 0) by (nonlinear_arith)
        requires
            p2 >= 0,
    ;
    vstd::arithmetic::div_mod::lemma_div_pos_is_pos(p2 * p2, FP as int);
    crate::fixed::lemma_fmul_div_scale(p2 * p2, 0x10_0000);
    let p4 = fmul(p2, p2);
    crate::fixed::lemma_mul_abs_bound(p4, omc, 0x10_0000, 0x2_0000);
    assert(p4 * omc >= 0) by (nonlinear_arith)
        requires
            p4 >= 0,
            omc >= 0,
    ;
    vstd::arithmetic::div_mod::lemma_div_pos_is_pos(p4 * omc, FP as int);
    crate::fixed::lemma_fmul_div_scale(p4 * omc, 0x20_0000);
    let p5 = fmul(p4, omc);
    let r0 = fmul(r0a, r0a);
    crate::fixed::lemma_mul_abs_bound(FP as int - r0, p5, 0x2_0000, 0x20_0000);
    crate::fixed::lemma_fmul_div_scale((FP as int - r0) * p5, 0x4000_0000);
}

impl DiffuseLight {
    pub fn new(emit: Color) -> (m: Material)
        requires
            bounded(emit, COLOR_MAX as int),
        ensures
            mat_wf(m),
            m == Material::Light(DiffuseLight { tex: Texture::Solid(SolidColor { albedo: emit }) }),
    {
        Material::Light(DiffuseLight { tex: Texture::Solid(SolidColor::new(emit)) })
    }

    pub fn new_tex(tex: Texture) -> (m: Material)
        requires
            tex_wf(tex),
        ensures
            mat_wf(m),
            m == Material::Light(DiffuseLight { tex }),
    {
        Material::Light(DiffuseLight { tex })
    }
}

impl Isotorpic {
    pub fn new(albedo: Color) -> (m: Material)
        requires
            bounded(albedo, COLOR_MAX as int),
        ensures
            mat_wf(m),
            m == Material::Iso(Isotorpic { tex: Texture::Solid(SolidColor { albedo }) }),
    {
        Material::Iso(Isotorpic { tex: Texture::Solid(SolidColor::new(albedo)) })
    }

    pub fn new_tex(tex: Texture) -> (m: Material)
        requires
            tex_wf(tex),
        ensures
            mat_wf(m),
            m == Material::Iso(Isotorpic { tex }),
    {
        Material::Iso(Isotorpic { tex })
    }
}

/// The refraction ratio a dielectric uses: the reciprocal index when
/// entering from outside (clamped at 16 so extreme indices stay within the
/// supported refraction range), the index itself when leaving.
pub open spec fn diel_ratio(refraction_index: int, front_face: bool) -> int {
    if front_face {
        let r = fdiv(FP as int, refraction_index);
        if r > 16 * FP {
            16 * FP as int
        } else {
            r
        }
    } else {
        refraction_index
    }
}

/// The unit vector two successive draws from state s produce.
pub open spec fn drawn_unit(s: u64) -> Vec3 {
    unit_sphere_spec(
        unit_fp_of(rng_out(rng_step(s))) as int * 2 - FP,
        unit_scaled(rng_out(rng_step(rng_step(s))), TWO_PI_FP as int),
    )
}

/// The generator state after the two draws of a unit vector.
pub open spec fn after_unit(s: u64) -> u64 {
    rng_step(rng_step(s))
}

/// What scattering returns: an attenuation and outgoing ray, or absorption,
/// with the generator state it leaves behind.
pub open spec fn scatter_spec(m: Material, r_in: Ray, rec: HitRecord, s: u64) -> (
    Option<(Color, Ray)>,
    u64,
) {
    match m {
        Material::Lamb(l) => {
            let dir0 = vadd(clamp_vec(rec.normal, 2 * FP as int), drawn_unit(s));
            let dir = if small3(dir0) {
                clamp_vec(rec.normal, 2 * FP as int)
            } else {
                dir0
            };
            (
                Some(
                    (
                        tex_value_spec(l.tex, rec.u as int, rec.v as int, rec.p),
                        Ray { orig: rec.p, dir, time: r_in.time },
                    ),
                ),
                after_unit(s),
            )
        },
        Material::Met(mt) => {
            let alt = unit_or_zero(
                vadd(
                    clamp_vec(rec.normal, 2 * FP as int),
                    scale_fp(drawn_unit(s), mt.fuzz as int),
                ),
            );
            let reflected = reflect_spec(unit_or_zero(r_in.dir), alt);
            let res: Option<(Color, Ray)> = if dot3(reflected, alt) > 0 {
                Some((mt.albedo, Ray { orig: rec.p, dir: reflected, time: r_in.time }))
            } else {
                None
            };
            (res, after_unit(s))
        },
        Material::Diel(d) => {
            let ri = diel_ratio(d.refraction_index as int, rec.front_face);
            let unit_dir = unit_or_zero(r_in.dir);
            let alt = unit_or_zero(
                vadd(
                    clamp_vec(rec.normal, 2 * FP as int),
                    scale_fp(drawn_unit(s), d.fuzz as int),
                ),
            );
            let cos_theta = clamp_fp_unit(dot3(neg3(unit_dir), alt));
            let sin_theta = crate::fixed::isqrt_spec(
                ((FP as int + cos_theta) * (FP as int - cos_theta) / (FP as int)) * (FP as int),
            );
            let cannot_refract = fmul(ri, sin_theta) > FP;
            let draw = unit_fp_of(rng_out(rng_step(after_unit(s)))) as int;
            let dir = if cannot_refract || reflectance_spec(cos_theta, ri) > draw {
                reflect_spec(unit_dir, alt)
            } else {
                refract_spec(unit_dir, alt, ri)
            };
            (
                Some(
                    (
                        Vec3 { x: FP as i64, y: FP as i64, z: FP as i64 },
                        Ray { orig: rec.p, dir, time: r_in.time },
                    ),
                ),
                rng_step(after_unit(s)),
            )
        },
        Material::Light(li) => (None, s),
        Material::Iso(i) => {
            (
                Some(
                    (
                        tex_value_spec(i.tex, rec.u as int, rec.v as int, rec.p),
                        Ray { orig: rec.p, dir: drawn_unit(s), time: r_in.time },
                    ),
                ),
                after_unit(s),
            )
        },
    }
}

/// Componentwise sum (for near-unit vectors; exact in fixed point).
pub open spec fn vadd(a: Vec3, b: Vec3) -> Vec3 {
    Vec3 { x: (a.x + b.x) as i64, y: (a.y + b.y) as i64, z: (a.z + b.z) as i64 }
}

/// Componentwise negation.
pub open spec fn neg3(a: Vec3) -> Vec3 {
    Vec3 { x: (-a.x) as i64, y: (-a.y) as i64, z: (-a.z) as i64 }
}

/// Scaling by a fixed-point factor.
pub open spec fn scale_fp(a: Vec3, s: int) -> Vec3 {
    Vec3 {
        x: fmul(a.x as int, s) as i64,
        y: fmul(a.y as int, s) as i64,
        z: fmul(a.z as int, s) as i64,
    }
}

/// All components negligibly small.
pub open spec fn small3(v: Vec3) -> bool {
    -16 < v.x < 16 && -16 < v.y < 16 && -16 < v.z < 16
}

/// The unit vector along v, or zero when v's fixed-point norm vanishes.
pub open spec fn unit_or_zero(v: Vec3) -> Vec3 {
    if norm3(v) > 0 {
        Vec3 {
            x: fdiv(v.x as int, norm3(v)) as i64,
            y: fdiv(v.y as int, norm3(v)) as i64,
            z: fdiv(v.z as int, norm3(v)) as i64,
        }
    } else {
        Vec3 { x: 0i64, y: 0i64, z: 0i64 }
    }
}

/// Executable unit_or_zero for direction-sized vectors.
fn unit_or_zero_exec(v: &Vec3) -> (r: Vec3)
    requires
        bounded(*v, crate::vec3::DOT_MAX as int),
    ensures
        r == unit_or_zero(*v),
        bounded(r, 8 * FP as int),
{
    proof {
        lemma_unit_small(*v);
    }
    let len = v.length();
    if len > 0 {
        proof {
            crate::fixed::lemma_fdiv_in(v.x as int, len as int, 0x40_0000_0000);
            crate::fixed::lemma_fdiv_in(v.y as int, len as int, 0x40_0000_0000);
            crate::fixed::lemma_fdiv_in(v.z as int, len as int, 0x40_0000_0000);
        }
        Vec3::new(fp_div(v.x, len), fp_div(v.y, len), fp_div(v.z, len))
    } else {
        Vec3::zero()
    }
}

/// Scaling a vector down by its fixed-point norm leaves components within a
/// few units: the norm is either zero or at least 256 ulps, and each
/// component's magnitude is within the norm plus rounding slack.
pub proof fn lemma_unit_small(v: Vec3)
    requires
        bounded(v, crate::vec3::DOT_MAX as int),
    ensures
        bounded(unit_or_zero(v), 8 * FP as int),
{
    let nrm = norm3(v);
    if nrm > 0 {
        crate::vec3::lemma_dot_self_nonneg(v);
        let d3 = dot3(v, v);
        let dr = crate::vec3::dot_raw(v, v);
        vstd::arithmetic::div_mod::lemma_fundamental_div_mod(dr, FP as int);
        vstd::arithmetic::div_mod::lemma_mod_bound(dr, FP as int);
        assert(d3 * (FP as int) >= 0) by (nonlinear_arith)
            requires
                d3 >= 0,
                FP as int > 0,
        ;
        crate::fixed::lemma_isqrt_exists(d3 * (FP as int));
        assert(crate::fixed::is_isqrt(d3 * (FP as int), nrm));
        if nrm < 256 {
            assert(d3 >= 1) by {
                if d3 == 0 {
                    assert(nrm * nrm <= 0) by (nonlinear_arith)
                        requires
                            nrm * nrm <= d3 * (FP as int),
                            d3 == 0,
                    ;
                    assert(nrm * nrm >= 1) by (nonlinear_arith)
                        requires
                            nrm >= 1,
                    ;
                }
            }
            assert((nrm + 1) * (nrm + 1) <= 65536) by (nonlinear_arith)
                requires
                    0 < nrm < 256,
            ;
            assert(d3 * (FP as int) >= 65536) by (nonlinear_arith)
                requires
                    d3 >= 1,
                    FP as int == 0x1_0000,
            ;
            assert(false);
        }
        assert(dr == (FP as int) * d3 + dr % (FP as int));
        assert(d3 * (FP as int) < (nrm + 1) * (nrm + 1));
        assert(dr < (nrm + 1) * (nrm + 1) + FP as int) by (nonlinear_arith)
            requires
                dr < d3 * (FP as int) + FP as int,
                d3 * (FP as int) < (nrm + 1) * (nrm + 1),
        ;
        assert((nrm + 1) * (nrm + 1) + FP as int <= (nrm + 258) * (nrm + 258))
            by (nonlinear_arith)
            requires
                nrm >= 0,
                FP as int == 0x1_0000,
        ;
        lemma_component_small(v.x as int, v.y as int, v.z as int, dr, nrm);
        lemma_component_small(v.y as int, v.x as int, v.z as int, dr, nrm);
        lemma_component_small(v.z as int, v.x as int, v.y as int, dr, nrm);
    }
}

/// One component of a vector whose raw squared length is bounded divides
/// down to at most a few units.
proof fn lemma_component_small(c: int, o1: int, o2: int, dr: int, nrm: int)
    requires
        dr == c * c + o1 * o1 + o2 * o2 || dr == o1 * o1 + c * c + o2 * o2 || dr == o1 * o1 + o2
            * o2 + c * c,
        dr <= (nrm + 258) * (nrm + 258),
        nrm >= 256,
    ensures
        -(8 * FP as int) <= fdiv(c, nrm) <= 8 * FP as int,
{
    assert(c * c <= dr) by (nonlinear_arith)
        requires
            dr == c * c + o1 * o1 + o2 * o2 || dr == o1 * o1 + c * c + o2 * o2 || dr == o1 * o1
                + o2 * o2 + c * c,
    ;
    assert(-(nrm + 258) <= c <= nrm + 258) by (nonlinear_arith)
        requires
            c * c <= (nrm + 258) * (nrm + 258),
            nrm + 258 > 0,
    ;
    assert(-((8 * FP as int) * nrm) <= c * (FP as int) <= (8 * FP as int) * nrm)
        by (nonlinear_arith)
        requires
            -(nrm + 258) <= c <= nrm + 258,
            nrm >= 256,
            FP as int == 0x1_0000,
    ;
    crate::fixed::lemma_div_quot_bound(c * (FP as int), nrm, 8 * FP as int);
}

impl Material {
    /// Light emitted at a hit; zero except for emissive materials.
    pub fn emitted(&self, u: i64, v: i64, p: Point3) -> (r: Color)
        requires
            mat_wf(*self),
            bounded(p, RAY_MAX as int),
        ensures
            r == emitted_spec(*self, u as int, v as int, p),
            bounded(r, COLOR_MAX as int),
    {
        match self {
            Material::Light(li) => li.tex.value(u, v, p),
            _ => Vec3::zero(),
        }
    }

    /// Scatter the path at a hit: exactly what scatter_spec describes, with
    /// the generator advanced the same way.
    #[verifier::rlimit(100)]
    #[verifier::spinoff_prover]
    pub fn scatter(&self, r_in: &Ray, rec: &HitRecord, rng: &mut Rng64) -> (res: Option<
        (Color, Ray),
    >)
        requires
            mat_wf(*self),
            bounded(rec.p, RAY_MAX as int),
            bounded(r_in.direction(), RAY_MAX as int),
        ensures
            res == scatter_spec(*self, *r_in, *rec, old(rng).state).0,
            final(rng).state == scatter_spec(*self, *r_in, *rec, old(rng).state).1,
            res matches Some(ar) ==> bounded(ar.0, COLOR_MAX as int) && bounded(
                ar.1.direction(),
                RAY_MAX as int,
            ) && ar.1.origin() == rec.p && ar.1.time() == r_in.time(),
    {
        let cn = crate::quad::clamp_components(&rec.normal, 2 * FP);
        match self {
            Material::Lamb(l) => {
                let uvec = Vec3::random_unit_vector(rng);
                let dir0 = cn.add(&uvec);
                let dir = if dir0.near_zero() {
                    cn
                } else {
                    dir0
                };
                let att = l.tex.value(rec.u, rec.v, rec.p);
                Some((att, Ray::new(rec.p, dir, r_in.time())))
            },
            Material::Met(mt) => metal_scatter(mt, r_in, rec, &cn, rng),
            Material::Diel(d) => diel_scatter(d, r_in, rec, &cn, rng),
            Material::Light(li) => None,
            Material::Iso(i) => {
                let uvec = Vec3::random_unit_vector(rng);
                let att = i.tex.value(rec.u, rec.v, rec.p);
                Some((att, Ray::new(rec.p, uvec, r_in.time())))
            },
        }
    }
}

/// Light emitted by a material at a hit.
pub open spec fn emitted_spec(m: Material, u: int, v: int, p: Point3) -> Color {
    match m {
        Material::Light(li) => tex_value_spec(li.tex, u, v, p),
        _ => Vec3 { x: 0i64, y: 0i64, z: 0i64 },
    }
}

/// Fixed-point multiplication commutes.
proof fn lemma_fmul_comm(a: int, b: int)
    ensures
        fmul(a, b) == fmul(b, a),
{
    vstd::arithmetic::mul::lemma_mul_is_commutative(a, b);
}

/// The refracted direction of near-unit inputs stays within the ray range.
proof fn lemma_refract_bounded(uv: Vec3, n: Vec3, ratio: int)
    requires
        bounded(uv, 8 * FP as int),
        bounded(n, 8 * FP as int),
        0 <= ratio <= 16 * FP,
    ensures
        bounded(refract_spec(uv, n, ratio), RAY_MAX as int),
{
    let cos_theta = clamp_fp_unit(dot3(neg3(uv), n));
    crate::fixed::lemma_fmul_unit_abs(cos_theta, n.x as int, 0x8_0000);
    crate::fixed::lemma_fmul_unit_abs(cos_theta, n.y as int, 0x8_0000);
    crate::fixed::lemma_fmul_unit_abs(cos_theta, n.z as int, 0x8_0000);
    let sx = uv.x + fmul(cos_theta, n.x as int);
    let sy = uv.y + fmul(cos_theta, n.y as int);
    let sz = uv.z + fmul(cos_theta, n.z as int);
    crate::fixed::lemma_mul_abs_bound(sx, ratio, 0x10_0000, 0x10_0000);
    crate::fixed::lemma_mul_abs_bound(sy, ratio, 0x10_0000, 0x10_0000);
    crate::fixed::lemma_mul_abs_bound(sz, ratio, 0x10_0000, 0x10_0000);
    crate::fixed::lemma_fmul_div_scale(sx * ratio, 0x100_0000);
    crate::fixed::lemma_fmul_div_scale(sy * ratio, 0x100_0000);
    crate::fixed::lemma_fmul_div_scale(sz * ratio, 0x100_0000);
    let px = fmul(sx, ratio);
    let py = fmul(sy, ratio);
    let pz = fmul(sz, ratio);
    crate::fixed::lemma_mul_abs_bound(px, px, 0x100_0000, 0x100_0000);
    crate::fixed::lemma_mul_abs_bound(py, py, 0x100_0000, 0x100_0000);
    crate::fixed::lemma_mul_abs_bound(pz, pz, 0x100_0000, 0x100_0000);
    assert(px * px >= 0) by (nonlinear_arith);
    assert(py * py >= 0) by (nonlinear_arith);
    assert(pz * pz >= 0) by (nonlinear_arith);
    vstd::arithmetic::div_mod::lemma_div_pos_is_pos(px * px + py * py + pz * pz, FP as int);
    crate::fixed::lemma_fmul_div_scale(px * px + py * py + pz * pz, 0x3_0000_0000);
    let perp_sq = (px * px + py * py + pz * pz) / (FP as int);
    let rem = if FP - perp_sq >= 0 {
        FP as int - perp_sq
    } else {
        perp_sq - FP as int
    };
    crate::vec3::lemma_isqrt_rem_small(rem);
    let par = crate::fixed::isqrt_spec(rem * (FP as int));
    crate::fixed::lemma_mul_abs_bound(par, n.x as int, 0x200_0000, 0x8_0000);
    crate::fixed::lemma_mul_abs_bound(par, n.y as int, 0x200_0000, 0x8_0000);
    crate::fixed::lemma_mul_abs_bound(par, n.z as int, 0x200_0000, 0x8_0000);
    crate::fixed::lemma_fmul_div_scale(par * n.x as int, 0x1000_0000);
    crate::fixed::lemma_fmul_div_scale(par * n.y as int, 0x1000_0000);
    crate::fixed::lemma_fmul_div_scale(par * n.z as int, 0x1000_0000);
}


/// Total internal reflection: whenever the refraction ratio times the sine of
/// the incidence angle exceeds one, a dielectric's scattered direction is the
/// mirror reflection -- refraction is never attempted in that regime,
/// whatever the reflectance draw says.
pub proof fn lemma_dielectric_total_internal_reflection(
    d: Dialectric,
    r_in: Ray,
    rec: HitRecord,
    s: u64,
)
    ensures
        ({
            let ri = diel_ratio(d.refraction_index as int, rec.front_face);
            let unit_dir = unit_or_zero(r_in.dir);
            let alt = unit_or_zero(
                vadd(
                    clamp_vec(rec.normal, 2 * FP as int),
                    scale_fp(drawn_unit(s), d.fuzz as int),
                ),
            );
            let cos_theta = clamp_fp_unit(dot3(neg3(unit_dir), alt));
            let sin_theta = crate::fixed::isqrt_spec(
                ((FP as int + cos_theta) * (FP as int - cos_theta) / (FP as int)) * (FP as int),
            );
            fmul(ri, sin_theta) > FP ==> (scatter_spec(
                Material::Diel(d),
                r_in,
                rec,
                s,
            ).0 matches Some(ar) && ar.1.dir == reflect_spec(unit_dir, alt))
        }),
{
}


/// The dielectric's scattering: refract when the bending law allows it and
/// the reflectance draw passes, reflect otherwise.
#[verifier::rlimit(100)]
#[verifier::spinoff_prover]
fn diel_scatter(d: &Dialectric, r_in: &Ray, rec: &HitRecord, cn: &Vec3, rng: &mut Rng64) -> (res:
    Option<(Color, Ray)>)
    requires
        mat_wf(Material::Diel(*d)),
        bounded(rec.p, RAY_MAX as int),
        bounded(r_in.direction(), RAY_MAX as int),
        *cn == clamp_vec(rec.normal, 2 * FP as int),
    ensures
        res == scatter_spec(Material::Diel(*d), *r_in, *rec, old(rng).state).0,
        final(rng).state == scatter_spec(Material::Diel(*d), *r_in, *rec, old(rng).state).1,
        res matches Some(ar) ==> bounded(ar.0, COLOR_MAX as int) && bounded(
            ar.1.direction(),
            RAY_MAX as int,
        ) && ar.1.origin() == rec.p && ar.1.time() == r_in.time(),
{
    let ghost s0 = rng.state;
    let cn = *cn;
    proof {
        crate::fixed::lemma_div_abs_bound(
            FP as int * FP as int,
            d.refraction_index as int,
            0x1_0000_0000,
        );
        vstd::arithmetic::div_mod::lemma_div_pos_is_pos(
            FP as int * FP as int,
            d.refraction_index as int,
        );
        crate::fixed::lemma_div_ge_iff(FP as int * FP as int, 1int, d.refraction_index as int);
        assert(1int * (d.refraction_index as int) <= FP as int * FP as int) by (nonlinear_arith)
            requires
                d.refraction_index as int <= 0x10_0000,
                FP as int == 0x1_0000,
        ;
    }
    let ri: i64 = if rec.front_face {
        let r0 = fp_div(FP, d.refraction_index);
        if r0 > 16 * FP {
            16 * FP
        } else {
            r0
        }
    } else {
        d.refraction_index
    };
    proof {
        assert(ri as int == diel_ratio(d.refraction_index as int, rec.front_face));
        assert(1 <= ri <= 16 * FP);
    }
    let uvec = Vec3::random_unit_vector(rng);
    proof {
        assert(uvec == drawn_unit(s0));
        crate::fixed::lemma_fmul_unit_abs(uvec.x as int, d.fuzz as int, 0x1_0000);
        crate::fixed::lemma_fmul_unit_abs(uvec.y as int, d.fuzz as int, 0x1_0000);
        crate::fixed::lemma_fmul_unit_abs(uvec.z as int, d.fuzz as int, 0x1_0000);
    }
    let fz = uvec.scale(d.fuzz);
    proof {
        assert(fz == scale_fp(drawn_unit(s0), d.fuzz as int));
    }
    let altv = cn.add(&fz);
    let alt = unit_or_zero_exec(&altv);
    let udir = unit_or_zero_exec(&r_in.direction());
    proof {
        crate::vec3::lemma_dot_small(neg3(udir), alt);
        assert(bounded(udir, 8 * FP as int));
        assert(bounded(alt, 8 * FP as int));
    }
    let dcos = Vec3::dot(&udir.neg(), &alt);
    let cos_theta: i64 = if dcos > FP {
        FP
    } else if dcos < -FP {
        -FP
    } else {
        dcos
    };
    proof {
        assert(cos_theta as int == clamp_fp_unit(dot3(neg3(udir), alt)));
        assert(0 <= (FP as int + cos_theta as int) * (FP as int - cos_theta as int)
            <= 0x1_0000_0000) by (nonlinear_arith)
            requires
                -(FP as int) <= cos_theta as int <= FP as int,
                FP as int == 0x1_0000,
        ;
        crate::fixed::lemma_fmul_div_scale(
            (FP as int + cos_theta as int) * (FP as int - cos_theta as int),
            0x1_0000,
        );
        vstd::arithmetic::div_mod::lemma_div_pos_is_pos(
            (FP as int + cos_theta as int) * (FP as int - cos_theta as int),
            FP as int,
        );
    }
    let sinsq = fp_mul(FP + cos_theta, FP - cos_theta);
    let sin_theta = crate::fixed::fp_sqrt(sinsq);
    proof {
        crate::vec3::lemma_isqrt_le_scale(sinsq as int);
        crate::fixed::lemma_fmul_unit_abs(sin_theta as int, ri as int, 0x1_0000_0000);
    }
    let cannot_refract = fp_mul(sin_theta, ri) > FP;
    proof {
        vstd::arithmetic::mul::lemma_mul_is_commutative(sin_theta as int, ri as int);
    }
    let refl = Dialectric::reflectance(cos_theta, ri);
    let draw = rng.next_unit_fp();
    let dir = if cannot_refract || refl > draw {
        Vec3::reflect(&udir, &alt)
    } else {
        Vec3::refract(&udir, &alt, ri)
    };
    proof {
        lemma_refract_bounded(udir, alt, ri as int);
    }
    Some((Vec3::new(FP, FP, FP), Ray::new(rec.p, dir, r_in.time())))
}

/// The metal's scattering: mirror reflection about a fuzz-perturbed normal,
/// absorbed when the result points into the surface.
#[verifier::rlimit(100)]
#[verifier::spinoff_prover]
fn metal_scatter(mt: &Metal, r_in: &Ray, rec: &HitRecord, cn: &Vec3, rng: &mut Rng64) -> (res:
    Option<(Color, Ray)>)
    requires
        mat_wf(Material::Met(*mt)),
        bounded(rec.p, RAY_MAX as int),
        bounded(r_in.direction(), RAY_MAX as int),
        *cn == clamp_vec(rec.normal, 2 * FP as int),
    ensures
        res == scatter_spec(Material::Met(*mt), *r_in, *rec, old(rng).state).0,
        final(rng).state == scatter_spec(Material::Met(*mt), *r_in, *rec, old(rng).state).1,
        res matches Some(ar) ==> bounded(ar.0, COLOR_MAX as int) && bounded(
            ar.1.direction(),
            RAY_MAX as int,
        ) && ar.1.origin() == rec.p && ar.1.time() == r_in.time(),
{
    let ghost s0 = rng.state;
    let cn = *cn;
    let uvec = Vec3::random_unit_vector(rng);
    proof {
        assert(uvec == drawn_unit(s0));
        crate::fixed::lemma_fmul_unit_abs(uvec.x as int, mt.fuzz as int, 0x1_0000);
        crate::fixed::lemma_fmul_unit_abs(uvec.y as int, mt.fuzz as int, 0x1_0000);
        crate::fixed::lemma_fmul_unit_abs(uvec.z as int, mt.fuzz as int, 0x1_0000);
    }
    let fz = uvec.scale(mt.fuzz);
    proof {
        assert(fz == scale_fp(drawn_unit(s0), mt.fuzz as int));
    }
    let altv = cn.add(&fz);
    let alt = unit_or_zero_exec(&altv);
    let udir = unit_or_zero_exec(&r_in.direction());
    let reflected = Vec3::reflect(&udir, &alt);
    let d = Vec3::dot(&reflected, &alt);
    proof {
        assert(udir == unit_or_zero(r_in.dir));
        assert(alt == unit_or_zero(
            vadd(clamp_vec(rec.normal, 2 * FP as int), scale_fp(drawn_unit(s0), mt.fuzz as int)),
        ));
        assert(reflected == reflect_spec(unit_or_zero(r_in.dir), alt));
        assert(scatter_spec(Material::Met(*mt), *r_in, *rec, s0).1 == after_unit(s0));
        assert(rng.state == after_unit(s0));
        assert(scatter_spec(Material::Met(*mt), *r_in, *rec, s0).0 == (if dot3(reflected, alt)
            > 0 {
            Some(
                (
                    mt.albedo,
                    Ray { orig: rec.p, dir: reflected, time: r_in.time },
                ),
            )
        } else {
            Option::<(Color, Ray)>::None
        }));
    }
    if d > 0 {
        Some((mt.albedo, Ray::new(rec.p, reflected, r_in.time())))
    } else {
        None
    }
}

} // verus!
