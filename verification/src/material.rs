use vstd::prelude::*;
use crate::color::Color;
use crate::fx::{abs_i, mul_fx, div_fx, sqrt_i, fmul, fdiv, isqrt, lemma_mul_fx_bound,
    lemma_div_t_abs};
use crate::geometry::{
    V3, Ray, bounded, is_zero, dot_s, len_s, unit_s, reflect_s, refract_s, v3i, unit, reflect,
    refract, near_zero, random_unit_vec, random_in_unit_sphere, rand_in, lemma_dot_bound,
    UNIT_MAX, DIR_MAX,
};
use crate::hittable::HitRecord;

verus! {

/// What a scattering event yields: an attenuation and the outgoing ray.
pub type Scatter = (Color, Ray);

/// A diffuse surface: scatters about the normal, attenuates by its albedo.
#[derive(Clone, Copy, Debug)]
pub struct Lambertian {
    pub albedo: Color,
}

/// A reflective surface with an optional fuzz radius.
#[derive(Clone, Copy, Debug)]
pub struct Metal {
    pub albedo: Color,
    pub fuzz: i64,
}

/// A clear refractive surface with its index of refraction.
#[derive(Clone, Copy, Debug)]
pub struct Dielectric {
    pub ir: i64,
}

/// The scattering policies a primitive can carry, as a tagged variant.
#[derive(Clone, Copy, Debug)]
pub enum Material {
    Lambertian(Lambertian),
    Metal(Metal),
    Dielectric(Dielectric),
}

/// Physical well-formedness: albedo components within [0, 1], fuzz within
/// [0, 1], refractive index at least the fixed-point resolution.
pub open spec fn material_wf(m: Material) -> bool {
    match m {
        Material::Lambertian(l) => color_wf(l.albedo),
        Material::Metal(mt) => color_wf(mt.albedo) && 0 <= mt.fuzz <= 65536,
        Material::Dielectric(d) => 1 <= d.ir <= 1048576,
    }
}

/// Color components within the unit interval [0, ONE].
pub open spec fn color_wf(c: Color) -> bool {
    0 <= c.0.x <= 65536 && 0 <= c.0.y <= 65536 && 0 <= c.0.z <= 65536
}

/// The conditions a hit record and ray meet when a material is asked to
/// scatter: a unit-scale opposing normal, an in-envelope point, and a
/// nonzero bounded incoming direction.
pub open spec fn scatter_pre(ray: Ray, rec: HitRecord) -> bool {
    &&& bounded(rec.normal, UNIT_MAX as int)
    &&& bounded(rec.point, 144115188075855872int)
    &&& bounded(ray.dir, DIR_MAX as int)
    &&& !is_zero(ray.dir)
}

/// The diffuse outgoing direction for a given summand: the normal plus
/// the summand, with the bare normal exactly on degenerate cancellation.
pub open spec fn lambertian_dir_s(n: V3, u: V3) -> V3 {
    let sum = v3i(n.x + u.x, n.y + u.y, n.z + u.z);
    if is_zero(sum) {
        n
    } else {
        sum
    }
}

/// One diffuse scattering outcome: the albedo as attenuation, and a ray
/// from the hit point along the normal plus some normalized nonzero
/// sphere sample.
pub open spec fn lambertian_rel(l: Lambertian, rec: HitRecord, att: Color, sray: Ray) -> bool {
    &&& att == l.albedo
    &&& sray.orig == rec.point
    &&& exists|p: V3| #![auto]
        !is_zero(p) && bounded(p, 65536int) && 65532 <= len_s(unit_s(p)) <= 65542 && sray.dir
            == lambertian_dir_s(rec.normal, unit_s(p))
    &&& !is_zero(rec.normal) ==> !is_zero(sray.dir)
}

/// The fuzzed mirror direction for a given sphere sample.
pub open spec fn metal_dir_s(ray: Ray, n: V3, fuzz: int, p: V3) -> V3 {
    let refl = reflect_s(unit_s(ray.dir), n);
    v3i(
        refl.x + mul_fx(fuzz, p.x as int),
        refl.y + mul_fx(fuzz, p.y as int),
        refl.z + mul_fx(fuzz, p.z as int),
    )
}

/// One metallic scattering outcome: the albedo as attenuation, and a ray
/// from the hit point along the fuzzed mirror direction of some sphere
/// sample, leaving the surface.
pub open spec fn metal_rel(m: Metal, ray: Ray, rec: HitRecord, att: Color, sray: Ray) -> bool {
    &&& att == m.albedo
    &&& sray.orig == rec.point
    &&& dot_s(sray.dir, rec.normal) > 0
    &&& exists|p: V3| #![auto]
        bounded(p, 65536int) && len_s(p) < 65536 && sray.dir == metal_dir_s(
            ray,
            rec.normal,
            m.fuzz as int,
            p,
        )
}

/// The cosine the dielectric works with: min(1, -(unit(dir) . n)).
pub open spec fn dielectric_cos_s(ray: Ray, n: V3) -> int {
    let d = dot_s(unit_s(ray.dir), n);
    if -d <= 65536 {
        -d
    } else {
        65536
    }
}

/// The sine rebuilt from that cosine, radicand clamped at zero.
pub open spec fn dielectric_sin_s(ray: Ray, n: V3) -> int {
    let c2 = mul_fx(dielectric_cos_s(ray, n), dielectric_cos_s(ray, n));
    let s2 = if 65536 - c2 >= 0 { 65536 - c2 } else { 0 };
    sqrt_i(s2 * 65536)
}

/// One dielectric scattering outcome: white attenuation, and a ray from
/// the hit point that is the mirror reflection or the Snell refraction of
/// the unit incoming direction; when total internal reflection forces the
/// choice, it is the reflection.
pub open spec fn dielectric_rel(d: Dielectric, ray: Ray, rec: HitRecord, att: Color, sray: Ray) -> bool {
    let ratio = d.ratio_s(rec.front_face);
    &&& att == (Color(V3 { x: 65536, y: 65536, z: 65536 }))
    &&& sray.orig == rec.point
    &&& (sray.dir == reflect_s(unit_s(ray.dir), rec.normal) || sray.dir == refract_s(
        unit_s(ray.dir),
        rec.normal,
        ratio,
    ))
    &&& mul_fx(ratio, dielectric_sin_s(ray, rec.normal)) > 65536 ==> sray.dir == reflect_s(
        unit_s(ray.dir),
        rec.normal,
    )
}

/// What one successful scattering event relates, by material policy.
pub open spec fn scatter_rel(m: Material, ray: Ray, rec: HitRecord, att: Color, sray: Ray) -> bool {
    match m {
        Material::Lambertian(l) => lambertian_rel(l, rec, att, sray),
        Material::Metal(mt) => metal_rel(mt, ray, rec, att, sray),
        Material::Dielectric(d) => dielectric_rel(d, ray, rec, att, sray),
    }
}

impl Lambertian {
    /// Diffuse scatter: the normal plus a random unit direction, with the
    /// bare normal as fallback on degenerate cancellation. Never absorbs.
    pub fn scatter(&self, ray: &Ray, rec: &HitRecord) -> (r: Option<Scatter>)
        requires
            color_wf(self.albedo),
            scatter_pre(*ray, *rec),
        ensures
            r is Some,
            r matches Some(sc) ==> lambertian_rel(*self, *rec, sc.0, sc.1) && bounded(
                sc.1.dir,
                262144int,
            ),
    {
        let ruv = random_unit_vec();
        let ghost pw = choose|p: V3|
            !is_zero(p) && bounded(p, 65536int) && 16384 <= #[trigger] len_s(p) && ruv
                == unit_s(p);
        let mut scatter_dir = rec.normal.add(ruv);
        proof {
            assert(scatter_dir == v3i(
                rec.normal.x + ruv.x,
                rec.normal.y + ruv.y,
                rec.normal.z + ruv.z,
            ));
        }
        if near_zero(&scatter_dir) {
            scatter_dir = rec.normal;
        }
        proof {
            assert(scatter_dir == lambertian_dir_s(rec.normal, unit_s(pw)));
        }
        let scattered = Ray { orig: rec.point, dir: scatter_dir };
        Some((self.albedo, scattered))
    }
}

impl Metal {
    /// Specular scatter: the mirrored direction plus a fuzz-scaled sphere
    /// sample; absorbed exactly when that direction would re-enter the
    /// surface. With zero fuzz the outcome is deterministic.
    pub fn scatter(&self, ray: &Ray, rec: &HitRecord) -> (r: Option<Scatter>)
        requires
            color_wf(self.albedo),
            0 <= self.fuzz <= 65536,
            scatter_pre(*ray, *rec),
        ensures
            r matches Some(sc) ==> metal_rel(*self, *ray, *rec, sc.0, sc.1) && bounded(
                sc.1.dir,
                8454144int,
            ),
            r is None ==> exists|p: V3| #![auto]
                bounded(p, 65536int) && len_s(p) < 65536 && dot_s(
                    metal_dir_s(*ray, rec.normal, self.fuzz as int, p),
                    rec.normal,
                ) <= 0,
            self.fuzz == 0 ==> (r is Some <==> dot_s(
                reflect_s(unit_s(ray.dir), rec.normal),
                rec.normal,
            ) > 0),
            self.fuzz == 0 ==> (r matches Some(sc) ==> sc.1.dir == reflect_s(
                unit_s(ray.dir),
                rec.normal,
            )),
    {
        let ud = unit(&ray.direction());
        let reflected = reflect(&ud, &rec.normal);
        let sp = random_in_unit_sphere();
        proof {
            lemma_mul_fx_bound(self.fuzz as int, sp.x as int, 65536int, 65536int);
            lemma_mul_fx_bound(self.fuzz as int, sp.y as int, 65536int, 65536int);
            lemma_mul_fx_bound(self.fuzz as int, sp.z as int, 65536int, 65536int);
        }
        let fz = sp.scale(self.fuzz);
        let dir = reflected.add(fz);
        proof {
            assert(dir == metal_dir_s(*ray, rec.normal, self.fuzz as int, sp));
            if self.fuzz == 0 {
                assert((0int) * (sp.x as int) == 0) by (nonlinear_arith);
                assert((0int) * (sp.y as int) == 0) by (nonlinear_arith);
                assert((0int) * (sp.z as int) == 0) by (nonlinear_arith);
                assert(abs_i(0int) / 65536 == 0);
                assert(dir == reflected);
            }
        }
        let scattered = Ray { orig: rec.point, dir };
        let d = scattered.direction().dot(rec.normal);
        if d > 0 {
            Some((self.albedo, scattered))
        } else {
            None
        }
    }
}

/// Schlick's reflectance approximation on fixed-point scalars:
/// r0 + (1 - r0)(1 - cos)^5 with r0 = ((1 - ior) / (1 + ior))^2.
pub open spec fn reflectance_s(cosine: int, ref_idx: int) -> int {
    let r0 = div_fx(65536 - ref_idx, 65536 + ref_idx);
    let r0sq = mul_fx(r0, r0);
    let om = 65536 - cosine;
    let p2 = mul_fx(om, om);
    let p4 = mul_fx(p2, p2);
    let p5 = mul_fx(p4, om);
    r0sq + mul_fx(65536 - r0sq, p5)
}

impl Dielectric {
    /// Schlick's approximation of Fresnel reflectance.
    pub fn reflectance(cosine: i64, ref_idx: i64) -> (r: i64)
        requires
            -1048576 <= cosine <= 65536,
            0 <= ref_idx <= 4294967296,
        ensures
            r as int == reflectance_s(cosine as int, ref_idx as int),
    {
        proof {
            let num = 65536 - ref_idx as int;
            let den = 65536 + ref_idx as int;
            lemma_div_t_abs(num * 65536, den);
            assert(abs_i(num * 65536) == abs_i(num) * 65536) by (nonlinear_arith);
            assert(abs_i(num) * 65536 <= den * 65536) by (nonlinear_arith)
                requires abs_i(num) <= den;
            vstd::arithmetic::div_mod::lemma_div_is_ordered(abs_i(num) * 65536, den * 65536, den);
            vstd::arithmetic::div_mod::lemma_div_multiples_vanish(65536, den);
        }
        let r0 = fdiv(65536 - ref_idx, 65536 + ref_idx);
        proof {
            lemma_mul_fx_bound(r0 as int, r0 as int, 65536int, 65536int);
        }
        let r0sq = fmul(r0, r0);
        let om = 65536 - cosine;
        proof {
            lemma_mul_fx_bound(om as int, om as int, 1114112int, 1114112int);
        }
        let p2 = fmul(om, om);
        proof {
            lemma_mul_fx_bound(p2 as int, p2 as int, 18939904int, 18939904int);
        }
        let p4 = fmul(p2, p2);
        proof {
            lemma_mul_fx_bound(p4 as int, om as int, 5473632256int, 1114112int);
        }
        let p5 = fmul(p4, om);
        proof {
            crate::geometry::lemma_mul_fx_self_nonneg(r0 as int);
            lemma_mul_fx_bound(65536 - r0sq as int, p5 as int, 65536int, 93051748352int);
        }
        r0sq + fmul(65536 - r0sq, p5)
    }

    /// The refraction ratio a dielectric applies at this face.
    pub open spec fn ratio_s(&self, front_face: bool) -> int {
        if front_face {
            div_fx(65536, self.ir as int)
        } else {
            self.ir as int
        }
    }

    /// Glass scatter: always scatters with white attenuation; reflects on
    /// total internal reflection or a Schlick draw, refracts otherwise.
    pub fn scatter(&self, ray: &Ray, rec: &HitRecord) -> (r: Option<Scatter>)
        requires
            1 <= self.ir <= 1048576,
            scatter_pre(*ray, *rec),
        ensures
            r is Some,
            r matches Some(sc) ==> dielectric_rel(*self, *ray, *rec, sc.0, sc.1) && bounded(
                sc.1.dir,
                549755813888int,
            ),
    {
        let attenuation = Color(V3 { x: 65536, y: 65536, z: 65536 });
        proof {
            lemma_div_t_abs(65536int * 65536, self.ir as int);
            vstd::arithmetic::div_mod::lemma_div_is_ordered(
                abs_i(65536int * 65536),
                65536int * 65536,
                self.ir as int,
            );
        }
        let refraction_ratio: i64 = if rec.front_face {
            fdiv(65536, self.ir)
        } else {
            self.ir
        };
        proof {
            assert(0 <= div_fx(65536, self.ir as int) <= 4294967296) by {
                lemma_div_t_abs(65536int * 65536, self.ir as int);
                vstd::arithmetic::div_mod::lemma_div_is_ordered(
                    65536int * 65536,
                    4294967296int * (self.ir as int),
                    self.ir as int,
                );
                assert(65536int * 65536 <= 4294967296 * (self.ir as int)) by (nonlinear_arith)
                    requires self.ir >= 1;
                vstd::arithmetic::div_mod::lemma_div_multiples_vanish(
                    4294967296,
                    self.ir as int,
                );
                assert(4294967296int * (self.ir as int) == (self.ir as int) * 4294967296)
                    by (nonlinear_arith);
            }
        }
        let unit_dir = unit(&ray.direction());
        let d = unit_dir.dot(rec.normal);
        proof {
            lemma_dot_bound(unit_dir, rec.normal, UNIT_MAX as int);
        }
        let cos_theta: i64 = if -d <= 65536 { -d } else { 65536 };
        proof {
            lemma_mul_fx_bound(cos_theta as int, cos_theta as int, 786432int, 786432int);
        }
        let c2 = fmul(cos_theta, cos_theta);
        proof {
            crate::geometry::lemma_mul_fx_self_nonneg(cos_theta as int);
        }
        let s2: i64 = if 65536 - c2 >= 0 { 65536 - c2 } else { 0 };
        proof {
            assert(0 <= (s2 as int) * 65536 <= 65536int * 65536) by (nonlinear_arith)
                requires 0 <= s2 <= 65536;
        }
        let sin128 = isqrt(((s2 as i128) * 65536) as u128);
        proof {
            assert(sin128 as int <= 65536) by (nonlinear_arith)
                requires
                    (sin128 as int) * (sin128 as int) <= (s2 as int) * 65536,
                    0 <= s2 <= 65536,
                    sin128 >= 0,
            ;
        }
        let sin_theta = sin128 as i64;
        proof {
            assert(cos_theta as int == dielectric_cos_s(*ray, rec.normal));
            assert(sin_theta as int == dielectric_sin_s(*ray, rec.normal));
            lemma_mul_fx_bound(refraction_ratio as int, sin_theta as int, 4294967296int, 65536int);
        }
        let cannot_refract = fmul(refraction_ratio, sin_theta) > 65536;
        let refl = Dielectric::reflectance(cos_theta, refraction_ratio);
        let draw = rand_in(0, 65536);
        let should_reflect = refl > draw;
        let direction = if cannot_refract || should_reflect {
            reflect(&unit_dir, &rec.normal)
        } else {
            refract(&unit_dir, &rec.normal, refraction_ratio)
        };
        Some((attenuation, Ray { orig: rec.point, dir: direction }))
    }
}

impl Material {
    /// Dispatches to the policy this material carries. Every successful
    /// scatter satisfies the policy's relation, hands back a physical
    /// attenuation, and leaves from the hit point; only a metal may
    /// absorb.
    pub fn scatter(&self, ray: &Ray, rec: &HitRecord) -> (r: Option<Scatter>)
        requires
            material_wf(*self),
            scatter_pre(*ray, *rec),
        ensures
            r matches Some(sc) ==> {
                &&& scatter_rel(*self, *ray, *rec, sc.0, sc.1)
                &&& color_wf(sc.0)
                &&& sc.1.orig == rec.point
                &&& bounded(sc.1.dir, 549755813888int)
            },
            !(self matches Material::Metal(_)) ==> r is Some,
    {
        match self {
            Material::Lambertian(l) => l.scatter(ray, rec),
            Material::Metal(m) => m.scatter(ray, rec),
            Material::Dielectric(d) => d.scatter(ray, rec),
        }
    }
}

} // verus!
