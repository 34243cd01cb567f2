use vstd::prelude::*;
use vstd::arithmetic::div_mod::{lemma_div_is_ordered, lemma_div_multiples_vanish};
use crate::fx::{
    abs_i, div_t, div_fx, mul_fx, is_sqrt, sqrt_i, lemma_sqrt_is, lemma_sqrt_le,
    lemma_mul_fx_bound, lemma_div_t_abs, lemma_div_t_close, fmul, fdiv, isqrt, div_t_i128,
};
use crate::material::Material;

verus! {

/// One whole unit in the fixed-point scale (the scalar 1.0).
pub const ONE: i64 = 65536;

/// Bound on the components of a vector fed to a dot product or a length.
pub const DOT_MAX: i64 = 274877906944;

/// Bound on the components of a unit-scale vector (a direction after
/// normalization, a surface normal).
pub const UNIT_MAX: i64 = 131072;

/// Bound on the components of a ray direction.
pub const DIR_MAX: i64 = 1073741824;

/// Bound on scene coordinates (ray origins, sphere centers) and radii.
pub const COORD_MAX: i64 = 68719476736;

/// Bound on an accepted ray parameter `t`.
pub const T_MAX: i64 = 1099511627776;

/// Fixed-point pi, in 1/65536 units.
pub const PI_FX: i64 = 205887;

/// A three-component vector of fixed-point scalars.
#[derive(Clone, Copy, PartialEq, Eq, Structural, Debug)]
pub struct V3 {
    pub x: i64,
    pub y: i64,
    pub z: i64,
}

pub type Point = V3;

/// A ray: origin plus scaled direction.
#[derive(Clone, Copy, PartialEq, Eq, Structural, Debug)]
pub struct Ray {
    pub orig: Point,
    pub dir: V3,
}

/// A sphere primitive with its surface material.
#[derive(Clone, Copy, Debug)]
pub struct Sphere {
    pub center: Point,
    pub radius: i64,
    pub material: Material,
}

/// Builds a vector from an integer triple (spec mirror of `v3`).
pub open spec fn v3i(x: int, y: int, z: int) -> V3 {
    V3 { x: x as i64, y: y as i64, z: z as i64 }
}

/// Component-wise sum (spec mirror of `V3::add`).
pub open spec fn add_s(a: V3, b: V3) -> V3 {
    v3i(a.x + b.x, a.y + b.y, a.z + b.z)
}

/// Component-wise difference (spec mirror of `V3::sub`).
pub open spec fn sub_s(a: V3, b: V3) -> V3 {
    v3i(a.x - b.x, a.y - b.y, a.z - b.z)
}

/// Scalar multiple (spec mirror of `V3::scale`).
pub open spec fn scale_s(k: int, v: V3) -> V3 {
    v3i(mul_fx(k, v.x as int), mul_fx(k, v.y as int), mul_fx(k, v.z as int))
}

/// Cross product (spec mirror of `V3::cross`).
pub open spec fn cross_s(a: V3, b: V3) -> V3 {
    v3i(
        mul_fx(a.y as int, b.z as int) - mul_fx(a.z as int, b.y as int),
        mul_fx(a.z as int, b.x as int) - mul_fx(a.x as int, b.z as int),
        mul_fx(a.x as int, b.y as int) - mul_fx(a.y as int, b.x as int),
    )
}

/// The fixed-point dot product: component products, each rescaled.
pub open spec fn dot_s(a: V3, b: V3) -> int {
    mul_fx(a.x as int, b.x as int) + mul_fx(a.y as int, b.y as int) + mul_fx(
        a.z as int,
        b.z as int,
    )
}

/// Sum of raw component squares: the squared length at scale ONE^2.
pub open spec fn norm_sq_raw(a: V3) -> int {
    (a.x as int) * (a.x as int) + (a.y as int) * (a.y as int) + (a.z as int) * (a.z as int)
}

/// The fixed-point length of a vector.
pub open spec fn len_s(a: V3) -> int {
    sqrt_i(norm_sq_raw(a))
}

/// Whether all components are zero.
pub open spec fn is_zero(a: V3) -> bool {
    a.x == 0 && a.y == 0 && a.z == 0
}

/// All components within `b` in magnitude.
pub open spec fn bounded(a: V3, b: int) -> bool {
    abs_i(a.x as int) <= b && abs_i(a.y as int) <= b && abs_i(a.z as int) <= b
}

/// The normalized copy of a vector (spec mirror of `unit`).
pub open spec fn unit_s(v: V3) -> V3 {
    v3i(
        div_fx(v.x as int, len_s(v)),
        div_fx(v.y as int, len_s(v)),
        div_fx(v.z as int, len_s(v)),
    )
}

/// Mirror reflection about a normal: v - 2 (v.n) n.
pub open spec fn reflect_s(v: V3, n: V3) -> V3 {
    v3i(
        v.x - mul_fx(2 * dot_s(v, n), n.x as int),
        v.y - mul_fx(2 * dot_s(v, n), n.y as int),
        v.z - mul_fx(2 * dot_s(v, n), n.z as int),
    )
}

pub fn v3(x: i64, y: i64, z: i64) -> (r: V3)
    ensures
        r == (V3 { x, y, z }),
{
    V3 { x, y, z }
}

impl V3 {
    /// Component-wise sum.
    pub fn add(self, o: V3) -> (r: V3)
        requires
            i64::MIN <= self.x + o.x <= i64::MAX,
            i64::MIN <= self.y + o.y <= i64::MAX,
            i64::MIN <= self.z + o.z <= i64::MAX,
        ensures
            r.x == self.x + o.x,
            r.y == self.y + o.y,
            r.z == self.z + o.z,
            r == add_s(self, o),
    {
        V3 { x: self.x + o.x, y: self.y + o.y, z: self.z + o.z }
    }

    /// Component-wise difference.
    pub fn sub(self, o: V3) -> (r: V3)
        requires
            i64::MIN <= self.x - o.x <= i64::MAX,
            i64::MIN <= self.y - o.y <= i64::MAX,
            i64::MIN <= self.z - o.z <= i64::MAX,
        ensures
            r.x == self.x - o.x,
            r.y == self.y - o.y,
            r.z == self.z - o.z,
            r == sub_s(self, o),
    {
        V3 { x: self.x - o.x, y: self.y - o.y, z: self.z - o.z }
    }

    /// Component-wise negation.
    pub fn neg(self) -> (r: V3)
        requires
            self.x > i64::MIN,
            self.y > i64::MIN,
            self.z > i64::MIN,
        ensures
            r.x == -self.x,
            r.y == -self.y,
            r.z == -self.z,
    {
        V3 { x: -self.x, y: -self.y, z: -self.z }
    }

    /// Scalar multiple: each component rescaled by the fixed-point factor.
    pub fn scale(self, k: i64) -> (r: V3)
        requires
            abs_i(mul_fx(k as int, self.x as int)) <= i64::MAX as int,
            abs_i(mul_fx(k as int, self.y as int)) <= i64::MAX as int,
            abs_i(mul_fx(k as int, self.z as int)) <= i64::MAX as int,
        ensures
            r.x == mul_fx(k as int, self.x as int),
            r.y == mul_fx(k as int, self.y as int),
            r.z == mul_fx(k as int, self.z as int),
            r == scale_s(k as int, self),
    {
        V3 { x: fmul(k, self.x), y: fmul(k, self.y), z: fmul(k, self.z) }
    }

    /// Fixed-point dot product.
    pub fn dot(self, o: V3) -> (r: i64)
        requires
            bounded(self, DOT_MAX as int),
            bounded(o, DOT_MAX as int),
        ensures
            r as int == dot_s(self, o),
            abs_i(r as int) <= 3460854650646560768,
    {
        proof {
            lemma_mul_fx_bound(self.x as int, o.x as int, DOT_MAX as int, DOT_MAX as int);
            lemma_mul_fx_bound(self.y as int, o.y as int, DOT_MAX as int, DOT_MAX as int);
            lemma_mul_fx_bound(self.z as int, o.z as int, DOT_MAX as int, DOT_MAX as int);
        }
        let px = fmul(self.x, o.x);
        let py = fmul(self.y, o.y);
        let pz = fmul(self.z, o.z);
        px + py + pz
    }

    /// Fixed-point cross product.
    pub fn cross(self, o: V3) -> (r: V3)
        requires
            bounded(self, DOT_MAX as int),
            bounded(o, DOT_MAX as int),
        ensures
            r.x == mul_fx(self.y as int, o.z as int) - mul_fx(self.z as int, o.y as int),
            r.y == mul_fx(self.z as int, o.x as int) - mul_fx(self.x as int, o.z as int),
            r.z == mul_fx(self.x as int, o.y as int) - mul_fx(self.y as int, o.x as int),
            r == cross_s(self, o),
    {
        proof {
            lemma_mul_fx_bound(self.y as int, o.z as int, DOT_MAX as int, DOT_MAX as int);
            lemma_mul_fx_bound(self.z as int, o.y as int, DOT_MAX as int, DOT_MAX as int);
            lemma_mul_fx_bound(self.z as int, o.x as int, DOT_MAX as int, DOT_MAX as int);
            lemma_mul_fx_bound(self.x as int, o.z as int, DOT_MAX as int, DOT_MAX as int);
            lemma_mul_fx_bound(self.x as int, o.y as int, DOT_MAX as int, DOT_MAX as int);
            lemma_mul_fx_bound(self.y as int, o.x as int, DOT_MAX as int, DOT_MAX as int);
        }
        V3 {
            x: fmul(self.y, o.z) - fmul(self.z, o.y),
            y: fmul(self.z, o.x) - fmul(self.x, o.z),
            z: fmul(self.x, o.y) - fmul(self.y, o.x),
        }
    }

    /// Squared length as a fixed-point scalar (the dot product with itself).
    pub fn length_squared(&self) -> (r: i64)
        requires
            bounded(*self, DOT_MAX as int),
        ensures
            r as int == dot_s(*self, *self),
    {
        self.dot(*self)
    }

    /// Fixed-point length: integer square root of the raw component squares.
    pub fn length(&self) -> (r: i64)
        requires
            bounded(*self, DOT_MAX as int),
        ensures
            r as int == len_s(*self),
            is_sqrt(norm_sq_raw(*self), r as int),
            0 <= r <= 549755813888,
            is_zero(*self) <==> r == 0,
    {
        proof {
            assert((self.x as int) * (self.x as int) <= (DOT_MAX as int) * (DOT_MAX as int)
                && (self.x as int) * (self.x as int) >= 0) by (nonlinear_arith)
                requires abs_i(self.x as int) <= DOT_MAX as int;
            assert((self.y as int) * (self.y as int) <= (DOT_MAX as int) * (DOT_MAX as int)
                && (self.y as int) * (self.y as int) >= 0) by (nonlinear_arith)
                requires abs_i(self.y as int) <= DOT_MAX as int;
            assert((self.z as int) * (self.z as int) <= (DOT_MAX as int) * (DOT_MAX as int)
                && (self.z as int) * (self.z as int) >= 0) by (nonlinear_arith)
                requires abs_i(self.z as int) <= DOT_MAX as int;
        }
        let sx: i128 = (self.x as i128) * (self.x as i128);
        let sy: i128 = (self.y as i128) * (self.y as i128);
        let sz: i128 = (self.z as i128) * (self.z as i128);
        let n: u128 = (sx + sy + sz) as u128;
        let r = isqrt(n);
        proof {
            assert((r as int) * (r as int) <= n as int && n as int <= 3 * (DOT_MAX as int) * (
            DOT_MAX as int));
            assert(r as int <= 549755813888) by (nonlinear_arith)
                requires
                    (r as int) * (r as int) <= 3 * (DOT_MAX as int) * (DOT_MAX as int),
                    r >= 0,
                    DOT_MAX == 274877906944i64,
            ;
            if is_zero(*self) {
                assert(self.x == 0 ==> (self.x as int) * (self.x as int) == 0) by (nonlinear_arith);
                assert(self.y == 0 ==> (self.y as int) * (self.y as int) == 0) by (nonlinear_arith);
                assert(self.z == 0 ==> (self.z as int) * (self.z as int) == 0) by (nonlinear_arith);
                assert(n == 0);
                assert(is_sqrt(0, 0)) by (nonlinear_arith);
                lemma_sqrt_is(0, 0);
            } else {
                assert(self.x != 0 ==> (self.x as int) * (self.x as int) >= 1) by (nonlinear_arith);
                assert(self.y != 0 ==> (self.y as int) * (self.y as int) >= 1) by (nonlinear_arith);
                assert(self.z != 0 ==> (self.z as int) * (self.z as int) >= 1) by (nonlinear_arith);
                assert(n >= 1);
                assert(r as int >= 1) by {
                    if r == 0 {
                        assert((0int + 1) * (0int + 1) == 1);
                        assert((n as int) < 1);
                    }
                }
            }
        }
        r as i64
    }
}

/// True only for the exact zero vector: a threshold of 1e-8 lies
/// below the fixed-point resolution, so no other vector is near zero.
pub fn near_zero(v: &V3) -> (r: bool)
    ensures
        r == is_zero(*v),
{
    v.x == 0 && v.y == 0 && v.z == 0
}

/// Normalizes a nonzero vector; components come out within ONE, and for
/// inputs at least a quarter unit long the result's length lands within
/// a few fixed-point units of one.
pub fn unit(v: &V3) -> (r: V3)
    requires
        bounded(*v, DOT_MAX as int),
        !is_zero(*v),
    ensures
        r == unit_s(*v),
        bounded(r, ONE as int),
        len_s(*v) >= 16384 ==> 65532 <= len_s(r) <= 65542,
{
    let l = v.length();
    proof {
        if l >= 16384 {
            lemma_unit_len_close(*v, l as int);
        }
    }
    proof {
        let n = norm_sq_raw(*v);
        assert((v.x as int) * (v.x as int) >= 0) by (nonlinear_arith);
        assert((v.y as int) * (v.y as int) >= 0) by (nonlinear_arith);
        assert((v.z as int) * (v.z as int) >= 0) by (nonlinear_arith);
        lemma_sqrt_le(n, l as int, v.x as int);
        lemma_sqrt_le(n, l as int, v.y as int);
        lemma_sqrt_le(n, l as int, v.z as int);
        lemma_unit_comp_bound(v.x as int, l as int);
        lemma_unit_comp_bound(v.y as int, l as int);
        lemma_unit_comp_bound(v.z as int, l as int);
    }
    V3 { x: fdiv(v.x, l), y: fdiv(v.y, l), z: fdiv(v.z, l) }
}

/// A component no longer than the length divides out to at most ONE.
proof fn lemma_unit_comp_bound(c: int, l: int)
    requires
        l >= 1,
        abs_i(c) <= l,
    ensures
        abs_i(div_fx(c, l)) <= ONE as int,
{
    lemma_div_t_abs(c * 65536, l);
    assert(abs_i(c * 65536) == abs_i(c) * 65536) by (nonlinear_arith);
    assert(abs_i(c) * 65536 <= l * 65536) by (nonlinear_arith)
        requires abs_i(c) <= l;
    lemma_div_is_ordered(abs_i(c) * 65536, l * 65536, l);
    lemma_div_multiples_vanish(65536, l);
}

/// Mirror reflection of `v` about the normal `n`.
pub fn reflect(v: &V3, n: &V3) -> (r: V3)
    requires
        bounded(*v, UNIT_MAX as int),
        bounded(*n, UNIT_MAX as int),
    ensures
        r == reflect_s(*v, *n),
        bounded(r, 8388608int),
{
    let d = v.dot(*n);
    proof {
        lemma_dot_bound(*v, *n, UNIT_MAX as int);
        lemma_mul_fx_bound(2 * d as int, n.x as int, 2097152int, UNIT_MAX as int);
        lemma_mul_fx_bound(2 * d as int, n.y as int, 2097152int, UNIT_MAX as int);
        lemma_mul_fx_bound(2 * d as int, n.z as int, 2097152int, UNIT_MAX as int);
    }
    let k = 2 * d;
    let s = n.scale(k);
    V3 { x: v.x - s.x, y: v.y - s.y, z: v.z - s.z }
}

/// A rescaled square is never negative.
pub proof fn lemma_mul_fx_self_nonneg(c: int)
    ensures
        mul_fx(c, c) >= 0,
{
    assert(c * c >= 0) by (nonlinear_arith);
    assert(abs_i(c * c) / 65536 >= 0) by (nonlinear_arith)
        requires abs_i(c * c) >= 0;
}

/// Dot products of vectors bounded by `b` are bounded by 3 b^2 / ONE.
pub proof fn lemma_dot_bound(a: V3, o: V3, b: int)
    requires
        bounded(a, b),
        bounded(o, b),
        b >= 0,
    ensures
        abs_i(dot_s(a, o)) <= 3 * (b * b / (ONE as int)),
{
    lemma_mul_fx_bound(a.x as int, o.x as int, b, b);
    lemma_mul_fx_bound(a.y as int, o.y as int, b, b);
    lemma_mul_fx_bound(a.z as int, o.z as int, b, b);
}

/// The cosine term of refraction: min(1, -(uv . n)).
pub open spec fn refract_cos(uv: V3, n: V3) -> int {
    if -dot_s(uv, n) <= 65536 { -dot_s(uv, n) } else { 65536 }
}

/// The component of the refracted ray perpendicular to the normal.
pub open spec fn refract_perp(uv: V3, n: V3, ratio: int) -> V3 {
    v3i(
        mul_fx(ratio, uv.x + mul_fx(refract_cos(uv, n), n.x as int)),
        mul_fx(ratio, uv.y + mul_fx(refract_cos(uv, n), n.y as int)),
        mul_fx(ratio, uv.z + mul_fx(refract_cos(uv, n), n.z as int)),
    )
}

/// Snell refraction of a unit direction about a normal, with the radicand
/// clamped at zero against overshoot.
pub open spec fn refract_s(uv: V3, n: V3, ratio: int) -> V3 {
    let p = refract_perp(uv, n, ratio);
    let rad = if 65536 - dot_s(p, p) >= 0 { 65536 - dot_s(p, p) } else { 0 };
    let plen = sqrt_i(rad * 65536);
    v3i(
        p.x - mul_fx(plen, n.x as int),
        p.y - mul_fx(plen, n.y as int),
        p.z - mul_fx(plen, n.z as int),
    )
}

/// Snell's-law refraction: the perpendicular term scaled by the index
/// ratio, the parallel term rebuilt from the unit-length constraint.
pub fn refract(uv: &V3, n: &V3, etai_over_etat: i64) -> (r: V3)
    requires
        bounded(*uv, UNIT_MAX as int),
        bounded(*n, UNIT_MAX as int),
        0 <= etai_over_etat <= 4294967296,
    ensures
        r == refract_s(*uv, *n, etai_over_etat as int),
        bounded(r, 549755813888int),
{
    let d = uv.dot(*n);
    proof {
        lemma_dot_bound(*uv, *n, UNIT_MAX as int);
    }
    let cos: i64 = if -d <= 65536 { -d } else { 65536 };
    proof {
        lemma_mul_fx_bound(cos as int, n.x as int, 786432int, UNIT_MAX as int);
        lemma_mul_fx_bound(cos as int, n.y as int, 786432int, UNIT_MAX as int);
        lemma_mul_fx_bound(cos as int, n.z as int, 786432int, UNIT_MAX as int);
    }
    let ix = uv.x + fmul(cos, n.x);
    let iy = uv.y + fmul(cos, n.y);
    let iz = uv.z + fmul(cos, n.z);
    proof {
        lemma_mul_fx_bound(etai_over_etat as int, ix as int, 4294967296int, 2097152int);
        lemma_mul_fx_bound(etai_over_etat as int, iy as int, 4294967296int, 2097152int);
        lemma_mul_fx_bound(etai_over_etat as int, iz as int, 4294967296int, 2097152int);
    }
    let perp = V3 {
        x: fmul(etai_over_etat, ix),
        y: fmul(etai_over_etat, iy),
        z: fmul(etai_over_etat, iz),
    };
    let pd = perp.dot(perp);
    proof {
        lemma_mul_fx_self_nonneg(perp.x as int);
        lemma_mul_fx_self_nonneg(perp.y as int);
        lemma_mul_fx_self_nonneg(perp.z as int);
    }
    let rad: i64 = if 65536 - pd >= 0 { 65536 - pd } else { 0 };
    proof {
        assert(0 <= (rad as int) * 65536 <= 65536int * 65536) by (nonlinear_arith)
            requires 0 <= rad <= 65536;
    }
    let pl128 = isqrt(((rad as i128) * 65536) as u128);
    proof {
        assert((pl128 as int) * (pl128 as int) <= (rad as int) * 65536);
        assert(pl128 as int <= 65536) by (nonlinear_arith)
            requires
                (pl128 as int) * (pl128 as int) <= (rad as int) * 65536,
                0 <= rad <= 65536,
                pl128 >= 0,
        ;
    }
    let plen = pl128 as i64;
    proof {
        lemma_mul_fx_bound(plen as int, n.x as int, 65536int, UNIT_MAX as int);
        lemma_mul_fx_bound(plen as int, n.y as int, 65536int, UNIT_MAX as int);
        lemma_mul_fx_bound(plen as int, n.z as int, 65536int, UNIT_MAX as int);
    }
    let r = V3 {
        x: perp.x - fmul(plen, n.x),
        y: perp.y - fmul(plen, n.y),
        z: perp.z - fmul(plen, n.z),
    };
    r
}

/// Degrees to radians, via the fixed-point pi: deg * pi / 180.
pub fn deg_to_rad(deg: i64) -> (r: i64)
    requires
        abs_i(deg as int) <= T_MAX as int,
    ensures
        r as int == div_t(deg as int * (PI_FX as int), 11796480),
        abs_i(r as int) <= abs_i(deg as int),
{
    proof {
        assert(abs_i(deg as int * 205887) == abs_i(deg as int) * 205887) by (nonlinear_arith);
        assert(abs_i(deg as int) * 205887 <= 1099511627776int * 205887) by (nonlinear_arith)
            requires abs_i(deg as int) <= 1099511627776int;
    }
    let q = div_t_i128((deg as i128) * 205887, 11796480);
    proof {
        lemma_div_t_abs(deg as int * 205887, 11796480);
        lemma_div_is_ordered(abs_i(deg as int) * 205887, abs_i(deg as int) * 11796480, 11796480);
        assert(abs_i(deg as int) * 205887 <= abs_i(deg as int) * 11796480) by (nonlinear_arith)
            requires abs_i(deg as int) >= 0;
        lemma_div_multiples_vanish(abs_i(deg as int), 11796480);
    }
    q as i64
}

/// The truncated-series tangent used by the camera, valid on small angles.
pub open spec fn tan_s(x: int) -> int {
    let x2 = mul_fx(x, x);
    let x3 = mul_fx(x2, x);
    let x5 = mul_fx(x3, x2);
    x + div_t(x3, 3) + div_t(2 * x5, 15)
}

/// Tangent by series: x + x^3/3 + 2 x^5/15, for |x| at most 0.6 rad.
pub fn tan_fx(x: i64) -> (r: i64)
    requires
        abs_i(x as int) <= 39322,
    ensures
        r as int == tan_s(x as int),
        abs_i(r as int) <= 65536,
{
    proof {
        lemma_mul_fx_bound(x as int, x as int, 39322int, 39322int);
    }
    let x2 = fmul(x, x);
    proof {
        lemma_mul_fx_bound(x2 as int, x as int, 23593int, 39322int);
    }
    let x3 = fmul(x2, x);
    proof {
        lemma_mul_fx_bound(x3 as int, x2 as int, 14158int, 23593int);
    }
    let x5 = fmul(x3, x2);
    let t3 = crate::fx::idiv(x3, 3);
    let t5 = crate::fx::idiv(2 * x5, 15);
    proof {
        lemma_div_t_abs(x3 as int, 3);
        lemma_div_t_abs(2 * x5 as int, 15);
        lemma_div_is_ordered(abs_i(x3 as int), 14158, 3);
        lemma_div_is_ordered(abs_i(2 * x5 as int), 10194, 15);
    }
    x + t3 + t5
}

/// A uniform draw in [min, max): never reaches max unless the range is
/// empty, in which case min comes back.
pub fn rand_in(min: i64, max: i64) -> (r: i64)
    requires
        min <= max,
        max - min <= i64::MAX,
    ensures
        min <= r <= max,
        min < max ==> r < max,
        min == max ==> r == min,
{
    let d_i: i64 = max - min;
    let d: u128 = d_i as u128;
    let x = crate::rng::random_u64();
    proof {
        assert(d * (x as u128) <= d * 0xffff_ffff_ffff_ffffu128) by (nonlinear_arith)
            requires x <= 0xffff_ffff_ffff_ffffu128, d >= 0;
        assert(d * 0xffff_ffff_ffff_ffffu128 <= u128::MAX) by (nonlinear_arith)
            requires d <= 0x7fff_ffff_ffff_ffffu128;
    }
    let p: u128 = d * (x as u128);
    let q: u128 = p / 18446744073709551616u128;
    proof {
        if d > 0 {
            assert(p <= (d - 1) * 18446744073709551616 + (18446744073709551616 - d)) by (nonlinear_arith)
                requires
                    p == d * (x as int),
                    x <= 0xffff_ffff_ffff_ffffu64,
                    0 < d <= 0x7fff_ffff_ffff_ffffu128,
            ;
            vstd::arithmetic::div_mod::lemma_fundamental_div_mod_converse(
                (d - 1) * 18446744073709551616 + (18446744073709551616 - d),
                18446744073709551616,
                d as int - 1,
                18446744073709551616 - d as int,
            );
            lemma_div_is_ordered(
                p as int,
                (d - 1) * 18446744073709551616 + (18446744073709551616 - d),
                18446744073709551616,
            );
        }
    }
    min + (q as i64)
}

/// A vector with components drawn uniformly from [0, 1).
pub fn rand_vec() -> (r: V3)
    ensures
        0 <= r.x < 65536 && 0 <= r.y < 65536 && 0 <= r.z < 65536,
{
    V3 { x: rand_in(0, 65536), y: rand_in(0, 65536), z: rand_in(0, 65536) }
}

/// A vector with components drawn uniformly from [min, max).
pub fn rand_vec_bounded(min: i64, max: i64) -> (r: V3)
    requires
        min <= max,
        max - min <= i64::MAX,
    ensures
        min <= r.x <= max && min <= r.y <= max && min <= r.z <= max,
{
    V3 { x: rand_in(min, max), y: rand_in(min, max), z: rand_in(min, max) }
}

/// Rejection-samples a point inside the unit disk in the z = 0 plane.
/// A generous retry bound keeps the loop finite; the disk center stands
/// in for the vanishing tail where every draw was rejected.
pub fn rand_in_unit_disk() -> (r: V3)
    ensures
        r.z == 0,
        bounded(r, ONE as int),
        len_s(r) <= ONE as int,
{
    let mut tries: u32 = 100000;
    while tries > 0
        decreases tries,
    {
        let v = V3 { x: rand_in(-65536, 65536), y: rand_in(-65536, 65536), z: 0 };
        let l = v.length();
        if l <= 65536 {
            return v;
        }
        tries = tries - 1;
    }
    proof {
        assert(is_sqrt(0, 0)) by (nonlinear_arith);
        lemma_sqrt_is(0, 0);
    }
    V3 { x: 0, y: 0, z: 0 }
}

/// Rejection-samples a point strictly inside the unit sphere, with the
/// same generous retry bound and central fallback.
pub fn random_in_unit_sphere() -> (r: V3)
    ensures
        bounded(r, ONE as int),
        len_s(r) < ONE as int,
{
    let mut tries: u32 = 100000;
    while tries > 0
        decreases tries,
    {
        let p = rand_vec_bounded(-65536, 65536);
        let l = p.length();
        if l < 65536 {
            return p;
        }
        tries = tries - 1;
    }
    proof {
        assert(is_sqrt(0, 0)) by (nonlinear_arith);
        lemma_sqrt_is(0, 0);
    }
    V3 { x: 0, y: 0, z: 0 }
}

/// A unit-length direction: a normalized sphere sample of at least a
/// quarter unit (shorter draws are rejected, so normalization stays
/// accurate). The fallback after exhausted retries is the x axis, itself
/// a unit vector.
pub fn random_unit_vec() -> (r: V3)
    ensures
        bounded(r, ONE as int),
        65532 <= len_s(r) <= 65542,
        exists|p: V3|
            !is_zero(p) && bounded(p, ONE as int) && 16384 <= #[trigger] len_s(p) && r
                == unit_s(p),
{
    let mut tries: u32 = 100000;
    while tries > 0
        decreases tries,
    {
        let p = random_in_unit_sphere();
        let l = p.length();
        if l >= 16384 {
            let u = unit(&p);
            proof {
                assert(!is_zero(p) && bounded(p, ONE as int) && 16384 <= len_s(p) && u
                    == unit_s(p));
            }
            return u;
        }
        tries = tries - 1;
    }
    let f = V3 { x: 65536, y: 0, z: 0 };
    proof {
        assert(is_sqrt(65536int * 65536, 65536)) by (nonlinear_arith);
        lemma_sqrt_is(65536int * 65536, 65536);
        assert(norm_sq_raw(f) == 65536int * 65536 + 0int * 0 + 0int * 0);
        assert(len_s(f) == 65536);
        lemma_div_multiples_vanish(65536, 65536);
        assert(div_fx(65536, 65536) == div_t(65536int * 65536, 65536));
        assert(abs_i(65536int * 65536) / 65536 == (65536int * 65536) / 65536) by (nonlinear_arith);
        assert(div_fx(0, 65536) == 0) by {
            lemma_div_t_abs(0int * 65536, 65536);
        }
        assert(f == unit_s(f));
        assert(!is_zero(f) && bounded(f, ONE as int) && 16384 <= len_s(f) && f == unit_s(f));
    }
    f
}

/// The point a ray reaches at parameter t (spec mirror of `Ray::at`).
pub open spec fn at_s(ray: Ray, t: int) -> V3 {
    v3i(
        ray.orig.x + mul_fx(t, ray.dir.x as int),
        ray.orig.y + mul_fx(t, ray.dir.y as int),
        ray.orig.z + mul_fx(t, ray.dir.z as int),
    )
}

impl Ray {
    /// The point at parameter t along the ray.
    pub fn at(&self, t: i64) -> (r: V3)
        requires
            abs_i(t as int) <= T_MAX as int,
            bounded(self.dir, DIR_MAX as int),
            bounded(self.orig, 72057594037927936int),
        ensures
            r == at_s(*self, t as int),
            bounded(r, 144115188075855872int),
    {
        proof {
            lemma_mul_fx_bound(t as int, self.dir.x as int, T_MAX as int, DIR_MAX as int);
            lemma_mul_fx_bound(t as int, self.dir.y as int, T_MAX as int, DIR_MAX as int);
            lemma_mul_fx_bound(t as int, self.dir.z as int, T_MAX as int, DIR_MAX as int);
        }
        V3 {
            x: self.orig.x + fmul(t, self.dir.x),
            y: self.orig.y + fmul(t, self.dir.y),
            z: self.orig.z + fmul(t, self.dir.z),
        }
    }

    /// The ray direction.
    pub fn direction(&self) -> (r: V3)
        ensures
            r == self.dir,
    {
        self.dir
    }

    /// The ray origin.
    pub fn origin(&self) -> (r: V3)
        ensures
            r == self.orig,
    {
        self.orig
    }
}

/// Well-formed sphere: bounded coordinates, positive radius, physical
/// material parameters.
pub open spec fn sphere_wf(s: Sphere) -> bool {
    bounded(s.center, COORD_MAX as int) && 1 <= s.radius <= COORD_MAX
        && crate::material::material_wf(s.material)
}

/// Ray whose coordinates stay within the numeric envelope of the tracer.
pub open spec fn ray_wf(r: Ray) -> bool {
    bounded(r.orig, COORD_MAX as int) && bounded(r.dir, DIR_MAX as int)
}

/// Origin-to-center offset of a ray against a sphere.
pub open spec fn oc_s(s: Sphere, ray: Ray) -> V3 {
    v3i(
        ray.orig.x - s.center.x,
        ray.orig.y - s.center.y,
        ray.orig.z - s.center.z,
    )
}

/// The record a sphere yields for an accepted root, or nothing when the
/// intersection point falls outside the numeric envelope.
pub open spec fn sphere_record_s(s: Sphere, ray: Ray, t: int) -> Option<crate::hittable::HitRecord> {
    let p = at_s(ray, t);
    let nx = div_fx(p.x - s.center.x, s.radius as int);
    let ny = div_fx(p.y - s.center.y, s.radius as int);
    let nz = div_fx(p.z - s.center.z, s.radius as int);
    if abs_i(nx) > UNIT_MAX as int || abs_i(ny) > UNIT_MAX as int || abs_i(nz) > UNIT_MAX as int {
        None
    } else {
        let outward = v3i(nx, ny, nz);
        Some(crate::hittable::HitRecord {
            point: p,
            normal: crate::hittable::oriented_normal_s(ray, outward),
            material: s.material,
            t: t as i64,
            front_face: crate::hittable::front_face_s(ray, outward),
        })
    }
}

/// The quadratic ray-sphere intersection on fixed-point scalars: nearest
/// root within the half-open window (t_min, t_max], else the farther
/// root, else no hit.
pub open spec fn sphere_hit_s(s: Sphere, ray: Ray, t_min: int, t_max: int) -> Option<
    crate::hittable::HitRecord,
> {
    let a = dot_s(ray.dir, ray.dir);
    let oc = oc_s(s, ray);
    let half_b = dot_s(oc, ray.dir);
    let c = dot_s(oc, oc) - mul_fx(s.radius as int, s.radius as int);
    let disc = half_b * half_b - a * c;
    if a <= 0 {
        None
    } else if disc < 0 {
        None
    } else {
        let sq = sqrt_i(disc);
        let r1 = div_t((-half_b - sq) * 65536, a);
        let r2 = div_t((-half_b + sq) * 65536, a);
        if t_min < r1 <= t_max {
            sphere_record_s(s, ray, r1)
        } else if t_min < r2 <= t_max {
            sphere_record_s(s, ray, r2)
        } else {
            None
        }
    }
}

impl Sphere {
    /// Nearest intersection of the ray with this sphere within
    /// (t_min, t_max], as the quadratic-root protocol prescribes.
    pub fn hit(&self, ray: &Ray, t_min: i64, t_max: i64) -> (r: Option<
        crate::hittable::HitRecord,
    >)
        requires
            sphere_wf(*self),
            ray_wf(*ray),
            0 <= t_min,
            t_max <= T_MAX,
        ensures
            r == sphere_hit_s(*self, *ray, t_min as int, t_max as int),
            r matches Some(h) ==> crate::hittable::hit_props(*ray, h, t_min as int, t_max as int),
            r matches Some(h) ==> h.material == self.material,
    {
        let oc = ray.orig.sub(self.center);
        let a = ray.dir.dot(ray.dir);
        proof {
            lemma_mul_fx_self_nonneg(ray.dir.x as int);
            lemma_mul_fx_self_nonneg(ray.dir.y as int);
            lemma_mul_fx_self_nonneg(ray.dir.z as int);
        }
        if a <= 0 {
            return None;
        }
        let half_b = oc.dot(ray.dir);
        proof {
            lemma_mul_fx_bound(self.radius as int, self.radius as int, COORD_MAX as int, COORD_MAX as int);
        }
        let rr = fmul(self.radius, self.radius);
        let cc = oc.dot(oc) - rr;
        proof {
            assert(abs_i((half_b as int) * (half_b as int)) <= 12000000000000000000000000000000000000int
                && abs_i((a as int) * (cc as int)) <= 12300000000000000000000000000000000000int)
                by (nonlinear_arith)
                requires
                    abs_i(half_b as int) <= 3460854650646560768int,
                    abs_i(a as int) <= 3460854650646560768int,
                    abs_i(cc as int) <= 3533786244685331456int,
            ;
        }
        let disc: i128 = (half_b as i128) * (half_b as i128) - (a as i128) * (cc as i128);
        if disc < 0 {
            return None;
        }
        let sq = isqrt(disc as u128);
        proof {
            assert(sq as int <= 0x2_0000_0000_0000_0000int) by (nonlinear_arith)
                requires
                    (sq as int) * (sq as int) <= disc as int,
                    disc as int <= 0x8000_0000_0000_0000_0000_0000_0000_0000int,
                    sq >= 0,
            ;
        }
        let num1: i128 = -(half_b as i128) - (sq as i128);
        let num2: i128 = -(half_b as i128) + (sq as i128);
        let root1 = crate::fx::div_t_i128(num1 * 65536, a as i128);
        let root2 = crate::fx::div_t_i128(num2 * 65536, a as i128);
        let t: i64 = if (t_min as i128) < root1 && root1 <= t_max as i128 {
            root1 as i64
        } else if (t_min as i128) < root2 && root2 <= t_max as i128 {
            root2 as i64
        } else {
            return None;
        };
        self.record_at(ray, t)
    }

    /// Builds the hit record at an accepted parameter, rejecting points
    /// whose outward normal leaves the numeric envelope.
    fn record_at(&self, ray: &Ray, t: i64) -> (r: Option<crate::hittable::HitRecord>)
        requires
            sphere_wf(*self),
            ray_wf(*ray),
            0 <= t <= T_MAX,
        ensures
            r == sphere_record_s(*self, *ray, t as int),
            r matches Some(h) ==> {
                &&& h.t == t
                &&& dot_s(ray.dir, h.normal) <= 0
                &&& bounded(h.normal, UNIT_MAX as int)
                &&& bounded(h.point, 144115188075855872int)
                &&& h.material == self.material
            },
    {
        let point = ray.at(t);
        let dx: i128 = (point.x as i128) - (self.center.x as i128);
        let dy: i128 = (point.y as i128) - (self.center.y as i128);
        let dz: i128 = (point.z as i128) - (self.center.z as i128);
        let nx = crate::fx::div_t_i128(dx * 65536, self.radius as i128);
        let ny = crate::fx::div_t_i128(dy * 65536, self.radius as i128);
        let nz = crate::fx::div_t_i128(dz * 65536, self.radius as i128);
        if nx > 131072 || nx < -131072 || ny > 131072 || ny < -131072 || nz > 131072 || nz
            < -131072 {
            return None;
        }
        let outward = V3 { x: nx as i64, y: ny as i64, z: nz as i64 };
        let rec = crate::hittable::HitRecord::new(ray, &outward, point, self.material, t);
        Some(rec)
    }
}

/// Runtime test of the numeric envelope for a scattered ray.
pub fn ray_in_bounds(r: &Ray) -> (b: bool)
    ensures
        b == ray_wf(*r),
{
    r.orig.x <= COORD_MAX && r.orig.x >= -COORD_MAX && r.orig.y <= COORD_MAX && r.orig.y
        >= -COORD_MAX && r.orig.z <= COORD_MAX && r.orig.z >= -COORD_MAX && r.dir.x <= DIR_MAX
        && r.dir.x >= -DIR_MAX && r.dir.y <= DIR_MAX && r.dir.y >= -DIR_MAX && r.dir.z <= DIR_MAX
        && r.dir.z >= -DIR_MAX
}


/// Normalizing a vector at least a quarter unit long yields a vector
/// whose length sits within a few fixed-point units of one: the
/// truncation error of each rescaled component stays below one divisor.
pub proof fn lemma_unit_len_close(v: V3, l: int)
    requires
        bounded(v, DOT_MAX as int),
        is_sqrt(norm_sq_raw(v), l),
        l >= 16384,
    ensures
        65532 <= len_s(unit_s(v)) <= 65542,
{
    let n = norm_sq_raw(v);
    let cx = v.x as int;
    let cy = v.y as int;
    let cz = v.z as int;
    assert(cx * cx >= 0 && cy * cy >= 0 && cz * cz >= 0) by (nonlinear_arith);
    lemma_sqrt_le(n, l, cx);
    lemma_sqrt_le(n, l, cy);
    lemma_sqrt_le(n, l, cz);
    lemma_unit_comp_bound(cx, l);
    lemma_unit_comp_bound(cy, l);
    lemma_unit_comp_bound(cz, l);
    let qx = div_fx(cx, l);
    let qy = div_fx(cy, l);
    let qz = div_fx(cz, l);
    assert(len_s(v) == l) by {
        lemma_sqrt_is(n, l);
    }
    assert((unit_s(v)).x as int == qx && (unit_s(v)).y as int == qy && (unit_s(v)).z as int
        == qz);
    let s2 = norm_sq_raw(unit_s(v));
    assert(s2 == qx * qx + qy * qy + qz * qz);
    lemma_div_t_close(cx * 65536, l);
    lemma_div_t_close(cy * 65536, l);
    lemma_div_t_close(cz * 65536, l);
    let dx = qx * l - cx * 65536;
    let dy = qy * l - cy * 65536;
    let dz = qz * l - cz * 65536;
    assert(qx * qx * (l * l) == (cx * 65536) * (cx * 65536) + 2 * (cx * 65536) * dx + dx * dx)
        by (nonlinear_arith)
        requires qx * l == cx * 65536 + dx;
    assert(qy * qy * (l * l) == (cy * 65536) * (cy * 65536) + 2 * (cy * 65536) * dy + dy * dy)
        by (nonlinear_arith)
        requires qy * l == cy * 65536 + dy;
    assert(qz * qz * (l * l) == (cz * 65536) * (cz * 65536) + 2 * (cz * 65536) * dz + dz * dz)
        by (nonlinear_arith)
        requires qz * l == cz * 65536 + dz;
    assert(abs_i(2 * (cx * 65536) * dx + dx * dx) <= 131073 * (l * l)) by (nonlinear_arith)
        requires abs_i(cx) <= l, abs_i(dx) <= l, l >= 1;
    assert(abs_i(2 * (cy * 65536) * dy + dy * dy) <= 131073 * (l * l)) by (nonlinear_arith)
        requires abs_i(cy) <= l, abs_i(dy) <= l, l >= 1;
    assert(abs_i(2 * (cz * 65536) * dz + dz * dz) <= 131073 * (l * l)) by (nonlinear_arith)
        requires abs_i(cz) <= l, abs_i(dz) <= l, l >= 1;
    assert((cx * 65536) * (cx * 65536) + (cy * 65536) * (cy * 65536) + (cz * 65536) * (cz
        * 65536) == 4294967296 * n) by (nonlinear_arith)
        requires n == cx * cx + cy * cy + cz * cz;
    assert(l * l * s2 == qx * qx * (l * l) + qy * qy * (l * l) + qz * qz * (l * l))
        by (nonlinear_arith)
        requires s2 == qx * qx + qy * qy + qz * qz;
    assert(l * l * s2 >= 4294967296 * n - 393219 * (l * l));
    assert(l * l * s2 <= 4294967296 * n + 393219 * (l * l));
    assert((l + 1) * (l + 1) == l * l + 2 * l + 1) by (nonlinear_arith);
    assert(l * l <= n && n <= l * l + 2 * l);
    assert(4294967296 * n >= 4294967296 * (l * l)) by (nonlinear_arith)
        requires n >= l * l;
    assert(4294967296 * n <= 4294967296 * (l * l) + 8589934592 * l) by (nonlinear_arith)
        requires n <= l * l + 2 * l;
    assert(8589934592 * l <= 524288 * (l * l)) by (nonlinear_arith)
        requires l >= 16384;
    assert(l * l * s2 >= (l * l) * 4294574077) by (nonlinear_arith)
        requires l * l * s2 >= 4294967296 * (l * l) - 393219 * (l * l);
    assert(l * l * s2 <= (l * l) * 4295884803) by (nonlinear_arith)
        requires l * l * s2 <= 4294967296 * (l * l) + 524288 * (l * l) + 393219 * (l * l);
    assert(4294574077 <= s2 <= 4295884803) by (nonlinear_arith)
        requires
            (l * l) * 4294574077 <= l * l * s2 <= (l * l) * 4295884803,
            l >= 1,
    ;
    crate::fx::lemma_sqrt_exists(s2);
    let m = sqrt_i(s2);
    assert(65532int * 65532 == 4294443024);
    lemma_sqrt_le(s2, m, 65532);
    if m >= 65543 {
        assert(false) by (nonlinear_arith)
            requires m >= 65543, m * m <= s2, s2 <= 4295884803int;
    }
}

/// Squared length and length as a capability of vector-like values.
pub trait V3Length {
    /// The component bound under which the lengths cannot overflow.
    spec fn len_in_range(&self) -> bool;

    /// The squared length, as a fixed-point scalar.
    fn length_squared(&self) -> (r: i64)
        requires
            self.len_in_range(),
    ;

    /// The length, as a fixed-point scalar.
    fn length(&self) -> (r: i64)
        requires
            self.len_in_range(),
        ensures
            r >= 0,
    ;
}

impl V3Length for V3 {
    open spec fn len_in_range(&self) -> bool {
        bounded(*self, DOT_MAX as int)
    }

    fn length_squared(&self) -> (r: i64) {
        V3::length_squared(self)
    }

    fn length(&self) -> (r: i64) {
        V3::length(self)
    }
}

} // verus!
