use vstd::prelude::*;
use vstd::arithmetic::div_mod::lemma_div_is_ordered;
use crate::fx::{
    abs_i, div_t, mul_fx, fmul, idiv, lemma_div_t_abs, lemma_mul_fx_bound,
};
use crate::geometry::{
    V3, Point, Ray, add_s, sub_s, scale_s, cross_s, unit_s, bounded, is_zero, tan_s, unit,
    deg_to_rad, tan_fx, rand_in_unit_disk, ray_wf, len_s,
};

verus! {

/// The immutable viewing configuration: origin, orthonormal basis, viewport
/// frame scaled to the focus plane, and the thin-lens radius.
pub struct Camera {
    pub origin: Point,
    pub lower_left: Point,
    pub horizontal: V3,
    pub vertical: V3,
    pub u: V3,
    pub v: V3,
    pub w: V3,
    pub lens_radius: i64,
}

/// The camera's numeric envelope, established at construction and relied
/// on by ray generation.
pub open spec fn cam_wf(c: Camera) -> bool {
    &&& bounded(c.origin, 34359738368int)
    &&& bounded(c.u, 65536int)
    &&& bounded(c.v, 131072int)
    &&& bounded(c.w, 65536int)
    &&& bounded(c.horizontal, 134217728int)
    &&& bounded(c.vertical, 134217728int)
    &&& abs_i(c.lower_left.x - c.origin.x) <= 268435456
    &&& abs_i(c.lower_left.y - c.origin.y) <= 268435456
    &&& abs_i(c.lower_left.z - c.origin.z) <= 268435456
    &&& 0 <= c.lens_radius <= 1048576
}

/// The field-of-view angle in radians (spec mirror of the construction).
pub open spec fn cam_theta(vfov: int) -> int {
    div_t(vfov * 205887, 11796480)
}

/// Half the viewport height before focus scaling.
pub open spec fn cam_h(vfov: int) -> int {
    tan_s(div_t(cam_theta(vfov), 2))
}

/// The viewport width before focus scaling.
pub open spec fn cam_vp_w(vfov: int, aspect: int) -> int {
    mul_fx(aspect, 2 * cam_h(vfov))
}

/// The ray generated for normalized image coordinates (s, t) and a lens
/// sample rd (spec mirror of `get_ray`).
pub open spec fn get_ray_s(c: Camera, s: int, t: int, rd: V3) -> Ray {
    let rdl = scale_s(c.lens_radius as int, rd);
    let offset = add_s(scale_s(rdl.x as int, c.u), scale_s(rdl.y as int, c.v));
    Ray {
        orig: add_s(c.origin, offset),
        dir: sub_s(
            sub_s(
                add_s(add_s(c.lower_left, scale_s(s, c.horizontal)), scale_s(t, c.vertical)),
                c.origin,
            ),
            offset,
        ),
    }
}

impl Camera {
    /// Derives the orthonormal basis and viewport frame from the viewing
    /// parameters; vertical field of view in degrees.
    #[verifier::rlimit(100)]
    pub fn new(
        lookfrom: Point,
        lookat: Point,
        vup: V3,
        vfov: i64,
        aspect: i64,
        aperture: i64,
        focus_dist: i64,
    ) -> (r: Camera)
        requires
            bounded(lookfrom, 34359738368int),
            bounded(lookat, 34359738368int),
            bounded(vup, 34359738368int),
            0 < vfov <= 4456448,
            0 < aspect <= 262144,
            0 <= aperture <= 2097152,
            1 <= focus_dist <= 4194304,
            !is_zero(sub_s(lookfrom, lookat)),
            !is_zero(cross_s(vup, unit_s(sub_s(lookfrom, lookat)))),
        ensures
            cam_wf(r),
            r.origin == lookfrom,
            r.lens_radius as int == div_t(aperture as int, 2),
            r.w == unit_s(sub_s(lookfrom, lookat)),
            r.u == unit_s(cross_s(vup, r.w)),
            r.v == cross_s(r.w, r.u),
            r.horizontal == scale_s(
                mul_fx(focus_dist as int, cam_vp_w(vfov as int, aspect as int)),
                r.u,
            ),
            r.vertical == scale_s(
                mul_fx(focus_dist as int, 2 * cam_h(vfov as int)),
                r.v,
            ),
            r.lower_left == sub_s(
                sub_s(
                    sub_s(lookfrom, scale_s(32768, r.horizontal)),
                    scale_s(32768, r.vertical),
                ),
                scale_s(focus_dist as int, r.w),
            ),
    {
        let theta = deg_to_rad(vfov);
        proof {
            lemma_div_t_abs(vfov as int * 205887, 11796480);
            assert(abs_i(vfov as int * 205887) == abs_i(vfov as int) * 205887)
                by (nonlinear_arith);
            assert(abs_i(vfov as int) * 205887 <= 4456448int * 205887) by (nonlinear_arith)
                requires abs_i(vfov as int) <= 4456448;
            lemma_div_is_ordered(abs_i(vfov as int) * 205887, 4456448int * 205887, 11796480);
            lemma_div_t_abs(theta as int, 2);
            lemma_div_is_ordered(abs_i(theta as int), 77779, 2);
        }
        let half_theta = idiv(theta, 2);
        let h = tan_fx(half_theta);
        let vp_height = 2 * h;
        proof {
            lemma_mul_fx_bound(aspect as int, vp_height as int, 262144int, 131072int);
        }
        let vp_width = fmul(aspect, vp_height);
        let w = unit(&lookfrom.sub(lookat));
        let cr = vup.cross(w);
        proof {
            lemma_mul_fx_bound(vup.y as int, w.z as int, 34359738368int, 65536int);
            lemma_mul_fx_bound(vup.z as int, w.y as int, 34359738368int, 65536int);
            lemma_mul_fx_bound(vup.z as int, w.x as int, 34359738368int, 65536int);
            lemma_mul_fx_bound(vup.x as int, w.z as int, 34359738368int, 65536int);
            lemma_mul_fx_bound(vup.x as int, w.y as int, 34359738368int, 65536int);
            lemma_mul_fx_bound(vup.y as int, w.x as int, 34359738368int, 65536int);
        }
        let u = unit(&cr);
        let v = w.cross(u);
        proof {
            lemma_mul_fx_bound(w.y as int, u.z as int, 65536int, 65536int);
            lemma_mul_fx_bound(w.z as int, u.y as int, 65536int, 65536int);
            lemma_mul_fx_bound(w.z as int, u.x as int, 65536int, 65536int);
            lemma_mul_fx_bound(w.x as int, u.z as int, 65536int, 65536int);
            lemma_mul_fx_bound(w.x as int, u.y as int, 65536int, 65536int);
            lemma_mul_fx_bound(w.y as int, u.x as int, 65536int, 65536int);
        }
        let origin = lookfrom;
        proof {
            lemma_mul_fx_bound(focus_dist as int, vp_width as int, 4194304int, 524288int);
            lemma_mul_fx_bound(focus_dist as int, vp_height as int, 4194304int, 131072int);
        }
        let kh = fmul(focus_dist, vp_width);
        let kv = fmul(focus_dist, vp_height);
        proof {
            lemma_mul_fx_bound(kh as int, u.x as int, 33554432int, 65536int);
            lemma_mul_fx_bound(kh as int, u.y as int, 33554432int, 65536int);
            lemma_mul_fx_bound(kh as int, u.z as int, 33554432int, 65536int);
            lemma_mul_fx_bound(kv as int, v.x as int, 8388608int, 131072int);
            lemma_mul_fx_bound(kv as int, v.y as int, 8388608int, 131072int);
            lemma_mul_fx_bound(kv as int, v.z as int, 8388608int, 131072int);
        }
        let horizontal = u.scale(kh);
        let vertical = v.scale(kv);
        proof {
            lemma_mul_fx_bound(32768int, horizontal.x as int, 32768int, 33554432int);
            lemma_mul_fx_bound(32768int, horizontal.y as int, 32768int, 33554432int);
            lemma_mul_fx_bound(32768int, horizontal.z as int, 32768int, 33554432int);
            lemma_mul_fx_bound(32768int, vertical.x as int, 32768int, 16777216int);
            lemma_mul_fx_bound(32768int, vertical.y as int, 32768int, 16777216int);
            lemma_mul_fx_bound(32768int, vertical.z as int, 32768int, 16777216int);
            lemma_mul_fx_bound(focus_dist as int, w.x as int, 4194304int, 65536int);
            lemma_mul_fx_bound(focus_dist as int, w.y as int, 4194304int, 65536int);
            lemma_mul_fx_bound(focus_dist as int, w.z as int, 4194304int, 65536int);
        }
        let half_h = horizontal.scale(32768);
        let half_v = vertical.scale(32768);
        let fw = w.scale(focus_dist);
        let lower_left = origin.sub(half_h).sub(half_v).sub(fw);
        proof {
            lemma_div_t_abs(aperture as int, 2);
            lemma_div_is_ordered(abs_i(aperture as int), 2097152, 2);
            vstd::arithmetic::div_mod::lemma_div_pos_is_pos(aperture as int, 2);
        }
        let lens_radius = idiv(aperture, 2);
        Camera { origin, lower_left, horizontal, vertical, u, v, w, lens_radius }
    }

    /// A ray from a thin-lens sample through the viewport point (s, t);
    /// the depth-of-field blur grows with the aperture.
    #[verifier::rlimit(50)]
    pub fn get_ray(&self, s: i64, t: i64) -> (r: Ray)
        requires
            cam_wf(*self),
            0 <= s <= 131072,
            0 <= t <= 131072,
        ensures
            ray_wf(r),
            exists|rd: V3|
                rd.z == 0 && #[trigger] bounded(rd, 65536int) && len_s(rd) <= 65536 && r
                    == get_ray_s(*self, s as int, t as int, rd),
    {
        let rd = rand_in_unit_disk();
        proof {
            lemma_mul_fx_bound(self.lens_radius as int, rd.x as int, 1048576int, 65536int);
            lemma_mul_fx_bound(self.lens_radius as int, rd.y as int, 1048576int, 65536int);
            lemma_mul_fx_bound(self.lens_radius as int, rd.z as int, 1048576int, 65536int);
        }
        let rdl = rd.scale(self.lens_radius);
        proof {
            lemma_mul_fx_bound(rdl.x as int, self.u.x as int, 1048576int, 65536int);
            lemma_mul_fx_bound(rdl.x as int, self.u.y as int, 1048576int, 65536int);
            lemma_mul_fx_bound(rdl.x as int, self.u.z as int, 1048576int, 65536int);
            lemma_mul_fx_bound(rdl.y as int, self.v.x as int, 1048576int, 131072int);
            lemma_mul_fx_bound(rdl.y as int, self.v.y as int, 1048576int, 131072int);
            lemma_mul_fx_bound(rdl.y as int, self.v.z as int, 1048576int, 131072int);
        }
        let offset = self.u.scale(rdl.x).add(self.v.scale(rdl.y));
        proof {
            lemma_mul_fx_bound(s as int, self.horizontal.x as int, 131072int, 134217728int);
            lemma_mul_fx_bound(s as int, self.horizontal.y as int, 131072int, 134217728int);
            lemma_mul_fx_bound(s as int, self.horizontal.z as int, 131072int, 134217728int);
            lemma_mul_fx_bound(t as int, self.vertical.x as int, 131072int, 134217728int);
            lemma_mul_fx_bound(t as int, self.vertical.y as int, 131072int, 134217728int);
            lemma_mul_fx_bound(t as int, self.vertical.z as int, 131072int, 134217728int);
        }
        let sh = self.horizontal.scale(s);
        let tv = self.vertical.scale(t);
        let orig = self.origin.add(offset);
        let dir = self.lower_left.add(sh).add(tv).sub(self.origin).sub(offset);
        let r = Ray { orig, dir };
        proof {
            assert(rd.z == 0 && bounded(rd, 65536int) && len_s(rd) <= 65536 && r == get_ray_s(
                *self,
                s as int,
                t as int,
                rd,
            ));
        }
        r
    }
}

} // verus!
