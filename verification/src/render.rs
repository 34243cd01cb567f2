use vstd::prelude::*;
use vstd::arithmetic::div_mod::{
    lemma_div_is_ordered, lemma_div_pos_is_pos, lemma_div_multiples_vanish,
};
use crate::camera::{Camera, cam_wf, get_ray_s};
use crate::color::Color;
use crate::fx::{lemma_mul_fx_unit, lemma_div_t_abs, fmul, idiv};
use crate::geometry::{
    Ray, V3, Sphere, v3i, ray_wf, ray_in_bounds, near_zero, unit, unit_s, is_zero, rand_in,
    len_s, bounded,
};
use crate::fx::{div_t, mul_fx};
use crate::hittable::{HittableList, list_hit_from, world_wf};
use crate::image::{Image, image_wf, px};
use crate::material::{color_wf, scatter_rel};

verus! {

/// The shadow-acne cutoff: intersections nearer than this along the ray
/// are ignored, so a scattered ray cannot re-hit its own origin.
pub const T_EPS: i64 = 66;

/// The stand-in for an unbounded search window.
pub const T_INF: i64 = 1099511627776;

/// The background: white at the horizon blended toward sky blue with the
/// upward component of the unit direction.
pub open spec fn sky_s(ray: Ray) -> Color {
    let ud = unit_s(ray.dir);
    let t = div_t(ud.y + 65536, 2);
    Color(
        v3i(
            65536 - t + mul_fx(t, 32768),
            65536 - t + mul_fx(t, 45875),
            65536 - t + mul_fx(t, 65536),
        ),
    )
}

/// The colors one trace can yield: black past the bounce budget or on a
/// degenerate direction; the exact sky gradient on a miss; on a hit,
/// black (absorption, or a scattered ray that left the numeric envelope)
/// or the attenuation of some scattering outcome of the hit material,
/// channel-multiplied into a possible color of the scattered ray.
pub open spec fn possible_color(ray: Ray, world: Seq<Sphere>, depth: int, c: Color) -> bool
    decreases (if depth >= 0 { depth } else { 0int }),
{
    if depth <= 0 {
        c == (Color(V3 { x: 0, y: 0, z: 0 }))
    } else if is_zero(ray.dir) {
        c == (Color(V3 { x: 0, y: 0, z: 0 }))
    } else {
        match list_hit_from(world, ray, T_EPS as int, T_INF as int) {
            None => c == sky_s(ray),
            Some(h) => c == (Color(V3 { x: 0, y: 0, z: 0 })) || exists|
                att: Color,
                sray: Ray,
                rc: Color,
            |
                #![auto]
                {
                    &&& scatter_rel(h.material, ray, h, att, sray)
                    &&& ray_wf(sray)
                    &&& possible_color(sray, world, depth - 1, rc)
                    &&& c == (Color(
                        v3i(
                            mul_fx(att.0.x as int, rc.0.x as int),
                            mul_fx(att.0.y as int, rc.0.y as int),
                            mul_fx(att.0.z as int, rc.0.z as int),
                        ),
                    ))
                },
        }
    }
}

/// The radiance a ray gathers: black past the bounce budget, the
/// sky gradient on a miss, and attenuated recursion on a hit. The result
/// always stays within the unit color cube (no scattering step amplifies
/// radiance beyond the background bound) and is a possible trace outcome.
pub fn ray_color(ray: &Ray, world: &HittableList, depth: i32) -> (c: Color)
    requires
        world_wf(world.list@),
        ray_wf(*ray),
    ensures
        color_wf(c),
        depth <= 0 ==> c.0.x == 0 && c.0.y == 0 && c.0.z == 0,
        depth > 0 && !is_zero(ray.dir) && list_hit_from(
            world.list@,
            *ray,
            T_EPS as int,
            T_INF as int,
        ) is None ==> c == sky_s(*ray),
        possible_color(*ray, world.list@, depth as int, c),
    decreases (if depth >= 0 { depth as int } else { 0int }),
{
    if depth <= 0 {
        return Color::black();
    }
    if near_zero(&ray.direction()) {
        // A degenerate direction cannot be traced nor shaded; it gathers
        // nothing.
        return Color::black();
    }
    match world.hit(ray, T_EPS, T_INF) {
        Some(rec) => {
            match rec.material.scatter(ray, &rec) {
                None => Color::black(),
                Some((att, sc_ray)) => {
                    if !ray_in_bounds(&sc_ray) {
                        // A scattered ray outside the numeric envelope is
                        // dropped rather than traced with wrapped values.
                        return Color::black();
                    }
                    let rc = ray_color(&sc_ray, world, depth - 1);
                    proof {
                        lemma_mul_fx_unit(att.0.x as int, rc.0.x as int);
                        lemma_mul_fx_unit(att.0.y as int, rc.0.y as int);
                        lemma_mul_fx_unit(att.0.z as int, rc.0.z as int);
                    }
                    let c = att.mul(rc);
                    proof {
                        assert(c == (Color(
                            v3i(
                                mul_fx(att.0.x as int, rc.0.x as int),
                                mul_fx(att.0.y as int, rc.0.y as int),
                                mul_fx(att.0.z as int, rc.0.z as int),
                            ),
                        )));
                        assert(possible_color(*ray, world.list@, depth as int, c));
                    }
                    c
                },
            }
        },
        None => {
            let ud = unit(&ray.direction());
            proof {
                lemma_div_t_abs(ud.y as int + 65536, 2);
                lemma_div_is_ordered(ud.y as int + 65536, 131072, 2);
                lemma_div_pos_is_pos(ud.y as int + 65536, 2);
            }
            let t = idiv(ud.y + 65536, 2);
            proof {
                lemma_mul_fx_unit(t as int, 32768);
                lemma_mul_fx_unit(t as int, 45875);
                lemma_mul_fx_unit(t as int, 65536);
            }
            Color(
                V3 {
                    x: 65536 - t + fmul(t, 32768),
                    y: 65536 - t + fmul(t, 45875),
                    z: 65536 - t + fmul(t, 65536),
                },
            )
        },
    }
}

/// One jittered normalized coordinate: (k + draw) / (n - 1), within [0, 2].
fn jitter(k: usize, n: usize) -> (r: i64)
    requires
        2 <= n <= 65536,
        k < n,
    ensures
        0 <= r <= 131072,
        exists|d: int|
            0 <= d < 65536 && r as int == #[trigger] div_t(
                (k as int) * 65536 + d,
                (n as int) - 1,
            ),
{
    let d = rand_in(0, 65536);
    let num: i64 = (k as i64) * 65536 + d;
    proof {
        assert(0 <= (k as int) * 65536 <= 65535int * 65536) by (nonlinear_arith)
            requires 0 <= (k as int) <= 65535;
        lemma_div_t_abs(num as int, n as int - 1);
        assert(num as int <= (n as int - 1) * 131072) by (nonlinear_arith)
            requires
                num as int <= (k as int) * 65536 + 65536,
                k as int <= n as int - 1,
                n >= 2,
        ;
        lemma_div_is_ordered(num as int, (n as int - 1) * 131072, n as int - 1);
        lemma_div_multiples_vanish(131072, n as int - 1);
        lemma_div_pos_is_pos(num as int, n as int - 1);
    }
    idiv(num, (n as i64) - 1)
}

/// One admissible sample for pixel (i, j): fresh jitter and lens draws,
/// and a possible color of the camera ray they produce.
pub open spec fn pixel_sample_ok(
    cam: Camera,
    world: Seq<Sphere>,
    i: int,
    j: int,
    w: int,
    h: int,
    depth: int,
    du: int,
    dv: int,
    rd: V3,
    c: Color,
) -> bool {
    &&& 0 <= du < 65536
    &&& 0 <= dv < 65536
    &&& rd.z == 0 && bounded(rd, 65536int) && len_s(rd) <= 65536
    &&& possible_color(
        get_ray_s(cam, div_t(i * 65536 + du, w - 1), div_t(j * 65536 + dv, h - 1), rd),
        world,
        depth,
        c,
    )
}

/// The channel sums one pixel can accumulate over `k` samples: each
/// sample traces a camera ray built from fresh jitter and lens draws, and
/// contributes a possible color of that ray.
pub open spec fn possible_pixel_sum(
    cam: Camera,
    world: Seq<Sphere>,
    i: int,
    j: int,
    w: int,
    h: int,
    depth: int,
    k: int,
    s: (int, int, int),
) -> bool
    decreases k,
{
    if k <= 0 {
        s == (0int, 0int, 0int)
    } else {
        exists|du: int, dv: int, rd: V3, c: Color|
            #![trigger pixel_sample_ok(cam, world, i, j, w, h, depth, du, dv, rd, c)]
            {
                &&& pixel_sample_ok(cam, world, i, j, w, h, depth, du, dv, rd, c)
                &&& possible_pixel_sum(
                    cam,
                    world,
                    i,
                    j,
                    w,
                    h,
                    depth,
                    k - 1,
                    (s.0 - c.0.x, s.1 - c.0.y, s.2 - c.0.z),
                )
            }
    }
}

/// What a rendered pixel holds: the truncating mean over the sample
/// budget of possible traced colors.
pub open spec fn rendered_px(
    cam: Camera,
    world: Seq<Sphere>,
    i: int,
    j: int,
    w: int,
    h: int,
    depth: int,
    samples: int,
    p: (int, int, int),
) -> bool {
    exists|s: (int, int, int)| #![auto]
        possible_pixel_sum(cam, world, i, j, w, h, depth, samples, s) && p == (
            div_t(s.0, samples),
            div_t(s.1, samples),
            div_t(s.2, samples),
        )
}

/// The mean traced color of one pixel over the sample budget.
fn sample_pixel(
    camera: &Camera,
    world: &HittableList,
    i: usize,
    j: usize,
    width: usize,
    height: usize,
    samples: u32,
    max_depth: i32,
) -> (c: Color)
    requires
        cam_wf(*camera),
        world_wf(world.list@),
        2 <= width <= 65536,
        2 <= height <= 65536,
        i < width,
        j < height,
        1 <= samples <= 65536,
    ensures
        0 <= c.0.x <= 65536 && 0 <= c.0.y <= 65536 && 0 <= c.0.z <= 65536,
        rendered_px(
            *camera,
            world.list@,
            i as int,
            j as int,
            width as int,
            height as int,
            max_depth as int,
            samples as int,
            (c.0.x as int, c.0.y as int, c.0.z as int),
        ),
{
    let mut sx: i64 = 0;
    let mut sy: i64 = 0;
    let mut sz: i64 = 0;
    let mut k: u32 = 0;
    while k < samples
        invariant
            cam_wf(*camera),
            world_wf(world.list@),
            2 <= width <= 65536,
            2 <= height <= 65536,
            i < width,
            j < height,
            1 <= samples <= 65536,
            0 <= k <= samples,
            0 <= sx <= (k as int) * 65536,
            0 <= sy <= (k as int) * 65536,
            0 <= sz <= (k as int) * 65536,
            possible_pixel_sum(
                *camera,
                world.list@,
                i as int,
                j as int,
                width as int,
                height as int,
                max_depth as int,
                k as int,
                (sx as int, sy as int, sz as int),
            ),
        decreases samples - k,
    {
        let u = jitter(i, width);
        let v = jitter(j, height);
        let ray = camera.get_ray(u, v);
        let col = ray_color(&ray, world, max_depth);
        proof {
            assert((k as int) * 65536 + 65536 == (k as int + 1) * 65536) by (nonlinear_arith);
            let du = choose|d: int|
                0 <= d < 65536 && u as int == #[trigger] div_t(
                    (i as int) * 65536 + d,
                    (width as int) - 1,
                );
            let dv = choose|d: int|
                0 <= d < 65536 && v as int == #[trigger] div_t(
                    (j as int) * 65536 + d,
                    (height as int) - 1,
                );
            let rdw = choose|rd: V3|
                rd.z == 0 && #[trigger] bounded(rd, 65536int) && len_s(rd) <= 65536 && ray
                    == get_ray_s(*camera, u as int, v as int, rd);
            assert(ray == get_ray_s(
                *camera,
                div_t((i as int) * 65536 + du, (width as int) - 1),
                div_t((j as int) * 65536 + dv, (height as int) - 1),
                rdw,
            ));
            assert(possible_color(
                get_ray_s(
                    *camera,
                    div_t((i as int) * 65536 + du, (width as int) - 1),
                    div_t((j as int) * 65536 + dv, (height as int) - 1),
                    rdw,
                ),
                world.list@,
                max_depth as int,
                col,
            ));
            assert(pixel_sample_ok(
                *camera,
                world.list@,
                i as int,
                j as int,
                width as int,
                height as int,
                max_depth as int,
                du,
                dv,
                rdw,
                col,
            ));
            let prev = (sx as int, sy as int, sz as int);
            assert(possible_pixel_sum(
                *camera,
                world.list@,
                i as int,
                j as int,
                width as int,
                height as int,
                max_depth as int,
                k as int + 1,
                (prev.0 + col.0.x, prev.1 + col.0.y, prev.2 + col.0.z),
            ));
        }
        sx = sx + col.0.x;
        sy = sy + col.0.y;
        sz = sz + col.0.z;
        k = k + 1;
    }
    let n = samples as i64;
    proof {
        lemma_div_t_abs(sx as int, n as int);
        lemma_div_t_abs(sy as int, n as int);
        lemma_div_t_abs(sz as int, n as int);
        lemma_div_is_ordered(sx as int, (n as int) * 65536, n as int);
        lemma_div_is_ordered(sy as int, (n as int) * 65536, n as int);
        lemma_div_is_ordered(sz as int, (n as int) * 65536, n as int);
        lemma_div_multiples_vanish(65536, n as int);
        lemma_div_pos_is_pos(sx as int, n as int);
        lemma_div_pos_is_pos(sy as int, n as int);
        lemma_div_pos_is_pos(sz as int, n as int);
        assert((n as int) * 65536 == 65536 * (n as int)) by (nonlinear_arith);
    }
    Color(V3 { x: idiv(sx, n), y: idiv(sy, n), z: idiv(sz, n) })
}

/// Renders the scene: every pixel holds the truncating mean of `samples`
/// jittered traced colors, and every stored channel lies within the unit
/// interval.
pub fn render(
    camera: &Camera,
    world: &HittableList,
    width: usize,
    height: usize,
    samples: u32,
    max_depth: i32,
) -> (img: Image)
    requires
        cam_wf(*camera),
        world_wf(world.list@),
        2 <= width <= 65536,
        2 <= height <= 65536,
        1 <= samples <= 65536,
    ensures
        image_wf(img, width as int, height as int),
        forall|i: int, j: int|
            0 <= i < width && 0 <= j < height ==> {
                let c = #[trigger] px(img, i, j);
                0 <= c.0 <= 65536 && 0 <= c.1 <= 65536 && 0 <= c.2 <= 65536
            },
        forall|i: int, j: int|
            0 <= i < width && 0 <= j < height ==> rendered_px(
                *camera,
                world.list@,
                i,
                j,
                width as int,
                height as int,
                max_depth as int,
                samples as int,
                #[trigger] px(img, i, j),
            ),
{
    let mut image = Image::new(width, height);
    let mut j: usize = 0;
    while j < height
        invariant
            cam_wf(*camera),
            world_wf(world.list@),
            2 <= width <= 65536,
            2 <= height <= 65536,
            1 <= samples <= 65536,
            0 <= j <= height,
            image_wf(image, width as int, height as int),
            forall|i2: int, j2: int|
                0 <= i2 < width && 0 <= j2 < height ==> {
                    let c = #[trigger] px(image, i2, j2);
                    0 <= c.0 <= 65536 && 0 <= c.1 <= 65536 && 0 <= c.2 <= 65536
                },
            forall|i2: int, j2: int|
                0 <= i2 < width && 0 <= j2 < j ==> rendered_px(
                    *camera,
                    world.list@,
                    i2,
                    j2,
                    width as int,
                    height as int,
                    max_depth as int,
                    samples as int,
                    #[trigger] px(image, i2, j2),
                ),
        decreases height - j,
    {
        let mut i: usize = 0;
        while i < width
            invariant
                cam_wf(*camera),
                world_wf(world.list@),
                2 <= width <= 65536,
                2 <= height <= 65536,
                1 <= samples <= 65536,
                0 <= j < height,
                0 <= i <= width,
                image_wf(image, width as int, height as int),
                forall|i2: int, j2: int|
                    0 <= i2 < width && 0 <= j2 < height ==> {
                        let c = #[trigger] px(image, i2, j2);
                        0 <= c.0 <= 65536 && 0 <= c.1 <= 65536 && 0 <= c.2 <= 65536
                    },
                forall|i2: int, j2: int|
                    0 <= i2 < width && 0 <= j2 < j ==> rendered_px(
                        *camera,
                        world.list@,
                        i2,
                        j2,
                        width as int,
                        height as int,
                        max_depth as int,
                        samples as int,
                        #[trigger] px(image, i2, j2),
                    ),
                forall|i2: int|
                    0 <= i2 < i ==> rendered_px(
                        *camera,
                        world.list@,
                        i2,
                        j as int,
                        width as int,
                        height as int,
                        max_depth as int,
                        samples as int,
                        #[trigger] px(image, i2, j as int),
                    ),
            decreases width - i,
        {
            let c = sample_pixel(camera, world, i, j, width, height, samples, max_depth);
            image.set_px(i, j, c);
            i = i + 1;
        }
        j = j + 1;
    }
    image
}

} // verus!
