use pathtracer::camera::Camera;
use pathtracer::color::Color;
use pathtracer::geometry::{v3, Ray, Sphere};
use pathtracer::hittable::HittableList;
use pathtracer::image::{merge_samples, Image};
use pathtracer::material::{Dielectric, Lambertian, Material, Metal};
use pathtracer::render::{ray_color, render};
use pathtracer::geometry::{reflect, refract, unit};

const ONE: i64 = 65536;

fn demo_world() -> HittableList {
    let mut world = HittableList::new();
    world.add(Sphere {
        center: v3(0, -1000 * ONE, 0),
        radius: 1000 * ONE,
        material: Material::Lambertian(Lambertian { albedo: Color(v3(ONE / 2, ONE / 2, ONE / 2)) }),
    });
    world.add(Sphere {
        center: v3(0, ONE, 0),
        radius: ONE,
        material: Material::Metal(Metal { albedo: Color(v3(45875, 39321, 32768)), fuzz: 0 }),
    });
    world.add(Sphere {
        center: v3(-2 * ONE, ONE, 0),
        radius: ONE,
        material: Material::Dielectric(Dielectric { ir: 98304 }),
    });
    world
}

fn demo_camera() -> Camera {
    Camera::new(
        v3(13 * ONE, 2 * ONE, 3 * ONE),
        v3(0, 0, 0),
        v3(0, ONE, 0),
        40 * ONE,
        116508, // 16:9
        6554,   // aperture 0.1
        13 * ONE,
    )
}

#[test]
fn ray_color_depth_zero_is_black() {
    let world = demo_world();
    let ray = Ray { orig: v3(0, 0, 0), dir: v3(ONE, 0, 0) };
    let c = ray_color(&ray, &world, 0);
    assert_eq!(c.0, v3(0, 0, 0));
    let c2 = ray_color(&ray, &world, -3);
    assert_eq!(c2.0, v3(0, 0, 0));
}

#[test]
fn ray_color_miss_is_exact_sky_gradient() {
    let world = HittableList::new();
    let up = Ray { orig: v3(0, 0, 0), dir: v3(0, ONE, 0) };
    assert_eq!(ray_color(&up, &world, 5).0, v3(32768, 45875, ONE));
    let down = Ray { orig: v3(0, 0, 0), dir: v3(0, -ONE, 0) };
    assert_eq!(ray_color(&down, &world, 5).0, v3(ONE, ONE, ONE));
}

#[test]
fn ray_color_never_exceeds_unit_energy() {
    let world = demo_world();
    for depth in [1, 2, 8] {
        for _ in 0..50 {
            let ray = Ray {
                orig: v3(0, 3 * ONE, 8 * ONE),
                dir: v3(
                    pathtracer::geometry::rand_in(-ONE, ONE),
                    pathtracer::geometry::rand_in(-ONE, ONE),
                    -ONE,
                ),
            };
            let c = ray_color(&ray, &world, depth);
            assert!(0 <= c.0.x && c.0.x <= ONE);
            assert!(0 <= c.0.y && c.0.y <= ONE);
            assert!(0 <= c.0.z && c.0.z <= ONE);
        }
    }
}

#[test]
fn render_fills_buffer_within_unit_range() {
    let world = demo_world();
    let camera = demo_camera();
    let img = render(&camera, &world, 4, 3, 2, 4);
    assert_eq!(img.width(), 4);
    assert_eq!(img.height(), 3);
    for i in 0..4 {
        for j in 0..3 {
            let c = img.get_px(i, j);
            assert!(0 <= c.0.x && c.0.x <= ONE);
            assert!(0 <= c.0.y && c.0.y <= ONE);
            assert!(0 <= c.0.z && c.0.z <= ONE);
        }
    }
}

#[test]
fn sampling_variance_decreases_with_budget() {
    let world = demo_world();
    let camera = demo_camera();
    let reps = 12;

    let spread = |samples: u32| -> f64 {
        let mut vals = Vec::new();
        for _ in 0..reps {
            let img = render(&camera, &world, 2, 2, samples, 6);
            vals.push(img.get_px(0, 0).0.x as f64 / 65536.0);
        }
        let mean: f64 = vals.iter().sum::<f64>() / reps as f64;
        vals.iter().map(|v| (v - mean) * (v - mean)).sum::<f64>() / reps as f64
    };

    let var_small = spread(1);
    let var_large = spread(256);
    // A 256-fold sample budget shrinks the estimator variance by orders of
    // magnitude; allow generous statistical slack.
    assert!(var_large <= var_small * 0.5 + 1e-6);
}

#[test]
fn merge_two_images_is_exact_mean() {
    let mut a = Image::new(2, 2);
    let mut b = Image::new(2, 2);
    a.set_px(0, 0, Color(v3(100, 200, 300)));
    b.set_px(0, 0, Color(v3(300, 200, 101)));
    a.set_px(1, 1, Color(v3(7, 9, 11)));
    b.set_px(1, 1, Color(v3(3, 1, 2)));
    let merged = merge_samples(vec![a, b]);
    assert_eq!(merged.get_px(0, 0).0, v3(200, 200, 200));
    assert_eq!(merged.get_px(1, 1).0, v3(5, 5, 6));
    assert_eq!(merged.get_px(0, 1).0, v3(0, 0, 0));
    assert_eq!(merged.width(), 2);
    assert_eq!(merged.height(), 2);
}

#[test]
fn merge_single_image_is_identity() {
    let mut a = Image::new(2, 3);
    a.set_px(1, 2, Color(v3(123, 456, 789)));
    let merged = merge_samples(vec![a]);
    assert_eq!(merged.get_px(1, 2).0, v3(123, 456, 789));
    assert_eq!(merged.get_px(0, 0).0, v3(0, 0, 0));
}

#[test]
fn ppm_rows_come_out_top_row_first() {
    let mut img = Image::new(2, 2);
    let c00 = Color(v3(4096, 0, 0));
    let c10 = Color(v3(0, 4096, 0));
    let c01 = Color(v3(0, 0, 4096));
    let c11 = Color(v3(4096, 4096, 0));
    img.set_px(0, 0, c00);
    img.set_px(1, 0, c10);
    img.set_px(0, 1, c01);
    img.set_px(1, 1, c11);
    let rows = img.to_ppm_list();
    assert_eq!(rows.len(), 4);
    // Buffer row 1 (the top of the picture) leads; buffer row 0 ends.
    assert_eq!(rows[0], c01.ppm());
    assert_eq!(rows[1], c11.ppm());
    assert_eq!(rows[2], c00.ppm());
    assert_eq!(rows[3], c10.ppm());
    // The four colors are distinct, so the order is really exercised.
    assert!(rows[0] != rows[2] && rows[0] != rows[3] && rows[2] != rows[1]);
}

#[test]
fn camera_rays_stay_in_envelope() {
    let camera = demo_camera();
    for _ in 0..50 {
        let r = camera.get_ray(
            pathtracer::geometry::rand_in(0, ONE),
            pathtracer::geometry::rand_in(0, ONE),
        );
        assert!(r.orig.x.abs() <= 1 << 36);
        assert!(r.dir.x.abs() <= 1 << 30 && r.dir.y.abs() <= 1 << 30 && r.dir.z.abs() <= 1 << 30);
    }
}

#[test]
fn scatter_respects_material_contract() {
    let world = demo_world();
    let ray = Ray { orig: v3(0, ONE, 8 * ONE), dir: v3(0, 0, -ONE) };
    let rec = world.hit(&ray, 66, 1 << 40).expect("hit expected");
    for _ in 0..20 {
        if let Some((att, scattered)) = rec.material.scatter(&ray, &rec) {
            assert!(0 <= att.0.x && att.0.x <= ONE);
            assert!(0 <= att.0.y && att.0.y <= ONE);
            assert!(0 <= att.0.z && att.0.z <= ONE);
            assert_eq!(scattered.orig, rec.point);
        }
    }
}

#[test]
fn pinhole_camera_is_deterministic() {
    // With a zero aperture the lens sample is scaled away, so ray
    // generation has no random part left.
    let camera = Camera::new(
        v3(13 * ONE, 2 * ONE, 3 * ONE),
        v3(0, 0, 0),
        v3(0, ONE, 0),
        40 * ONE,
        116508,
        0,
        13 * ONE,
    );
    let a = camera.get_ray(ONE / 3, ONE / 4);
    let b = camera.get_ray(ONE / 3, ONE / 4);
    assert_eq!(a.orig, b.orig);
    assert_eq!(a.dir, b.dir);
}

#[test]
fn dielectric_scatters_to_reflection_or_refraction() {
    let glass = Dielectric { ir: 98304 };
    let sphere = Sphere {
        center: v3(0, 0, 0),
        radius: ONE,
        material: Material::Dielectric(glass),
    };
    let ray = Ray { orig: v3(-3 * ONE, ONE / 3, 0), dir: v3(ONE, 0, 0) };
    let mut world = HittableList::new();
    world.add(sphere);
    let rec = world.hit(&ray, 66, 1 << 40).expect("hit expected");

    let ud = unit(&ray.dir);
    let ratio: i64 = if rec.front_face {
        (65536i64 * 65536) / glass.ir
    } else {
        glass.ir
    };
    let reflected = reflect(&ud, &rec.normal);
    let refracted = refract(&ud, &rec.normal, ratio);

    for _ in 0..30 {
        let (att, scattered) = glass.scatter(&ray, &rec).expect("glass always scatters");
        assert_eq!(att.0, v3(ONE, ONE, ONE));
        assert_eq!(scattered.orig, rec.point);
        assert!(scattered.dir == reflected || scattered.dir == refracted);
    }
}

#[test]
fn metal_without_fuzz_is_a_perfect_mirror() {
    let mirror = Metal { albedo: Color(v3(ONE, ONE, ONE)), fuzz: 0 };
    let sphere = Sphere {
        center: v3(0, 0, 0),
        radius: ONE,
        material: Material::Metal(mirror),
    };
    let ray = Ray { orig: v3(0, 3 * ONE, 0), dir: v3(0, -ONE, 0) };
    let mut world = HittableList::new();
    world.add(sphere);
    let rec = world.hit(&ray, 66, 1 << 40).expect("hit expected");

    let expected = reflect(&unit(&ray.dir), &rec.normal);
    for _ in 0..10 {
        let (att, scattered) = mirror.scatter(&ray, &rec).expect("mirror facing the ray scatters");
        assert_eq!(att.0, v3(ONE, ONE, ONE));
        assert_eq!(scattered.dir, expected);
        assert_eq!(scattered.orig, rec.point);
    }
}
