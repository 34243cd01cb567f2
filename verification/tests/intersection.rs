use pathtracer::color::Color;
use pathtracer::geometry::{v3, Ray, Sphere, V3};
use pathtracer::material::{Material, Metal};

const ONE: i64 = 65536;

fn metal_sphere(center: V3, radius: i64) -> Sphere {
    let mat = Metal { albedo: Color(v3(ONE, ONE, ONE)), fuzz: 6554 };
    Sphere { center, radius, material: Material::Metal(mat) }
}

fn dist(a: V3, b: V3) -> f64 {
    let dx = (a.x - b.x) as f64 / 65536.0;
    let dy = (a.y - b.y) as f64 / 65536.0;
    let dz = (a.z - b.z) as f64 / 65536.0;
    (dx * dx + dy * dy + dz * dz).sqrt()
}

#[test]
fn test_hit_sphere() {
    let sphere = metal_sphere(v3(0, 0, 0), ONE);
    let ray = Ray { orig: v3(-2 * ONE, 0, 0), dir: v3(ONE, 0, 0) };

    let res = sphere.hit(&ray, 0, 100 * ONE);

    match res {
        Some(rec) => assert_eq!(dist(rec.point, v3(-ONE, 0, 0)) < 0.01, true),
        None => panic!("Expected a hit to be recorded"),
    }
}

#[test]
fn test_hit_sphere_no_intersection() {
    let sphere = metal_sphere(v3(0, 0, 0), ONE);
    let ray = Ray { orig: v3(-2 * ONE, 0, 0), dir: v3(0, ONE, 0) };

    let res = sphere.hit(&ray, 0, 100 * ONE);

    match res {
        Some(_) => panic!("No hit should be detected"),
        None => (),
    }
}

#[test]
fn test_hit_sphere_ray_starts_inside() {
    let sphere = metal_sphere(v3(0, 0, 0), ONE);
    let ray = Ray { orig: v3(0, 0, 0), dir: v3(ONE, 0, 0) };

    let res = sphere.hit(&ray, 0, 100 * ONE);

    match res {
        Some(rec) => assert_eq!(dist(rec.point, v3(ONE, 0, 0)) < 0.01, true),
        None => panic!("Expected a hit to be recorded"),
    }
}

#[test]
fn test_hit_sphere_glancing() {
    let sphere = metal_sphere(v3(0, 0, 0), ONE);
    let ray = Ray { orig: v3(-2 * ONE, ONE, 0), dir: v3(ONE, 0, 0) };

    let res = sphere.hit(&ray, 0, 100 * ONE);

    match res {
        Some(rec) => assert_eq!(dist(rec.point, v3(0, ONE, 0)) < 0.01, true),
        None => panic!("Expected a hit to be recorded"),
    }
}

#[test]
fn normal_opposes_ray_from_outside() {
    let sphere = metal_sphere(v3(0, 0, 0), ONE);
    let ray = Ray { orig: v3(-2 * ONE, 0, 0), dir: v3(ONE, 0, 0) };
    let rec = sphere.hit(&ray, 0, 100 * ONE).expect("hit expected");
    assert!(ray.dir.dot(rec.normal) <= 0);
    assert!(rec.front_face);
    assert_eq!(rec.normal, v3(-ONE, 0, 0));
}

#[test]
fn normal_opposes_ray_from_inside() {
    let sphere = metal_sphere(v3(0, 0, 0), ONE);
    let ray = Ray { orig: v3(0, 0, 0), dir: v3(ONE, 0, 0) };
    let rec = sphere.hit(&ray, 0, 100 * ONE).expect("hit expected");
    assert!(ray.dir.dot(rec.normal) <= 0);
    assert!(!rec.front_face);
    assert_eq!(rec.normal, v3(-ONE, 0, 0));
}

#[test]
fn nearest_hit_wins_regardless_of_order() {
    let near = metal_sphere(v3(2 * ONE, 0, 0), ONE / 2);
    let far = metal_sphere(v3(6 * ONE, 0, 0), ONE / 2);
    let ray = Ray { orig: v3(0, 0, 0), dir: v3(ONE, 0, 0) };

    let mut world_a = pathtracer::hittable::HittableList::new();
    world_a.add(near);
    world_a.add(far);
    let mut world_b = pathtracer::hittable::HittableList::new();
    world_b.add(far);
    world_b.add(near);

    let ra = world_a.hit(&ray, 0, 100 * ONE).expect("hit expected");
    let rb = world_b.hit(&ray, 0, 100 * ONE).expect("hit expected");
    assert_eq!(ra.t, rb.t);
    assert!(dist(ra.point, v3(3 * ONE / 2, 0, 0)) < 0.01);
    assert!(dist(rb.point, v3(3 * ONE / 2, 0, 0)) < 0.01);
}

#[test]
fn window_lower_bound_is_open() {
    // Roots at t = 1 and t = 3: a window starting exactly at the nearer
    // root must skip it (the window is open below) and take the farther
    // one; a window covering neither yields no hit.
    let sphere = metal_sphere(v3(0, 0, 0), ONE);
    let ray = Ray { orig: v3(-2 * ONE, 0, 0), dir: v3(ONE, 0, 0) };

    let far = sphere.hit(&ray, ONE, 100 * ONE).expect("the farther root should be taken");
    assert_eq!(far.t, 3 * ONE);

    let none = sphere.hit(&ray, ONE, 2 * ONE);
    assert!(none.is_none());
}
