use pathtracer::color::Color;
use pathtracer::geometry::{
    deg_to_rad, near_zero, rand_in, rand_in_unit_disk, rand_vec, rand_vec_bounded,
    random_in_unit_sphere, random_unit_vec, reflect, refract, unit, v3, Ray,
};

const ONE: i64 = 65536;

#[test]
fn vector_ops_exact() {
    let a = v3(ONE, 2 * ONE, -ONE);
    let b = v3(ONE, ONE, ONE);
    assert_eq!(a.add(b), v3(2 * ONE, 3 * ONE, 0));
    assert_eq!(a.sub(b), v3(0, ONE, -2 * ONE));
    assert_eq!(a.scale(2 * ONE), v3(2 * ONE, 4 * ONE, -2 * ONE));
    assert_eq!(a.dot(b), 2 * ONE);
    assert_eq!(v3(ONE, 0, 0).cross(v3(0, ONE, 0)), v3(0, 0, ONE));
}

#[test]
fn length_and_unit_exact() {
    let a = v3(3 * ONE, 4 * ONE, 0);
    assert_eq!(a.length(), 5 * ONE);
    assert_eq!(a.length_squared(), 25 * ONE);
    let u = unit(&a);
    assert_eq!(u, v3(3 * ONE / 5, 4 * ONE / 5, 0));
}

#[test]
fn near_zero_only_for_zero() {
    assert!(near_zero(&v3(0, 0, 0)));
    assert!(!near_zero(&v3(1, 0, 0)));
    assert!(!near_zero(&v3(0, -1, 0)));
}

#[test]
fn reflect_exact() {
    let v = v3(0, -ONE, 0);
    let n = v3(0, ONE, 0);
    assert_eq!(reflect(&v, &n), v3(0, ONE, 0));
    let v2 = v3(ONE, -ONE, 0);
    assert_eq!(reflect(&v2, &n), v3(ONE, ONE, 0));
}

#[test]
fn refract_straight_through() {
    let uv = v3(0, -ONE, 0);
    let n = v3(0, ONE, 0);
    let r = refract(&uv, &n, ONE);
    assert_eq!(r, v3(0, -ONE, 0));
}

#[test]
fn deg_to_rad_exact() {
    assert_eq!(deg_to_rad(180 * ONE), 205887);
    assert_eq!(deg_to_rad(90 * ONE), 102943);
    assert_eq!(deg_to_rad(0), 0);
}

#[test]
fn ray_at_exact() {
    let ray = Ray { orig: v3(ONE, 0, 0), dir: v3(ONE, 2 * ONE, 0) };
    assert_eq!(ray.at(2 * ONE), v3(3 * ONE, 4 * ONE, 0));
    assert_eq!(ray.origin(), v3(ONE, 0, 0));
    assert_eq!(ray.direction(), v3(ONE, 2 * ONE, 0));
}

#[test]
fn uniform_draws_stay_in_range() {
    for _ in 0..200 {
        let r = rand_in(-ONE, ONE);
        assert!(-ONE <= r && r < ONE);
        let v = rand_vec();
        assert!(0 <= v.x && v.x < ONE && 0 <= v.y && v.y < ONE && 0 <= v.z && v.z < ONE);
        let b = rand_vec_bounded(-2 * ONE, 2 * ONE);
        assert!(-2 * ONE <= b.x && b.x < 2 * ONE);
    }
    assert_eq!(rand_in(7, 7), 7);
}

#[test]
fn disk_and_sphere_samples_stay_inside() {
    for _ in 0..100 {
        let d = rand_in_unit_disk();
        assert_eq!(d.z, 0);
        assert!(d.length() <= ONE);
        let s = random_in_unit_sphere();
        assert!(s.length() < ONE);
        let u = random_unit_vec();
        assert!(u.x.abs() <= ONE && u.y.abs() <= ONE && u.z.abs() <= ONE);
        let l = u.length();
        assert!(65532 <= l && l <= 65542);
    }
}

#[test]
fn color_ops_exact() {
    let a = Color(v3(ONE, ONE / 2, 0));
    let b = Color(v3(ONE / 2, ONE / 2, ONE));
    assert_eq!(a.add(b).0, v3(3 * ONE / 2, ONE, ONE));
    assert_eq!(a.mul(b).0, v3(ONE / 2, ONE / 4, 0));
    let mut c = Color(v3(2 * ONE, -2 * ONE, ONE));
    c.mut_const_mul(ONE / 2);
    assert_eq!(c.0, v3(ONE, -ONE, ONE / 2));
    let r = Color::random();
    assert!(0 <= r.0.x && r.0.x < ONE);
    let ri = Color::random_in(ONE / 2, ONE);
    assert!(ONE / 2 <= ri.0.x && ri.0.x < ONE);
    assert_eq!(Color::black().0, v3(0, 0, 0));
}

#[test]
fn ppm_rows_exact() {
    let c = Color(v3(16384, ONE, 0));
    assert_eq!(c.ppm(), "128 255 0");
    let d = Color(v3(2 * ONE, 16384, -100));
    assert_eq!(d.to_ppm_row(2), "255 32 0");
}
