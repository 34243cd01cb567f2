use vstd::prelude::*;
use crate::fx::{abs_i, mul_fx, div_t};
use crate::geometry::{V3, Point, Ray, Sphere, v3i, dot_s, bounded, UNIT_MAX, DOT_MAX};
use crate::material::Material;

verus! {

/// The transient record of one ray-primitive intersection.
#[derive(Clone, Copy, Debug)]
pub struct HitRecord {
    pub point: Point,
    pub normal: V3,
    pub material: Material,
    pub t: i64,
    pub front_face: bool,
}

/// Whether the ray strikes the outward-facing side of the surface.
pub open spec fn front_face_s(ray: Ray, outward: V3) -> bool {
    dot_s(ray.dir, outward) < 0
}

/// The stored normal: the outward normal, flipped when the ray comes from
/// inside, so that it always opposes the ray.
pub open spec fn oriented_normal_s(ray: Ray, outward: V3) -> V3 {
    if front_face_s(ray, outward) {
        outward
    } else {
        v3i(-(outward.x as int), -(outward.y as int), -(outward.z as int))
    }
}

/// Negating one factor negates a rescaled product.
pub proof fn lemma_mul_fx_neg(a: int, b: int)
    ensures
        mul_fx(a, -b) == -mul_fx(a, b),
{
    assert(a * (-b) == -(a * b)) by (nonlinear_arith);
    let p = a * b;
    if p == 0 {
        assert(abs_i(0int) / 65536 == 0);
    } else if p > 0 {
        assert(div_t(-p, 65536) == -(p / 65536));
        assert(div_t(p, 65536) == p / 65536);
    } else {
        assert(div_t(-p, 65536) == (-p) / 65536);
        assert(div_t(p, 65536) == -((-p) / 65536));
    }
}

/// Negating a (bounded) vector negates its dot product with any other.
pub proof fn lemma_dot_neg(d: V3, n: V3)
    requires
        bounded(n, UNIT_MAX as int),
    ensures
        dot_s(d, v3i(-(n.x as int), -(n.y as int), -(n.z as int))) == -dot_s(d, n),
{
    lemma_mul_fx_neg(d.x as int, n.x as int);
    lemma_mul_fx_neg(d.y as int, n.y as int);
    lemma_mul_fx_neg(d.z as int, n.z as int);
}

/// The oriented normal never points along the ray.
pub proof fn lemma_oriented_normal_opposes(ray: Ray, outward: V3)
    requires
        bounded(outward, UNIT_MAX as int),
    ensures
        dot_s(ray.dir, oriented_normal_s(ray, outward)) <= 0,
        bounded(oriented_normal_s(ray, outward), UNIT_MAX as int),
{
    if !front_face_s(ray, outward) {
        lemma_dot_neg(ray.dir, outward);
    }
}

impl HitRecord {
    /// Builds the record for a hit, orienting the outward normal against
    /// the incoming ray.
    pub fn new(
        ray: &Ray,
        outward_normal: &V3,
        point: Point,
        material: Material,
        t: i64,
    ) -> (r: HitRecord)
        requires
            bounded(*outward_normal, UNIT_MAX as int),
            bounded(ray.dir, DOT_MAX as int),
        ensures
            r.point == point,
            r.material == material,
            r.t == t,
            r.front_face == front_face_s(*ray, *outward_normal),
            r.normal == oriented_normal_s(*ray, *outward_normal),
            dot_s(ray.dir, r.normal) <= 0,
            bounded(r.normal, UNIT_MAX as int),
    {
        let (normal, front_face) = Self::get_face_normal_from_ray(ray, outward_normal);
        proof {
            lemma_oriented_normal_opposes(*ray, *outward_normal);
        }
        HitRecord { point, normal, material, t, front_face }
    }

    /// Orientation test: the outward normal as given when the ray comes
    /// from outside, its negation when the ray comes from inside.
    pub fn get_face_normal_from_ray(ray: &Ray, outward_normal: &V3) -> (r: (V3, bool))
        requires
            bounded(*outward_normal, UNIT_MAX as int),
            bounded(ray.dir, DOT_MAX as int),
        ensures
            r.1 == front_face_s(*ray, *outward_normal),
            r.0 == oriented_normal_s(*ray, *outward_normal),
    {
        let d = ray.dir.dot(*outward_normal);
        let front_face = d < 0;
        let normal = if front_face {
            *outward_normal
        } else {
            outward_normal.neg()
        };
        (normal, front_face)
    }
}

/// The scene: an ordered list of primitives searched for the nearest hit.
pub struct HittableList {
    pub list: Vec<Sphere>,
}

impl HittableList {
    /// An empty scene.
    pub fn new() -> (r: HittableList)
        ensures
            r.list@.len() == 0,
    {
        HittableList { list: Vec::new() }
    }

    /// Appends a primitive.
    pub fn add(&mut self, item: Sphere)
        ensures
            final(self).list@ == old(self).list@.push(item),
    {
        self.list.push(item);
    }
}

/// What every reported hit guarantees: the parameter lies in the queried
/// window, the stored normal opposes the ray and is unit-scale, the point
/// and material stay within the tracer's envelope.
pub open spec fn hit_props(ray: Ray, h: HitRecord, t_min: int, t_max: int) -> bool {
    &&& t_min < h.t <= t_max
    &&& dot_s(ray.dir, h.normal) <= 0
    &&& bounded(h.normal, UNIT_MAX as int)
    &&& bounded(h.point, 144115188075855872int)
    &&& crate::material::material_wf(h.material)
}

/// Every sphere of a scene is well-formed.
pub open spec fn world_wf(l: Seq<Sphere>) -> bool {
    forall|i: int| 0 <= i < l.len() ==> crate::geometry::sphere_wf(#[trigger] l[i])
}

/// The nearest-hit fold over a sphere list: each accepted hit narrows the
/// upper bound for the spheres after it; an equally near later hit wins,
/// as the sequential search prescribes.
pub open spec fn list_hit_from(spheres: Seq<Sphere>, ray: Ray, t_min: int, t_max: int) -> Option<
    HitRecord,
>
    decreases spheres.len(),
{
    if spheres.len() == 0 {
        None
    } else {
        match crate::geometry::sphere_hit_s(spheres[0], ray, t_min, t_max) {
            Some(h) => match list_hit_from(spheres.drop_first(), ray, t_min, h.t as int) {
                Some(h2) => Some(h2),
                None => Some(h),
            },
            None => list_hit_from(spheres.drop_first(), ray, t_min, t_max),
        }
    }
}

impl HittableList {
    /// The nearest hit among all primitives, or nothing. Order of the
    /// list does not change which hit is nearest.
    pub fn hit(&self, ray: &Ray, t_min: i64, t_max: i64) -> (r: Option<HitRecord>)
        requires
            world_wf(self.list@),
            crate::geometry::ray_wf(*ray),
            0 <= t_min,
            t_max <= crate::geometry::T_MAX,
        ensures
            r == list_hit_from(self.list@, *ray, t_min as int, t_max as int),
            r matches Some(h) ==> hit_props(*ray, h, t_min as int, t_max as int),
    {
        let mut any_hit: Option<HitRecord> = None;
        let mut closest: i64 = t_max;
        let n = self.list.len();
        let mut i: usize = 0;
        proof {
            assert(self.list@.skip(0) =~= self.list@);
        }
        while i < n
            invariant
                0 <= i <= n,
                n == self.list@.len(),
                world_wf(self.list@),
                crate::geometry::ray_wf(*ray),
                0 <= t_min,
                t_max <= crate::geometry::T_MAX,
                closest <= t_max,
                match any_hit {
                    Some(h) => h.t == closest && hit_props(*ray, h, t_min as int, t_max as int),
                    None => closest == t_max,
                },
                list_hit_from(self.list@, *ray, t_min as int, t_max as int) == (match list_hit_from(
                    self.list@.skip(i as int),
                    *ray,
                    t_min as int,
                    closest as int,
                ) {
                    Some(h2) => Some(h2),
                    None => any_hit,
                }),
            decreases n - i,
        {
            proof {
                assert(self.list@.skip(i as int).len() == n - i);
                assert(self.list@.skip(i as int)[0] == self.list@[i as int]);
                assert(self.list@.skip(i as int).drop_first() =~= self.list@.skip(i as int + 1));
            }
            let res = self.list[i].hit(ray, t_min, closest);
            if let Some(rec) = res {
                closest = rec.t;
                any_hit = Some(rec);
            }
            i = i + 1;
        }
        proof {
            assert(self.list@.skip(n as int).len() == 0);
        }
        any_hit
    }
}

/// The intersection protocol every primitive honors: a reported hit lies
/// within the queried window, and its stored normal opposes the ray.
pub trait Hittable {
    /// The numeric envelope the implementor asks of itself.
    spec fn wf(&self) -> bool;

    /// The nearest intersection within (t_min, t_max], if any.
    fn hit(&self, ray: &Ray, t_min: i64, t_max: i64) -> (r: Option<HitRecord>)
        requires
            self.wf(),
            crate::geometry::ray_wf(*ray),
            0 <= t_min,
            t_max <= crate::geometry::T_MAX,
        ensures
            r matches Some(h) ==> hit_props(*ray, h, t_min as int, t_max as int),
    ;
}

impl Hittable for HittableList {
    open spec fn wf(&self) -> bool {
        world_wf(self.list@)
    }

    fn hit(&self, ray: &Ray, t_min: i64, t_max: i64) -> (r: Option<HitRecord>) {
        HittableList::hit(self, ray, t_min, t_max)
    }
}

impl Hittable for crate::geometry::Sphere {
    open spec fn wf(&self) -> bool {
        crate::geometry::sphere_wf(*self)
    }

    fn hit(&self, ray: &Ray, t_min: i64, t_max: i64) -> (r: Option<HitRecord>) {
        crate::geometry::Sphere::hit(self, ray, t_min, t_max)
    }
}

} // verus!
