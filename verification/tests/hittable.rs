use glam::{DVec2, DVec3};
use raytracer::aabb::Aabb;
use raytracer::hittable::{
    closer_hit, compute_face_normal, is_admitted, Face, HitRecord, Hittable, Surface, World,
};
use raytracer::material::{Material, Scatter};
use raytracer::primitives::Sphere;
use raytracer::ray::Ray;
use raytracer::scalar::Scalar;
use raytracer::vec3::{Vec2, Vec3};
use std::sync::Arc;

fn s(x: f64) -> Scalar {
    Scalar::from_bits(x.to_bits())
}

fn f(x: Scalar) -> f64 {
    f64::from_bits(x.to_bits())
}

fn v(a: DVec3) -> Vec3 {
    Vec3::new(s(a.x), s(a.y), s(a.z))
}

fn d(a: Vec3) -> DVec3 {
    DVec3::new(f(a.x), f(a.y), f(a.z))
}

fn v2(a: DVec2) -> Vec2 {
    Vec2::new(s(a.x), s(a.y))
}

fn ray(origin: DVec3, direction: DVec3) -> Ray {
    Ray { origin: v(origin), direction: v(direction), time: s(0.0) }
}

/// A material that only gives off its one colour.
struct Flat {
    color: DVec3,
}

impl Material for Flat {
    fn scatter(&self, _ray: &Ray, _hit: &Surface) -> Option<Scatter> {
        None
    }

    fn emitted(&self, _uv: Vec2, _point: Vec3) -> Vec3 {
        v(self.color)
    }
}

/// A sphere with the arithmetic that the library leaves to its caller.
struct Ball {
    shape: Sphere<Flat>,
}

fn ball(center: DVec3, radius: f64, shade: f64) -> Ball {
    Ball { shape: Sphere { center: v(center), radius: s(radius), material: Flat { color: DVec3::splat(shade) } } }
}

impl Hittable for Ball {
    fn hit_spec(&self, ray: Ray, t_min: Scalar, t_max: Scalar) -> Option<HitRecord<'_>> {
        self.hit(&ray, t_min, t_max)
    }

    fn bounding_box_spec(&self, start_time: Scalar, end_time: Scalar) -> Option<Aabb> {
        self.bounding_box(start_time, end_time)
    }

    fn hit<'a>(&'a self, ray: &Ray, t_min: Scalar, t_max: Scalar) -> Option<HitRecord<'a>> {
        let center = d(self.shape.center);
        let radius = f(self.shape.radius);
        let origin = d(ray.origin);
        let direction = d(ray.direction);
        let center_to_origin = origin - center;
        let a = direction.length_squared();
        let half_b = direction.dot(center_to_origin);
        let c = center_to_origin.length_squared() - radius * radius;
        let discriminant = half_b * half_b - a * c;
        let near = (-half_b - discriminant.sqrt()) / a;
        let far = (-half_b + discriminant.sqrt()) / a;
        let t = Sphere::<Flat>::choose_root(s(discriminant), s(near), s(far), t_min, t_max)?;
        let point = origin + direction * f(t);
        let outward = (point - center) / radius;
        let uv = DVec2::new(
            ((-outward.z).atan2(outward.x) + std::f64::consts::PI) / std::f64::consts::TAU,
            outward.y.acos() / std::f64::consts::PI,
        );
        Some(self.shape.hit(t, v(point), v(outward), v2(uv), s(direction.dot(outward))))
    }

    fn bounding_box(&self, _start_time: Scalar, _end_time: Scalar) -> Option<Aabb> {
        let center = d(self.shape.center);
        let reach = f(self.shape.radius.abs());
        Some(Aabb { minimum: v(center - DVec3::splat(reach)), maximum: v(center + DVec3::splat(reach)) })
    }
}

/// Something without a box.
struct Unbounded;

impl Hittable for Unbounded {
    fn hit_spec(&self, ray: Ray, t_min: Scalar, t_max: Scalar) -> Option<HitRecord<'_>> {
        self.hit(&ray, t_min, t_max)
    }

    fn bounding_box_spec(&self, start_time: Scalar, end_time: Scalar) -> Option<Aabb> {
        self.bounding_box(start_time, end_time)
    }

    fn hit<'a>(&'a self, _ray: &Ray, _t_min: Scalar, _t_max: Scalar) -> Option<HitRecord<'a>> {
        None
    }

    fn bounding_box(&self, _start_time: Scalar, _end_time: Scalar) -> Option<Aabb> {
        None
    }
}

static GREY: Flat = Flat { color: DVec3::new(0.5, 0.5, 0.5) };

fn record(t: f64) -> Option<HitRecord<'static>> {
    let surface = Surface {
        t: s(t),
        point: v(DVec3::new(t, 0.0, 0.0)),
        normal: v(DVec3::X),
        uv: v2(DVec2::ZERO),
        face: Face::Front,
    };
    Some(HitRecord::new(surface, &GREY))
}

fn fold(hits: Vec<Option<HitRecord<'static>>>) -> Option<f64> {
    let mut best = None;
    for hit in hits {
        best = closer_hit(best, hit);
    }
    best.map(|h| f(h.t))
}

#[test]
fn face_normal_follows_the_sign_of_the_dot_product() {
    let outward = DVec3::new(0.0, 0.0, 1.0);
    let (normal, face) = compute_face_normal(s(-1.0), v(outward));
    assert_eq!((d(normal), face), (outward, Face::Front));
    let (normal, face) = compute_face_normal(s(1.0), v(outward));
    assert_eq!((d(normal), face), (-outward, Face::Back));
    // A ray along the surface counts as coming from behind.
    let (normal, face) = compute_face_normal(s(0.0), v(outward));
    assert_eq!((d(normal), face), (-outward, Face::Back));
    let (_, face) = compute_face_normal(s(-0.0), v(outward));
    assert_eq!(face, Face::Back);
    let (_, face) = compute_face_normal(s(f64::NAN), v(outward));
    assert_eq!(face, Face::Back);
}

#[test]
fn the_normal_of_a_record_opposes_the_ray() {
    let directions = [DVec3::new(0.0, 0.0, -1.0), DVec3::new(0.3, -0.2, 1.0), DVec3::new(-1.0, 1.0, 0.1)];
    let normals = [DVec3::Z, DVec3::NEG_Z, DVec3::new(0.6, 0.0, 0.8), DVec3::X];
    for direction in directions {
        for outward in normals {
            let (normal, _) = compute_face_normal(s(direction.dot(outward)), v(outward));
            assert!(d(normal).dot(direction) <= 0.0);
        }
    }
}

#[test]
fn the_nearest_finite_hit_wins() {
    assert_eq!(fold(vec![record(3.0), record(1.0), record(2.0)]), Some(1.0));
    assert_eq!(fold(vec![None, record(4.0), None]), Some(4.0));
    assert_eq!(fold(vec![None, None]), None);
    assert_eq!(fold(vec![]), None);
}

#[test]
fn hits_that_are_not_finite_never_count() {
    assert_eq!(fold(vec![record(f64::NAN), record(5.0), record(f64::NEG_INFINITY)]), Some(5.0));
    assert_eq!(fold(vec![record(f64::INFINITY), record(f64::NAN)]), None);
    assert_eq!(fold(vec![record(2.0), record(f64::NAN)]), Some(2.0));
}

#[test]
fn of_equal_hits_the_first_wins() {
    let first = record(0.0);
    let second = record(-0.0);
    let best = closer_hit(closer_hit(None, first), second).unwrap();
    assert_eq!(best.t.to_bits(), 0.0f64.to_bits());
    let best = closer_hit(closer_hit(None, second), first).unwrap();
    assert_eq!(best.t.to_bits(), (-0.0f64).to_bits());
}

#[test]
fn a_record_keeps_its_material() {
    let hit = record(1.0).unwrap();
    assert_eq!(d(hit.material.emitted(v2(DVec2::ZERO), v(DVec3::ZERO))), DVec3::splat(0.5));
    let surface = hit.surface();
    assert_eq!(f(surface.t), 1.0);
    assert_eq!(d(surface.point), DVec3::new(1.0, 0.0, 0.0));
    assert_eq!(surface.face, Face::Front);
}

#[test]
fn two_spheres_ray_down_z_hits_the_near_sphere_at_half() {
    let mut world: World<Ball> = World::new();
    world.add(ball(DVec3::new(0.0, 0.0, -1.0), 0.5, 0.1));
    world.add(ball(DVec3::new(0.0, -100.5, -1.0), 100.0, 0.9));
    let down = ray(DVec3::ZERO, DVec3::new(0.0, 0.0, -1.0));
    let hit = world.hit(&down, s(0.001), s(f64::INFINITY)).unwrap();
    assert_eq!(f(hit.t), 0.5);
    assert_eq!(hit.face, Face::Front);
    assert_eq!(d(hit.point), DVec3::new(0.0, 0.0, -0.5));
    assert_eq!(d(hit.normal), DVec3::new(0.0, 0.0, 1.0));
    // The material of the near sphere, not that of the ground.
    assert_eq!(d(hit.material.emitted(hit.uv, hit.point)), DVec3::splat(0.1));
    assert!(((d(hit.point) - DVec3::new(0.0, 0.0, -1.0)).length() - 0.5).abs() < 1.0e-12);
    assert_eq!(d(hit.point), d(down.origin) + d(down.direction) * f(hit.t));
    assert!(d(hit.normal).dot(d(down.direction)) <= 0.0);
}

#[test]
fn the_order_of_the_objects_does_not_change_the_nearest_hit() {
    let mut world: World<Ball> = World::new();
    world.add(ball(DVec3::new(0.0, -100.5, -1.0), 100.0, 0.9));
    world.add(ball(DVec3::new(0.0, 0.0, -1.0), 0.5, 0.1));
    let down = ray(DVec3::ZERO, DVec3::new(0.0, 0.0, -1.0));
    let hit = world.hit(&down, s(0.001), s(f64::INFINITY)).unwrap();
    assert_eq!(f(hit.t), 0.5);
}

#[test]
fn a_ray_that_misses_everything_reports_nothing() {
    let mut world: World<Ball> = World::new();
    world.add(ball(DVec3::new(0.0, 0.0, -1.0), 0.5, 0.1));
    let up = ray(DVec3::ZERO, DVec3::new(0.0, 1.0, 0.0));
    assert!(world.hit(&up, s(0.001), s(f64::INFINITY)).is_none());
    let empty: World<Ball> = World::new();
    assert!(empty.hit(&up, s(0.001), s(f64::INFINITY)).is_none());
}

#[test]
fn the_interval_bounds_the_hit() {
    let mut world: World<Ball> = World::new();
    world.add(ball(DVec3::new(0.0, 0.0, -1.0), 0.5, 0.1));
    let down = ray(DVec3::ZERO, DVec3::new(0.0, 0.0, -1.0));
    // The near root lies before the interval: the far root counts.
    let hit = world.hit(&down, s(1.0), s(2.0)).unwrap();
    assert_eq!(f(hit.t), 1.5);
    assert_eq!(hit.face, Face::Back);
    assert!(world.hit(&down, s(2.0), s(3.0)).is_none());
    assert!(world.hit(&down, s(0.0), s(0.25)).is_none());
}

#[test]
fn a_negative_radius_turns_the_normal_inward() {
    let shell = ball(DVec3::new(0.0, 0.0, -1.0), -0.5, 0.1);
    let down = ray(DVec3::ZERO, DVec3::new(0.0, 0.0, -1.0));
    let hit = shell.hit(&down, s(0.001), s(f64::INFINITY)).unwrap();
    assert_eq!(f(hit.t), 0.5);
    assert_eq!(hit.face, Face::Back);
    assert_eq!(d(hit.normal), DVec3::new(0.0, 0.0, 1.0));
    let around = shell.bounding_box(s(0.0), s(1.0)).unwrap();
    assert_eq!(d(around.minimum), DVec3::new(-0.5, -0.5, -1.5));
    assert_eq!(d(around.maximum), DVec3::new(0.5, 0.5, -0.5));
}

#[test]
fn a_parameter_counts_if_it_is_finite_and_in_the_interval() {
    assert!(is_admitted(s(1.0), s(0.0), s(2.0)));
    assert!(is_admitted(s(0.0), s(0.0), s(2.0)));
    assert!(is_admitted(s(2.0), s(0.0), s(2.0)));
    assert!(is_admitted(s(-0.0), s(0.0), s(2.0)));
    assert!(is_admitted(s(1.0e300), s(0.0), s(f64::INFINITY)));
    assert!(!is_admitted(s(3.0), s(0.0), s(2.0)));
    assert!(!is_admitted(s(-1.0), s(0.0), s(2.0)));
    assert!(!is_admitted(s(f64::INFINITY), s(0.0), s(f64::INFINITY)));
    assert!(!is_admitted(s(f64::NEG_INFINITY), s(f64::NEG_INFINITY), s(0.0)));
    assert!(!is_admitted(s(f64::NAN), s(0.0), s(2.0)));
    assert!(!is_admitted(s(1.0), s(f64::NAN), s(2.0)));
    assert!(!is_admitted(s(1.0), s(0.0), s(f64::NAN)));
}

#[test]
fn the_box_of_a_world_is_the_union_of_the_boxes() {
    let mut world: World<Ball> = World::new();
    assert!(world.bounding_box(s(0.0), s(1.0)).is_none());
    world.add(ball(DVec3::new(0.0, 0.0, -1.0), 0.5, 0.1));
    world.add(ball(DVec3::new(2.0, 1.0, 0.0), 1.0, 0.1));
    world.add(ball(DVec3::new(-3.0, 0.0, 0.0), 0.25, 0.1));
    let around = world.bounding_box(s(0.0), s(1.0)).unwrap();
    assert_eq!(d(around.minimum), DVec3::new(-3.25, -0.5, -1.5));
    assert_eq!(d(around.maximum), DVec3::new(3.0, 2.0, 1.0));
}

#[test]
fn one_object_without_a_box_leaves_the_list_without_one() {
    let objects: Vec<Box<dyn Hittable>> = vec![
        Box::new(ball(DVec3::ZERO, 1.0, 0.1)),
        Box::new(Unbounded),
        Box::new(ball(DVec3::ONE, 1.0, 0.1)),
    ];
    assert!(objects.as_slice().bounding_box(s(0.0), s(1.0)).is_none());
    let bounded: Vec<Box<dyn Hittable>> = vec![Box::new(ball(DVec3::ZERO, 1.0, 0.1))];
    let around = bounded.as_slice().bounding_box(s(0.0), s(1.0)).unwrap();
    assert_eq!(d(around.minimum), DVec3::splat(-1.0));
}

#[test]
fn handles_answer_as_the_object_does() {
    let object = ball(DVec3::new(0.0, 0.0, -1.0), 0.5, 0.1);
    let down = ray(DVec3::ZERO, DVec3::new(0.0, 0.0, -1.0));
    let by_reference = &object;
    assert_eq!(f(by_reference.hit(&down, s(0.001), s(9.0)).unwrap().t), 0.5);
    assert_eq!(d(by_reference.bounding_box(s(0.0), s(1.0)).unwrap().minimum), DVec3::new(-0.5, -0.5, -1.5));
    let boxed = Box::new(ball(DVec3::new(0.0, 0.0, -1.0), 0.5, 0.1));
    assert_eq!(f(boxed.hit(&down, s(0.001), s(9.0)).unwrap().t), 0.5);
    let dynamic: Box<dyn Hittable> = Box::new(ball(DVec3::new(0.0, 0.0, -2.0), 0.5, 0.1));
    assert_eq!(f(dynamic.hit(&down, s(0.001), s(9.0)).unwrap().t), 1.5);
    assert_eq!(d(dynamic.bounding_box(s(0.0), s(1.0)).unwrap().maximum), DVec3::new(0.5, 0.5, -1.5));
    let shared = Arc::new(ball(DVec3::new(0.0, 0.0, -3.0), 0.5, 0.1));
    assert_eq!(f(shared.hit(&down, s(0.001), s(9.0)).unwrap().t), 2.5);
    let mut world: World<Box<dyn Hittable>> = World::new();
    world.add(dynamic);
    world.add(Box::new(shared));
    assert_eq!(world.objects.len(), 2);
    assert_eq!(f(world.hit(&down, s(0.001), s(9.0)).unwrap().t), 1.5);
}
