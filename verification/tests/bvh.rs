use glam::DVec3;
use rand::rngs::StdRng;
use rand::{Rng, SeedableRng};
use raytracer::aabb::Aabb;
use raytracer::bvh::{prefer, tighten, BvhChild, BvhNode, Traversal};
use raytracer::hittable::{Face, HitRecord, Hittable, Surface};
use raytracer::material::{Material, Scatter};
use raytracer::primitives::Sphere;
use raytracer::ray::Ray;
use raytracer::scalar::Scalar;
use raytracer::vec3::{Vec2, Vec3};
use std::sync::Arc;

fn s(x: f64) -> Scalar {
    Scalar::from_bits(x.to_bits())
}

fn f(x: Scalar) -> f64 {
    f64::from_bits(x.to_bits())
}

fn v(a: DVec3) -> Vec3 {
    Vec3::new(s(a.x), s(a.y), s(a.z))
}

fn d(a: Vec3) -> DVec3 {
    DVec3::new(f(a.x), f(a.y), f(a.z))
}

struct Numbered(usize);

impl Material for Numbered {
    fn scatter(&self, _ray: &Ray, _hit: &Surface) -> Option<Scatter> {
        None
    }

    fn emitted(&self, _uv: Vec2, _point: Vec3) -> Vec3 {
        Vec3::splat(Scalar::from_bits(self.0 as u64))
    }
}

static PLAIN: Numbered = Numbered(0);

/// A sphere with the arithmetic that the library leaves to its caller.
struct Ball {
    shape: Sphere<Numbered>,
}

fn ball(center: DVec3, radius: f64, number: usize) -> Arc<Ball> {
    Arc::new(Ball { shape: Sphere { center: v(center), radius: s(radius), material: Numbered(number) } })
}

fn number_of(object: &Arc<Ball>) -> usize {
    object.shape.material.0
}

impl Hittable for Ball {
    fn hit_spec(&self, ray: Ray, t_min: Scalar, t_max: Scalar) -> Option<HitRecord<'_>> {
        self.hit(&ray, t_min, t_max)
    }

    fn bounding_box_spec(&self, start_time: Scalar, end_time: Scalar) -> Option<Aabb> {
        self.bounding_box(start_time, end_time)
    }

    fn hit<'a>(&'a self, ray: &Ray, t_min: Scalar, t_max: Scalar) -> Option<HitRecord<'a>> {
        let center = d(self.shape.center);
        let radius = f(self.shape.radius);
        let origin = d(ray.origin);
        let direction = d(ray.direction);
        let center_to_origin = origin - center;
        let a = direction.length_squared();
        let half_b = direction.dot(center_to_origin);
        let c = center_to_origin.length_squared() - radius * radius;
        let discriminant = half_b * half_b - a * c;
        let near = (-half_b - discriminant.sqrt()) / a;
        let far = (-half_b + discriminant.sqrt()) / a;
        let t = Sphere::<Numbered>::choose_root(s(discriminant), s(near), s(far), t_min, t_max)?;
        let point = origin + direction * f(t);
        let outward = (point - center) / radius;
        let uv = Vec2::new(s(0.0), s(0.0));
        Some(self.shape.hit(t, v(point), v(outward), uv, s(direction.dot(outward))))
    }

    fn bounding_box(&self, _start_time: Scalar, _end_time: Scalar) -> Option<Aabb> {
        let center = d(self.shape.center);
        let reach = f(self.shape.radius.abs());
        Some(Aabb { minimum: v(center - DVec3::splat(reach)), maximum: v(center + DVec3::splat(reach)) })
    }
}

/// The slab test on floats.
fn crosses(bounds: &Aabb, ray: &Ray, t_min: Scalar, t_max: Scalar) -> bool {
    let a = (d(bounds.minimum) - d(ray.origin)) / d(ray.direction);
    let b = (d(bounds.maximum) - d(ray.origin)) / d(ray.direction);
    Aabb::is_hit_by(v(a), v(b), t_min, t_max)
}

/// Walks the hierarchy, with a count of the boxes that were tested.
fn walk<'a>(root: &'a BvhNode<Ball>, ray: &Ray, t_min: f64, t_max: f64) -> (Option<HitRecord<'a>>, usize) {
    let mut walk = Traversal::new(root, ray, s(t_min), s(t_max));
    let mut tests = 0;
    while let Some((bounds, lo, hi)) = walk.slab_test() {
        tests += 1;
        walk.advance(crosses(&bounds, ray, lo, hi));
    }
    (walk.found(), tests)
}

fn leaves(node: &BvhNode<Ball>, out: &mut Vec<usize>) {
    for child in [&node.left, &node.right] {
        match child {
            BvhChild::Object(object) => out.push(number_of(object)),
            BvhChild::Node(inner) => leaves(inner, out),
        }
    }
}

fn box_of(child: &BvhChild<Ball>) -> Aabb {
    child.bounding_box(s(0.0), s(1.0))
}

/// The boxes are unions, and some axis separates the halves.
fn check_shape(node: &BvhNode<Ball>) -> usize {
    let (left, right) = (box_of(&node.left), box_of(&node.right));
    let joined = left.union(&right);
    assert_eq!(d(node.bounding_box.minimum), d(joined.minimum));
    assert_eq!(d(node.bounding_box.maximum), d(joined.maximum));
    let mut on_left = Vec::new();
    let mut on_right = Vec::new();
    let mut count = 0;
    for (child, side) in [(&node.left, &mut on_left), (&node.right, &mut on_right)] {
        match child {
            BvhChild::Object(object) => {
                side.push(d(object.bounding_box(s(0.0), s(1.0)).unwrap().minimum));
                count += 1;
            }
            BvhChild::Node(inner) => {
                count += check_shape(inner);
                collect_minimums(inner, side);
            }
        }
    }
    let separated = (0..3).any(|axis| {
        on_left.iter().all(|l| on_right.iter().all(|r| l[axis] <= r[axis]))
    });
    assert!(separated);
    count
}

fn collect_minimums(node: &BvhNode<Ball>, out: &mut Vec<DVec3>) {
    for child in [&node.left, &node.right] {
        match child {
            BvhChild::Object(object) => out.push(d(object.bounding_box(s(0.0), s(1.0)).unwrap().minimum)),
            BvhChild::Node(inner) => collect_minimums(inner, out),
        }
    }
}

fn random_scene(rng: &mut StdRng, count: usize) -> Vec<Arc<Ball>> {
    (0..count)
        .map(|number| {
            let center = DVec3::new(rng.gen_range(-10.0..10.0), rng.gen_range(-10.0..10.0), rng.gen_range(-10.0..10.0));
            ball(center, rng.gen_range(0.1..2.0), number)
        })
        .collect()
}

#[test]
fn a_single_object_is_both_children() {
    let mut rng = StdRng::seed_from_u64(1);
    let node = BvhNode::new(&mut vec![ball(DVec3::ZERO, 1.0, 7)], s(0.0), s(1.0), &mut rng);
    let mut found = Vec::new();
    leaves(&node, &mut found);
    assert_eq!(found, vec![7, 7]);
    assert_eq!(d(node.bounding_box.minimum), DVec3::splat(-1.0));
    assert_eq!(d(node.bounding_box.maximum), DVec3::splat(1.0));
    assert_eq!(d(node.bounding_box(s(0.0), s(1.0)).unwrap().maximum), DVec3::splat(1.0));
}

#[test]
fn two_objects_are_one_child_each_in_sorted_order() {
    for seed in 0..20 {
        let mut rng = StdRng::seed_from_u64(seed);
        // The second lies below the first on every axis.
        let list = vec![ball(DVec3::splat(5.0), 1.0, 0), ball(DVec3::splat(-5.0), 1.0, 1)];
        let node = BvhNode::new(&mut list.clone(), s(0.0), s(1.0), &mut rng);
        let mut found = Vec::new();
        leaves(&node, &mut found);
        assert_eq!(found, vec![1, 0]);
        assert_eq!(d(node.bounding_box.minimum), DVec3::splat(-6.0));
        assert_eq!(d(node.bounding_box.maximum), DVec3::splat(6.0));
    }
}

#[test]
fn sorting_along_an_axis_orders_the_minimum_corners() {
    let list = vec![
        ball(DVec3::new(3.0, -1.0, 0.0), 1.0, 0),
        ball(DVec3::new(1.0, 5.0, -2.0), 0.5, 1),
        ball(DVec3::new(2.0, 0.0, 9.0), 0.25, 2),
        ball(DVec3::new(-4.0, 2.0, 4.0), 2.0, 3),
    ];
    let by = |axis: usize| -> Vec<usize> {
        BvhNode::sort_along(&list, axis, s(0.0), s(1.0)).iter().map(number_of).collect()
    };
    assert_eq!(by(0), vec![3, 1, 2, 0]);
    assert_eq!(by(1), vec![0, 2, 3, 1]);
    assert_eq!(by(2), vec![1, 0, 3, 2]);
}

#[test]
fn sorting_keeps_the_order_of_objects_at_one_place() {
    let list = vec![
        ball(DVec3::new(1.0, 0.0, 0.0), 1.0, 0),
        ball(DVec3::new(1.0, 1.0, 0.0), 1.0, 1),
        ball(DVec3::new(0.0, 2.0, 0.0), 1.0, 2),
        ball(DVec3::new(1.0, 3.0, 0.0), 1.0, 3),
    ];
    let sorted: Vec<usize> = BvhNode::sort_along(&list, 0, s(0.0), s(1.0)).iter().map(number_of).collect();
    assert_eq!(sorted, vec![2, 0, 1, 3]);
}

#[test]
fn the_hierarchy_halves_the_list_at_every_level() {
    let mut rng = StdRng::seed_from_u64(3);
    let list = random_scene(&mut rng, 5);
    let node = BvhNode::new(&mut list.clone(), s(0.0), s(1.0), &mut rng);
    // Five objects: two on the left, three on the right, of which one
    // stands alone and comes twice.
    let mut on_left = Vec::new();
    let mut on_right = Vec::new();
    match (&node.left, &node.right) {
        (BvhChild::Node(left), BvhChild::Node(right)) => {
            leaves(left, &mut on_left);
            leaves(right, &mut on_right);
        }
        _ => panic!("five objects do not fit under two leaves"),
    }
    assert_eq!(on_left.len(), 2);
    assert_eq!(on_right.len(), 4);
    on_right.dedup();
    assert_eq!(on_right.len(), 3);
}

#[test]
fn every_object_is_under_the_hierarchy_and_every_box_is_a_union() {
    for seed in 0..10 {
        let mut rng = StdRng::seed_from_u64(seed);
        let count = 1 + (seed as usize) * 7;
        let list = random_scene(&mut rng, count);
        let node = BvhNode::new(&mut list.clone(), s(0.0), s(1.0), &mut rng);
        let mut found = Vec::new();
        leaves(&node, &mut found);
        found.sort();
        found.dedup();
        assert_eq!(found, (0..count).collect::<Vec<_>>());
        check_shape(&node);
    }
}

#[test]
fn building_leaves_the_list_in_the_order_of_the_hierarchy() {
    for seed in 0..10 {
        let mut rng = StdRng::seed_from_u64(seed);
        let count = 1 + (seed as usize) * 5;
        let mut list = random_scene(&mut rng, count);
        let node = BvhNode::new(&mut list, s(0.0), s(1.0), &mut rng);
        // The same objects as before.
        let mut numbers: Vec<usize> = list.iter().map(number_of).collect();
        let in_list = numbers.clone();
        numbers.sort();
        assert_eq!(numbers, (0..count).collect::<Vec<_>>());
        // In the order of the leaves, where an object that stands alone
        // under a node comes twice.
        let mut under = Vec::new();
        leaves(&node, &mut under);
        under.dedup();
        assert_eq!(under, in_list);
    }
}

#[test]
fn building_twice_from_one_seed_gives_one_hierarchy() {
    let build = || {
        let mut rng = StdRng::seed_from_u64(11);
        let list = random_scene(&mut rng, 40);
        let node = BvhNode::new(&mut list.clone(), s(0.0), s(1.0), &mut rng);
        let mut found = Vec::new();
        leaves(&node, &mut found);
        found
    };
    assert_eq!(build(), build());
}

#[test]
fn a_walk_finds_what_a_scan_finds() {
    let mut rng = StdRng::seed_from_u64(2024);
    let mut hits = 0;
    let mut misses = 0;
    for round in 0..40 {
        let count = 1 + round % 25;
        let list = random_scene(&mut rng, count);
        let node = BvhNode::new(&mut list.clone(), s(0.0), s(1.0), &mut rng);
        for shot in 0..50 {
            let origin = DVec3::new(rng.gen_range(-15.0..15.0), rng.gen_range(-15.0..15.0), rng.gen_range(-15.0..15.0));
            let aside = DVec3::new(rng.gen_range(-1.0..1.0), rng.gen_range(-1.0..1.0), rng.gen_range(-1.0..1.0));
            // Every other ray is aimed near one of the objects.
            let direction = if shot % 2 == 0 {
                aside
            } else {
                let center = d(list[shot % list.len()].shape.center);
                center + aside - origin
            };
            let ray = Ray { origin: v(origin), direction: v(direction), time: s(0.0) };
            let scanned = list.as_slice().hit(&ray, s(0.001), s(f64::INFINITY));
            let (walked, _) = walk(&node, &ray, 0.001, f64::INFINITY);
            match (scanned, walked) {
                (Some(a), Some(b)) => {
                    assert_eq!(f(a.t), f(b.t));
                    // The record is the one that the object made.
                    assert_eq!(d(b.point), d(ray.origin) + d(ray.direction) * f(b.t));
                    assert!(d(b.normal).dot(d(ray.direction)) <= 0.0);
                    let struck = &list[b.material.emitted(b.uv, b.point).x.to_bits() as usize];
                    let from_center = (d(b.point) - d(struck.shape.center)).length();
                    assert!((from_center - f(struck.shape.radius)).abs() < 1.0e-9);
                    hits += 1;
                }
                (None, None) => misses += 1,
                _ => panic!("the walk and the scan disagree on whether there is a hit"),
            }
        }
    }
    assert!(hits > 100 && misses > 100);
}

#[test]
fn a_walk_skips_what_lies_in_boxes_that_the_ray_misses() {
    let mut rng = StdRng::seed_from_u64(5);
    let list: Vec<Arc<Ball>> = (0..64).map(|i| ball(DVec3::new(i as f64 * 3.0, 0.0, 0.0), 1.0, i)).collect();
    let node = BvhNode::new(&mut list.clone(), s(0.0), s(1.0), &mut rng);
    // Far from all of them: the box of the root is the only one tested.
    let away = Ray { origin: v(DVec3::new(0.0, 50.0, 0.0)), direction: v(DVec3::Y), time: s(0.0) };
    let (hit, tests) = walk(&node, &away, 0.001, f64::INFINITY);
    assert!(hit.is_none());
    assert_eq!(tests, 1);
    // Down on one of them: far fewer boxes than there are nodes.
    let down = Ray { origin: v(DVec3::new(30.0, 50.0, 0.0)), direction: v(DVec3::NEG_Y), time: s(0.0) };
    let (hit, tests) = walk(&node, &down, 0.001, f64::INFINITY);
    let hit = hit.unwrap();
    assert_eq!(f(hit.t), 49.0);
    assert_eq!(hit.face, Face::Front);
    assert_eq!(hit.material.emitted(hit.uv, hit.point).x.to_bits(), 10);
    assert!(tests < 20);
}

#[test]
fn the_right_child_is_asked_with_the_bound_of_the_left_hit() {
    let surface = |t: f64| Surface { t: s(t), point: Vec3::zero(), normal: Vec3::zero(), uv: Vec2::new(s(0.0), s(0.0)), face: Face::Front };
    let left = Some(HitRecord::new(surface(2.0), &PLAIN));
    assert_eq!(f(tighten(&left, s(9.0))), 2.0);
    assert_eq!(f(tighten(&left, s(1.0))), 1.0);
    assert_eq!(f(tighten(&None, s(9.0))), 9.0);
    let nowhere = Some(HitRecord::new(surface(f64::NAN), &PLAIN));
    assert_eq!(f(tighten(&nowhere, s(9.0))), 9.0);
    let right = Some(HitRecord::new(surface(1.5), &PLAIN));
    assert_eq!(f(prefer(right, left).unwrap().t), 1.5);
    assert_eq!(f(prefer(None, left).unwrap().t), 2.0);
    assert_eq!(f(prefer(right, None).unwrap().t), 1.5);
    assert!(prefer(None, None).is_none());
}
