use pathtracer::aabb::{Aabb, Slab};
use pathtracer::bvh::{arrange_span, sort_span, Bounded, BvhChild, BvhNode};
use pathtracer::hittable_list::HittableList;
use pathtracer::scalar::Scalar;
use pathtracer::vec3::Vec3;

fn s(x: f32) -> Scalar {
    Scalar::from_bits(x.to_bits())
}

fn f(x: Scalar) -> f32 {
    f32::from_bits(x.to_bits())
}

#[derive(Clone, Copy, Debug, PartialEq)]
struct Ball {
    id: usize,
    center: [f32; 3],
    radius: f32,
}

#[derive(Clone, Copy)]
struct Ray {
    orig: [f32; 3],
    dir: [f32; 3],
}

fn dot(a: [f32; 3], b: [f32; 3]) -> f32 {
    a[0] * b[0] + a[1] * b[1] + a[2] * b[2]
}

fn ball_box(b: &Ball) -> Aabb {
    Aabb::from(
        &Vec3::from(
            s(b.center[0] - b.radius),
            s(b.center[1] - b.radius),
            s(b.center[2] - b.radius),
        ),
        &Vec3::from(
            s(b.center[0] + b.radius),
            s(b.center[1] + b.radius),
            s(b.center[2] + b.radius),
        ),
    )
}

fn bounds_of(b: &Ball, _time0: Scalar, _time1: Scalar) -> Option<Aabb> {
    Some(ball_box(b))
}

fn hit_ball(b: &Ball, r: &Ray, t_min: Scalar, t_max: Scalar) -> Option<(Scalar, usize)> {
    let (t_min, t_max) = (f(t_min), f(t_max));
    let oc = [
        r.orig[0] - b.center[0],
        r.orig[1] - b.center[1],
        r.orig[2] - b.center[2],
    ];
    let a = dot(r.dir, r.dir);
    let half_b = dot(oc, r.dir);
    let c = dot(oc, oc) - b.radius * b.radius;
    let discriminant = half_b * half_b - a * c;
    if discriminant < 0.0 {
        return None;
    }
    let sqrtd = discriminant.sqrt();
    let mut root = (-half_b - sqrtd) / a;
    if root < t_min || t_max < root {
        root = (-half_b + sqrtd) / a;
        if root < t_min || t_max < root {
            return None;
        }
    }
    Some((s(root), b.id))
}

fn hit_box(b: &Aabb, r: &Ray, t_min: Scalar, t_max: Scalar) -> bool {
    let lo = [f(b.min().x()), f(b.min().y()), f(b.min().z())];
    let hi = [f(b.max().x()), f(b.max().y()), f(b.max().z())];
    let one = |i: usize| {
        let inv_d = 1.0 / r.dir[i];
        Slab {
            inv_d: s(inv_d),
            t0: s((lo[i] - r.orig[i]) * inv_d),
            t1: s((hi[i] - r.orig[i]) * inv_d),
        }
    };
    Aabb::hit(&[one(0), one(1), one(2)], t_min, t_max)
}

struct Lcg(u32);

impl Lcg {
    fn next(&mut self) -> f32 {
        self.0 = self.0.wrapping_mul(1664525).wrapping_add(1013904223);
        (self.0 >> 8) as f32 / 16777216.0
    }
}

fn scene(n: usize, seed: u32) -> HittableList<Ball> {
    let mut rng = Lcg(seed);
    let mut list = HittableList::new();
    for id in 0..n {
        list.add(Ball {
            id,
            center: [
                rng.next() * 20.0 - 10.0,
                rng.next() * 20.0 - 10.0,
                rng.next() * 20.0 - 10.0,
            ],
            radius: 0.2 + rng.next(),
        });
    }
    list
}

fn leaves(node: &BvhNode<Ball>, out: &mut Vec<Ball>) {
    for child in [&node.left, &node.right] {
        match child {
            BvhChild::Object(item) => out.push(item.object),
            BvhChild::Node(n) => leaves(n, out),
        }
    }
}

fn check_boxes(node: &BvhNode<Ball>) -> Aabb {
    let mut boxes = Vec::new();
    for child in [&node.left, &node.right] {
        boxes.push(match child {
            BvhChild::Object(item) => item.bounds,
            BvhChild::Node(n) => check_boxes(n),
        });
    }
    for c in 0..3 {
        let lo = f(boxes[0].min().get_at(c)).min(f(boxes[1].min().get_at(c)));
        let hi = f(boxes[0].max().get_at(c)).max(f(boxes[1].max().get_at(c)));
        assert_eq!(f(node.boxx.min().get_at(c)), lo);
        assert_eq!(f(node.boxx.max().get_at(c)), hi);
    }
    node.bounding_box()
}

#[test]
fn list_starts_empty_and_grows_in_order() {
    let mut list: HittableList<u32> = HittableList::new();
    assert!(list.objects.is_empty());
    list.add(7);
    list.add(3);
    list.add(7);
    assert_eq!(list.objects, vec![7, 3, 7]);
    list.clear();
    assert!(list.objects.is_empty());
}

#[test]
fn empty_list_has_no_bounds_and_no_hit() {
    let list: HittableList<Ball> = HittableList::new();
    assert!(list.bounding_box(s(0.0), s(1.0), bounds_of).is_none());
    let ray = Ray { orig: [0.0, 0.0, 0.0], dir: [0.0, 0.0, 1.0] };
    assert!(list.hit(&ray, s(0.001), s(f32::INFINITY), &hit_ball).is_none());
}

#[test]
fn list_bounds_are_the_union_of_the_members_bounds() {
    let mut list = HittableList::new();
    list.add(Ball { id: 0, center: [0.0, 0.0, 0.0], radius: 1.0 });
    list.add(Ball { id: 1, center: [5.0, -2.0, 0.5], radius: 2.0 });
    list.add(Ball { id: 2, center: [-1.0, 0.0, 9.0], radius: 0.5 });
    let b = list.bounding_box(s(0.0), s(1.0), bounds_of).unwrap();
    assert_eq!([f(b.min().x()), f(b.min().y()), f(b.min().z())], [-1.5, -4.0, -1.5]);
    assert_eq!([f(b.max().x()), f(b.max().y()), f(b.max().z())], [7.0, 1.0, 9.5]);
}

#[test]
fn list_without_bounds_for_one_member_has_none() {
    let mut list = HittableList::new();
    list.add(Ball { id: 0, center: [0.0, 0.0, 0.0], radius: 1.0 });
    list.add(Ball { id: 1, center: [5.0, -2.0, 0.5], radius: 2.0 });
    let b = list.bounding_box(s(0.0), s(1.0), |b: &Ball, _t0: Scalar, _t1: Scalar| {
        if b.id == 1 {
            None
        } else {
            Some(ball_box(b))
        }
    });
    assert!(b.is_none());
}

#[test]
fn list_reports_the_closest_hit() {
    let mut list = HittableList::new();
    list.add(Ball { id: 0, center: [0.0, 0.0, 10.0], radius: 1.0 });
    list.add(Ball { id: 1, center: [0.0, 0.0, 5.0], radius: 1.0 });
    list.add(Ball { id: 2, center: [0.0, 0.0, 20.0], radius: 1.0 });
    let ray = Ray { orig: [0.0, 0.0, 0.0], dir: [0.0, 0.0, 1.0] };
    let (t, id) = list.hit(&ray, s(0.001), s(f32::INFINITY), &hit_ball).unwrap();
    assert_eq!(f(t), 4.0);
    assert_eq!(id, 1);
    assert!(list.hit(&ray, s(0.001), s(3.0), &hit_ball).is_none());
    let (t, id) = list.hit(&ray, s(7.0), s(f32::INFINITY), &hit_ball).unwrap();
    assert_eq!(f(t), 9.0);
    assert_eq!(id, 0);
}

#[test]
fn list_keeps_the_later_of_two_equal_hits() {
    let mut list = HittableList::new();
    list.add(Ball { id: 0, center: [0.0, 0.0, 5.0], radius: 1.0 });
    list.add(Ball { id: 1, center: [0.0, 0.0, 5.0], radius: 1.0 });
    let ray = Ray { orig: [0.0, 0.0, 0.0], dir: [0.0, 0.0, 1.0] };
    let (t, id) = list.hit(&ray, s(0.001), s(f32::INFINITY), &hit_ball).unwrap();
    assert_eq!(f(t), 4.0);
    assert_eq!(id, 1);
}

#[test]
fn sort_span_orders_the_span_and_leaves_the_rest() {
    let balls = scene(40, 5);
    for axis in 0..3 {
        let mut items: Vec<Bounded<Ball>> = balls
            .objects
            .iter()
            .map(|b| Bounded { object: *b, bounds: ball_box(b) })
            .collect();
        let before: Vec<Ball> = items.iter().map(|i| i.object).collect();
        sort_span(&mut items, 5, 30, axis);
        let after: Vec<Ball> = items.iter().map(|i| i.object).collect();
        assert_eq!(after[..5], before[..5]);
        assert_eq!(after[30..], before[30..]);
        for k in 6..30 {
            assert!(
                f(items[k - 1].bounds.min().get_at(axis)) <= f(items[k].bounds.min().get_at(axis))
            );
        }
        let mut ids: Vec<usize> = after[5..30].iter().map(|b| b.id).collect();
        ids.sort();
        assert_eq!(ids, (5..30).collect::<Vec<usize>>());
    }
}

#[test]
fn arrange_span_puts_a_pair_in_order() {
    let a = Ball { id: 0, center: [3.0, 0.0, 0.0], radius: 1.0 };
    let b = Ball { id: 1, center: [-3.0, 0.0, 0.0], radius: 1.0 };
    let mut items = vec![
        Bounded { object: a, bounds: ball_box(&a) },
        Bounded { object: b, bounds: ball_box(&b) },
    ];
    arrange_span(&mut items, 0, 2, 0);
    assert_eq!(items[0].object.id, 1);
    assert_eq!(items[1].object.id, 0);
    arrange_span(&mut items, 0, 2, 0);
    assert_eq!(items[0].object.id, 1);
    assert_eq!(items[1].object.id, 0);
    arrange_span(&mut items, 0, 2, 1);
    assert_eq!(items[0].object.id, 0);
    assert_eq!(items[1].object.id, 1);
}

#[test]
fn hierarchy_over_one_object_has_it_on_both_sides() {
    let mut list = HittableList::new();
    let only = Ball { id: 0, center: [0.0, 0.0, 5.0], radius: 1.0 };
    list.add(only);
    let node = BvhNode::from(&list, s(0.0), s(1.0), bounds_of);
    let mut found = Vec::new();
    leaves(&node, &mut found);
    assert_eq!(found, vec![only, only]);
    let b = check_boxes(&node);
    assert_eq!([f(b.min().x()), f(b.min().y()), f(b.min().z())], [-1.0, -1.0, 4.0]);
    assert_eq!([f(b.max().x()), f(b.max().y()), f(b.max().z())], [1.0, 1.0, 6.0]);
    let ray = Ray { orig: [0.0, 0.0, 0.0], dir: [0.0, 0.0, 1.0] };
    let (t, id) = node.hit(&ray, s(0.001), s(f32::INFINITY), &hit_box, &hit_ball).unwrap();
    assert_eq!(f(t), 4.0);
    assert_eq!(id, 0);
}

#[test]
fn hierarchy_holds_every_object_and_bounds_its_children() {
    for n in [2usize, 3, 4, 5, 7, 8, 13, 64, 100] {
        let list = scene(n, n as u32);
        let node = BvhNode::from(&list, s(0.0), s(1.0), bounds_of);
        let mut found = Vec::new();
        leaves(&node, &mut found);
        let mut ids: Vec<usize> = found.iter().map(|b| b.id).collect();
        ids.sort();
        ids.dedup();
        assert_eq!(ids, (0..n).collect::<Vec<usize>>());
        let b = check_boxes(&node);
        for ball in list.objects.iter() {
            for c in 0..3 {
                assert!(f(b.min().get_at(c)) <= ball.center[c] - ball.radius);
                assert!(f(b.max().get_at(c)) >= ball.center[c] + ball.radius);
            }
        }
    }
}

#[test]
fn fromvec_builds_over_a_span_only() {
    let list = scene(20, 77);
    let mut items: Vec<Bounded<Ball>> = list
        .objects
        .iter()
        .map(|b| Bounded { object: *b, bounds: ball_box(b) })
        .collect();
    let node = BvhNode::fromvec(&mut items, 4, 11);
    for k in (0..4).chain(11..20) {
        assert_eq!(items[k].object.id, k);
    }
    let mut found = Vec::new();
    leaves(&node, &mut found);
    let mut ids: Vec<usize> = found.iter().map(|b| b.id).collect();
    ids.sort();
    ids.dedup();
    assert_eq!(ids, (4..11).collect::<Vec<usize>>());
    let in_order: Vec<usize> = items[4..11].iter().map(|i| i.object.id).collect();
    let mut leaf_order: Vec<usize> = found.iter().map(|b| b.id).collect();
    leaf_order.dedup();
    assert_eq!(leaf_order, in_order);
}

#[test]
fn hierarchy_reports_what_the_linear_scan_reports() {
    let list = scene(150, 4242);
    let node = BvhNode::from(&list, s(0.0), s(1.0), bounds_of);
    let mut rng = Lcg(1);
    let mut hits = 0;
    for _ in 0..3000 {
        let ray = Ray {
            orig: [
                rng.next() * 30.0 - 15.0,
                rng.next() * 30.0 - 15.0,
                rng.next() * 30.0 - 15.0,
            ],
            dir: [rng.next() - 0.5, rng.next() - 0.5, rng.next() - 0.5],
        };
        let scan = list.hit(&ray, s(0.001), s(f32::INFINITY), &hit_ball);
        let tree = node.hit(&ray, s(0.001), s(f32::INFINITY), &hit_box, &hit_ball);
        match (scan, tree) {
            (Some((t0, id0)), Some((t1, id1))) => {
                hits += 1;
                assert_eq!(f(t0), f(t1));
                assert_eq!(id0, id1);
            }
            (None, None) => {}
            _ => panic!("the searches disagree"),
        }
    }
    assert!(hits > 300);
}
