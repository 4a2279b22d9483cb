use raytrace_core::aabb::{Aabb, Point};
use raytrace_core::bvh::{build, sort_on_axis, BvhTree};

fn cube(lo: i64, hi: i64) -> Aabb {
    Aabb::new(Point::new(lo, lo, lo), Point::new(hi, hi, hi))
}

fn leaves(t: &BvhTree, out: &mut Vec<usize>) {
    match t {
        BvhTree::Leaf(i) => out.push(*i),
        BvhTree::Node { left, right, .. } => {
            leaves(left, out);
            leaves(right, out);
        }
    }
}

fn check_boxes(t: &BvhTree, boxes: &Vec<Aabb>) -> Aabb {
    match t {
        BvhTree::Leaf(i) => boxes[*i],
        BvhTree::Node { axis, bbox, left, right } => {
            assert!(*axis < 3);
            let l = check_boxes(left, boxes);
            let r = check_boxes(right, boxes);
            assert_eq!(*bbox, l.surround(&r));
            *bbox
        }
    }
}

#[test]
fn surround_takes_extremes() {
    let a = Aabb::new(Point::new(0, 5, -3), Point::new(2, 6, 1));
    let b = Aabb::new(Point::new(-1, 7, -2), Point::new(1, 9, 4));
    let s = a.surround(&b);
    assert_eq!(s, Aabb::new(Point::new(-1, 5, -3), Point::new(2, 9, 4)));
    assert_eq!(b.surround(&a), s);
}

#[test]
fn surround_of_nested_box_is_outer() {
    let outer = cube(-10, 10);
    let inner = cube(-1, 1);
    assert_eq!(outer.surround(&inner), outer);
    assert_eq!(inner.surround(&outer), outer);
    assert_eq!(inner.surround(&inner), inner);
}

#[test]
fn enclosing_box_of_corners() {
    let points = vec![
        Point::new(3, 0, -4),
        Point::new(-2, 8, 1),
        Point::new(5, -6, 0),
    ];
    let b = Aabb::enclosing(&points);
    assert_eq!(b, Aabb::new(Point::new(-2, -6, -4), Point::new(5, 8, 1)));
    let single = Aabb::enclosing(&vec![Point::new(1, 2, 3)]);
    assert_eq!(single, Aabb::new(Point::new(1, 2, 3), Point::new(1, 2, 3)));
}

#[test]
fn point_axes() {
    let p = Point::new(4, -5, 6);
    assert_eq!(p.on_axis(0), 4);
    assert_eq!(p.on_axis(1), -5);
    assert_eq!(p.on_axis(2), 6);
}

#[test]
fn sort_orders_by_minimum_corner() {
    let boxes = vec![
        Aabb::new(Point::new(5, 0, 9), Point::new(6, 1, 10)),
        Aabb::new(Point::new(1, 3, 2), Point::new(2, 4, 3)),
        Aabb::new(Point::new(3, 2, 0), Point::new(4, 3, 1)),
    ];
    let mut items = vec![0, 1, 2];
    sort_on_axis(&mut items, &boxes, 0);
    assert_eq!(items, vec![1, 2, 0]);
    sort_on_axis(&mut items, &boxes, 1);
    assert_eq!(items, vec![0, 2, 1]);
    sort_on_axis(&mut items, &boxes, 2);
    assert_eq!(items, vec![2, 1, 0]);
}

#[test]
fn sort_keeps_equal_keys_in_order() {
    let boxes = vec![cube(1, 2), cube(0, 2), cube(1, 3), cube(0, 1)];
    let mut items = vec![0, 1, 2, 3];
    sort_on_axis(&mut items, &boxes, 0);
    assert_eq!(items, vec![1, 3, 0, 2]);
}

#[test]
fn bvh_single_primitive_twice() {
    let boxes = vec![cube(0, 1)];
    let t = build(&boxes);
    match &t {
        BvhTree::Node { bbox, left, right, .. } => {
            assert!(matches!(**left, BvhTree::Leaf(0)));
            assert!(matches!(**right, BvhTree::Leaf(0)));
            assert_eq!(*bbox, cube(0, 1));
        }
        BvhTree::Leaf(_) => panic!("the root is a node"),
    }
}

#[test]
fn bvh_two_primitives_as_leaves() {
    let boxes = vec![cube(4, 5), cube(0, 1)];
    let t = build(&boxes);
    match &t {
        BvhTree::Node { bbox, left, right, .. } => {
            assert!(matches!(**left, BvhTree::Leaf(1)));
            assert!(matches!(**right, BvhTree::Leaf(0)));
            assert_eq!(*bbox, cube(0, 5));
        }
        BvhTree::Leaf(_) => panic!("the root is a node"),
    }
}

#[test]
fn bvh_covers_every_primitive_once() {
    let boxes: Vec<Aabb> = (0..37).map(|i| cube(3 * i, 3 * i + 2)).collect();
    let t = build(&boxes);
    let mut seen = Vec::new();
    leaves(&t, &mut seen);
    seen.sort();
    seen.dedup();
    assert_eq!(seen, (0..37).collect::<Vec<usize>>());
    let root = check_boxes(&t, &boxes);
    assert_eq!(root, cube(0, 110));
    assert_eq!(t.bounding_box(&boxes), root);
}

#[test]
fn bvh_splits_sorted_halves() {
    let boxes: Vec<Aabb> = (0..8).rev().map(|i| cube(10 * i, 10 * i + 1)).collect();
    let t = build(&boxes);
    let mut order = Vec::new();
    leaves(&t, &mut order);
    assert_eq!(order, vec![7, 6, 5, 4, 3, 2, 1, 0]);
}
