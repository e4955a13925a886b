use rts::bounding_tree::BoundingTree;
use rts::frustum::{Frustum, Sightline};
use rts::geom::{ray_hits_box, Aabb, Plane, Point3, Ray3};
use rts::publisher::{publish, world_bounds, DirtyEntity, Transform3D};

fn p(x: i64, y: i64, z: i64) -> Point3 {
    Point3::new(x, y, z)
}

fn ray(o: Point3, d: Point3) -> Ray3 {
    Ray3 { origin: o, dir: d }
}

fn sorted(mut v: Vec<u64>) -> Vec<u64> {
    v.sort();
    v
}

/// Sightlines of a camera at the origin looking along +z, for the screen
/// rectangle spanning `x0..x1`, `y1..y0` (y up) on the near plane `z = 10`.
fn view_sightlines(x0: i64, y0: i64, x1: i64, y1: i64) -> [Sightline; 4] {
    let s = |x: i64, y: i64| Sightline { near: p(x, y, 10), far: p(x * 100, y * 100, 1000) };
    [s(x0, y0), s(x1, y0), s(x1, y1), s(x0, y1)]
}

#[test]
fn box_corners_are_put_in_order() {
    let b = Aabb::from_corners(p(3, -1, 7), p(-2, 4, 7));
    assert_eq!(b.min, p(-2, -1, 7));
    assert_eq!(b.max, p(3, 4, 7));
}

#[test]
fn ray_along_z_hits_box_it_passes_through() {
    let b = Aabb::from_corners(p(0, 0, 0), p(2, 2, 2));
    assert!(ray_hits_box(&ray(p(1, 1, -10), p(0, 0, 1)), &b));
    assert!(!ray_hits_box(&ray(p(10, 10, -10), p(0, 0, 1)), &b));
}

#[test]
fn ray_pointing_away_misses() {
    let b = Aabb::from_corners(p(0, 0, 0), p(2, 2, 2));
    assert!(!ray_hits_box(&ray(p(1, 1, -10), p(0, 0, -1)), &b));
    assert!(ray_hits_box(&ray(p(1, 1, 10), p(0, 0, -3)), &b));
}

#[test]
fn ray_starting_inside_hits() {
    let b = Aabb::from_corners(p(0, 0, 0), p(2, 2, 2));
    assert!(ray_hits_box(&ray(p(1, 1, 1), p(5, -7, 3)), &b));
}

#[test]
fn diagonal_ray_needs_overlapping_slabs() {
    let b = Aabb::from_corners(p(0, 0, 0), p(2, 2, 2));
    // Through (1, 1, 1) at t = 1.
    assert!(ray_hits_box(&ray(p(-1, -1, -1), p(2, 2, 2)), &b));
    // Enters the x slab for t in [3, 5] and the y slab for t in [0, 2].
    assert!(!ray_hits_box(&ray(p(-3, 0, 1), p(1, 1, 0)), &b));
}

#[test]
fn ray_grazing_a_flat_box_hits() {
    let flat = Aabb::from_corners(p(0, 0, 5), p(4, 4, 5));
    assert!(ray_hits_box(&ray(p(2, 2, 0), p(0, 0, 1)), &flat));
    assert!(!ray_hits_box(&ray(p(2, 2, 6), p(0, 0, 1)), &flat));
}

#[test]
fn plane_through_three_points() {
    let pl = Plane::through(p(0, 0, 0), p(1, 0, 0), p(0, 1, 0));
    assert_eq!((pl.nx, pl.ny, pl.nz, pl.d), (0, 0, 1, 0));
    let pl = Plane::through(p(0, 0, 3), p(0, 1, 3), p(1, 0, 3));
    assert_eq!((pl.nx, pl.ny, pl.nz, pl.d), (0, 0, -1, 3));
    let degenerate = Plane::through(p(1, 1, 1), p(2, 2, 2), p(3, 3, 3));
    assert_eq!((degenerate.nx, degenerate.ny, degenerate.nz, degenerate.d), (0, 0, 0, 0));
}

#[test]
fn plane_touches_uses_farthest_corner() {
    let pl = Plane { nx: 0, ny: 0, nz: 1, d: -5 };
    assert!(pl.touches(&Aabb::from_corners(p(0, 0, 0), p(1, 1, 5))));
    assert!(!pl.touches(&Aabb::from_corners(p(0, 0, 0), p(1, 1, 4))));
}

#[test]
fn frustum_faces_point_inwards() {
    let [c0, c1, c2, c3] = view_sightlines(-10, 10, 10, -10);
    let f = Frustum::from_sightlines(c0, c1, c2, c3).unwrap();
    assert!(f.test_box(&Aabb::from_corners(p(-1, -1, 100), p(1, 1, 110))));
    assert!(!f.test_box(&Aabb::from_corners(p(500, 500, 100), p(510, 510, 110))));
    assert!(!f.test_box(&Aabb::from_corners(p(-1, -1, 2000), p(1, 1, 2010))));
    assert!(!f.test_box(&Aabb::from_corners(p(-1, -1, 0), p(1, 1, 5))));
    // Straddling the right face still counts.
    assert!(f.test_box(&Aabb::from_corners(p(90, 0, 100), p(150, 1, 101))));
}

#[test]
fn frustum_of_click_is_degenerate() {
    let s = Sightline { near: p(3, 4, 10), far: p(300, 400, 1000) };
    assert_eq!(Frustum::from_sightlines(s, s, s, s), None);
}

#[test]
fn frustum_of_zero_width_drag_is_degenerate() {
    let [c0, c1, c2, c3] = view_sightlines(5, 10, 5, -10);
    assert_eq!(Frustum::from_sightlines(c0, c1, c2, c3), None);
}

#[test]
fn empty_index_answers_nothing() {
    let mut t = BoundingTree::new();
    assert!(t.test_ray(&ray(p(0, 0, 0), p(0, 0, 1))).is_empty());
    let [c0, c1, c2, c3] = view_sightlines(-10, 10, 10, -10);
    let f = Frustum::from_sightlines(c0, c1, c2, c3).unwrap();
    assert!(t.test_frustum(&f).is_empty());
    t.refresh();
    assert!(t.test_ray(&ray(p(0, 0, 0), p(0, 0, 1))).is_empty());
    assert!(t.test_frustum(&f).is_empty());
}

#[test]
fn index_finds_entity_hit_by_ray() {
    let mut t = BoundingTree::new();
    t.update_entity(1, p(0, 0, 0), p(2, 2, 2));
    t.update_entity(2, p(20, 20, 0), p(22, 22, 2));
    t.refresh();
    assert_eq!(t.test_ray(&ray(p(1, 1, -10), p(0, 0, 1))), vec![1]);
    assert!(t.test_ray(&ray(p(10, 10, -10), p(0, 0, 1))).is_empty());
    assert_eq!(sorted(t.test_ray(&ray(p(-10, -10, 1), p(1, 1, 0)))), vec![1, 2]);
}

#[test]
fn update_twice_with_same_bounds_is_update_once() {
    let mut once = BoundingTree::new();
    once.update_entity(7, p(0, 0, 0), p(2, 2, 2));
    once.refresh();
    let mut twice = BoundingTree::new();
    twice.update_entity(7, p(0, 0, 0), p(2, 2, 2));
    twice.update_entity(7, p(2, 2, 2), p(0, 0, 0));
    twice.refresh();
    for r in [ray(p(1, 1, -10), p(0, 0, 1)), ray(p(5, 5, -10), p(0, 0, 1))] {
        assert_eq!(once.test_ray(&r), twice.test_ray(&r));
    }
}

#[test]
fn queries_follow_moved_bounds_after_refresh() {
    let mut t = BoundingTree::new();
    t.update_entity(3, p(0, 0, 0), p(2, 2, 2));
    t.refresh();
    let old_spot = ray(p(1, 1, -10), p(0, 0, 1));
    let new_spot = ray(p(51, 51, -10), p(0, 0, 1));
    assert_eq!(t.test_ray(&old_spot), vec![3]);
    t.update_entity(3, p(50, 50, 0), p(52, 52, 2));
    // Before the refresh the query already sees the new bounds ...
    assert_eq!(t.test_ray(&new_spot), vec![3]);
    t.refresh();
    // ... and after it too; nothing stale is left behind.
    assert_eq!(t.test_ray(&new_spot), vec![3]);
    assert!(t.test_ray(&old_spot).is_empty());
}

#[test]
fn frustum_query_returns_only_inside_entity() {
    let mut t = BoundingTree::new();
    t.update_entity(1, p(-1, -1, 100), p(1, 1, 110));
    t.update_entity(2, p(500, 500, 100), p(510, 510, 110));
    t.refresh();
    let [c0, c1, c2, c3] = view_sightlines(-10, 10, 10, -10);
    let f = Frustum::from_sightlines(c0, c1, c2, c3).unwrap();
    assert_eq!(t.test_frustum(&f), vec![1]);
}

#[test]
fn world_bounds_translate() {
    let local = Aabb::from_corners(p(0, 0, 0), p(1, 2, 3));
    let t = Transform3D::translation(p(10, 20, 30));
    assert_eq!(world_bounds(&local, &t), Some(Aabb::from_corners(p(10, 20, 30), p(11, 22, 33))));
}

#[test]
fn world_bounds_rotate_all_corners() {
    let local = Aabb::from_corners(p(0, 0, 0), p(1, 2, 3));
    // A quarter turn about z: (x, y, z) -> (-y, x, z).
    let t = Transform3D { m: [0, -1, 0, 1, 0, 0, 0, 0, 1], t: p(0, 0, 0) };
    assert_eq!(world_bounds(&local, &t), Some(Aabb::from_corners(p(-2, 0, 0), p(0, 1, 3))));
    // Scaling past the coordinate range gives nothing.
    let big = Transform3D { m: [1, 0, 0, 0, 1048576, 0, 0, 0, 1], t: p(0, 0, 0) };
    assert_eq!(world_bounds(&local, &big), None);
}

#[test]
fn publish_updates_index_and_lists_processed() {
    let mut t = BoundingTree::new();
    let cube = Aabb::from_corners(p(0, 0, 0), p(1, 1, 1));
    let dirty = vec![
        DirtyEntity { e: 4, local: cube, transform: Transform3D::translation(p(5, 5, 5)) },
        DirtyEntity { e: 9, local: cube, transform: Transform3D::translation(p(-5, -5, -5)) },
    ];
    let cleared = publish(&mut t, &dirty);
    assert_eq!(cleared, vec![4, 9]);
    assert_eq!(t.test_ray(&ray(p(5, 5, -10), p(0, 0, 1))), vec![4]);
    assert_eq!(t.test_ray(&ray(p(-5, -5, -10), p(0, 0, 1))), vec![9]);
    assert!(t.test_ray(&ray(p(0, 0, -10), p(0, 0, 1))).is_empty());
}

/// Forty unit boxes along x, ten apart: entity `k` spans x from 10k to 10k + 1.
fn row_of_boxes() -> BoundingTree {
    let mut t = BoundingTree::new();
    for k in 0..40i64 {
        t.update_entity(k as u64, p(10 * k, 0, 0), p(10 * k + 1, 1, 1));
    }
    t
}

#[test]
fn many_entities_found_before_and_after_refresh() {
    let mut t = row_of_boxes();
    let down = |x: i64| ray(p(x, 0, 10), p(0, 0, -1));
    assert_eq!(t.test_ray(&down(250)), vec![25]);
    t.refresh();
    assert_eq!(t.test_ray(&down(250)), vec![25]);
    assert_eq!(t.test_ray(&down(391)), vec![39]);
    assert!(t.test_ray(&down(395)).is_empty());
    let along = ray(p(-5, 0, 0), p(1, 0, 0));
    assert_eq!(sorted(t.test_ray(&along)), (0..40).collect::<Vec<u64>>());
}

#[test]
fn moved_entity_leaves_its_group_bound() {
    let mut t = row_of_boxes();
    t.refresh();
    // Entity 3 jumps far away; its group is refitted only on refresh, but
    // both before and after the query answers by the new box.
    t.update_entity(3, p(5000, 5000, 0), p(5001, 5001, 1));
    let down = |x: i64, y: i64| ray(p(x, y, 10), p(0, 0, -1));
    assert_eq!(t.test_ray(&down(5000, 5000)), vec![3]);
    assert!(t.test_ray(&down(30, 0)).is_empty());
    t.refresh();
    assert_eq!(t.test_ray(&down(5000, 5000)), vec![3]);
    assert!(t.test_ray(&down(30, 0)).is_empty());
    assert_eq!(t.test_ray(&down(40, 0)), vec![4]);
}

#[test]
fn frustum_query_over_many_groups() {
    let mut t = BoundingTree::new();
    for k in 0..40i64 {
        t.update_entity(k as u64, p(10 * k - 200, 0, 100), p(10 * k - 199, 1, 101));
    }
    t.refresh();
    let [c0, c1, c2, c3] = view_sightlines(-10, 10, 10, -10);
    let f = Frustum::from_sightlines(c0, c1, c2, c3).unwrap();
    // At depth 100 the frustum spans x from -100 to 100.
    assert_eq!(sorted(t.test_frustum(&f)), (10..31).collect::<Vec<u64>>());
}

#[test]
fn publish_keeps_marker_of_unplaceable_entity() {
    let mut t = BoundingTree::new();
    let cube = Aabb::from_corners(p(0, 0, 0), p(1, 1, 1));
    let far = Transform3D::translation(p(1048576, 0, 0));
    let dirty = vec![
        DirtyEntity { e: 1, local: cube, transform: far },
        DirtyEntity { e: 2, local: cube, transform: Transform3D::translation(p(5, 5, 5)) },
    ];
    assert_eq!(publish(&mut t, &dirty), vec![2]);
    assert!(t.test_ray(&ray(p(1048576, 0, -10), p(0, 0, 1))).is_empty());
    assert_eq!(t.test_ray(&ray(p(5, 5, -10), p(0, 0, 1))), vec![2]);
}
