use rts::bounding_tree::BoundingTree;
use rts::geom::Point3;
use rts::selection::Selection;
use rts::selector::{ScreenRect, Vec2i};
use rts::unproject::{rect_sightlines, select_rect, sightline, unproject, Mat4i, Screen};

fn p(x: i64, y: i64, z: i64) -> Point3 {
    Point3::new(x, y, z)
}

const SCREEN: Screen = Screen { width: 400, height: 400 };

/// Clip space scaled by 100 on x, y and z.
fn scaled() -> Mat4i {
    Mat4i { m: [100, 0, 0, 0, 0, 100, 0, 0, 0, 0, 100, 0, 0, 0, 0, 1] }
}

/// A camera at the origin looking along +z: pixel (px, py) of a 400 x 400
/// screen sees (px - 200, 200 - py, 100) near and ten times that far.
fn camera() -> Mat4i {
    Mat4i { m: [2000, 0, 0, 0, 0, 2000, 0, 0, 0, 0, 0, 1000, 0, 0, -9, 10] }
}

#[test]
fn centre_pixel_unprojects_to_axis() {
    assert_eq!(unproject(&scaled(), SCREEN, 200, 200, 0), Some(p(0, 0, 0)));
    assert_eq!(unproject(&scaled(), SCREEN, 200, 200, 1), Some(p(0, 0, 100)));
}

#[test]
fn screen_y_runs_down_clip_y_up() {
    assert_eq!(unproject(&scaled(), SCREEN, 0, 0, 0), Some(p(-100, 100, 0)));
    assert_eq!(unproject(&scaled(), SCREEN, 400, 400, 0), Some(p(100, -100, 0)));
    assert_eq!(unproject(&scaled(), SCREEN, 100, 300, 1), Some(p(-50, -50, 100)));
}

#[test]
fn coordinates_round_down() {
    // x = 2 * 1 / 400 - 1 = -0.995, times 100: -99.5.
    assert_eq!(unproject(&scaled(), SCREEN, 1, 200, 0), Some(p(-100, 0, 0)));
    // x = 0.005, times 100: 0.5.
    assert_eq!(unproject(&scaled(), SCREEN, 201, 200, 0), Some(p(0, 0, 0)));
}

#[test]
fn perspective_divide_by_w() {
    let s = sightline(&camera(), SCREEN, 100, 300).unwrap();
    assert_eq!(s.near, p(-100, -100, 100));
    assert_eq!(s.far, p(-1000, -1000, 1000));
}

#[test]
fn zero_w_cannot_unproject() {
    let flat = Mat4i { m: [1, 0, 0, 0, 0, 1, 0, 0, 0, 0, 1, 0, 0, 0, 0, 0] };
    assert_eq!(unproject(&flat, SCREEN, 10, 10, 0), None);
    assert_eq!(sightline(&flat, SCREEN, 10, 10), None);
}

#[test]
fn far_off_points_are_refused() {
    let huge = Mat4i { m: [2147483648, 0, 0, 0, 0, 1, 0, 0, 0, 0, 1, 0, 0, 0, 0, 1] };
    assert_eq!(unproject(&huge, SCREEN, 0, 0, 0), None);
}

#[test]
fn rectangle_corners_unproject_in_order() {
    let rect = ScreenRect { pos: Vec2i::new(100, 100), width: 200, height: 100 };
    let (c0, c1, c2, c3) = rect_sightlines(&camera(), SCREEN, &rect).unwrap();
    assert_eq!(c0.near, p(-100, 100, 100));
    assert_eq!(c1.near, p(100, 100, 100));
    assert_eq!(c2.near, p(100, 0, 100));
    assert_eq!(c3.near, p(-100, 0, 100));
}

#[test]
fn drag_resolved_through_unprojection() {
    let mut t = BoundingTree::new();
    t.update_entity(1, p(-10, 10, 150), p(10, 30, 160));
    t.update_entity(2, p(-10, -100, 150), p(10, -80, 160));
    t.refresh();
    let mut selection = Selection::new();
    let rect = ScreenRect::from_drag(Vec2i::new(300, 200), Vec2i::new(100, 100));
    assert!(select_rect(&t, &camera(), SCREEN, &rect, &mut selection));
    assert!(selection.is_selected(1));
    assert!(!selection.is_selected(2));
    // A click at (200, 180) looks straight through entity 1.
    let click = ScreenRect::from_drag(Vec2i::new(200, 180), Vec2i::new(200, 180));
    assert!(!select_rect(&t, &camera(), SCREEN, &click, &mut selection));
    assert!(selection.is_selected(1));
    // A click on empty ground clears it.
    let miss = ScreenRect::from_drag(Vec2i::new(390, 390), Vec2i::new(390, 390));
    assert!(!select_rect(&t, &camera(), SCREEN, &miss, &mut selection));
    assert!(selection.entities().is_empty());
}

#[test]
fn failed_unprojection_clears_selection() {
    let mut t = BoundingTree::new();
    t.update_entity(1, p(-10, 10, 150), p(10, 30, 160));
    let mut selection = Selection::new();
    selection.mark_all(&vec![1]);
    let flat = Mat4i { m: [1, 0, 0, 0, 0, 1, 0, 0, 0, 0, 1, 0, 0, 0, 0, 0] };
    let rect = ScreenRect::from_drag(Vec2i::new(0, 0), Vec2i::new(10, 10));
    assert!(!select_rect(&t, &flat, SCREEN, &rect, &mut selection));
    assert!(!selection.is_selected(1));
}
