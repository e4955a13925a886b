use rts::bounding_tree::BoundingTree;
use rts::frustum::Sightline;
use rts::geom::Point3;
use rts::selection::{resolve_selection, Selection};
use rts::selector::{Mode, MouseState, ScreenRect, Selector, SelectorEvent, SelectorState, Vec2i};

fn p(x: i64, y: i64, z: i64) -> Point3 {
    Point3::new(x, y, z)
}

fn mouse(x: i32, y: i32, pressed: bool, released: bool) -> MouseState {
    let mut m = MouseState::default();
    m.pos = Vec2i::new(x, y);
    m.pressed[0] = pressed;
    m.released[0] = released;
    m.down[0] = pressed;
    m
}

/// A 400 x 400 screen looking along +z from the origin: pixel (px, py)
/// unprojects to (x, y, 100) on the near plane and ten times that far off.
fn sight(px: i64, py: i64) -> Sightline {
    let x = px - 200;
    let y = 200 - py;
    Sightline { near: p(x, y, 100), far: p(10 * x, 10 * y, 1000) }
}

fn sightlines(rect: &ScreenRect) -> [Sightline; 4] {
    let c = rect.corners();
    [sight(c[0].0, c[0].1), sight(c[1].0, c[1].1), sight(c[2].0, c[2].1), sight(c[3].0, c[3].1)]
}

fn drag(sel: &mut Selector, from: (i32, i32), to: (i32, i32)) -> ScreenRect {
    assert_eq!(sel.step(Mode::RTS, &mouse(from.0, from.1, true, false), 42), SelectorEvent::Started { anchor: 42 });
    sel.step(Mode::RTS, &mouse(to.0, to.1, false, false), 0);
    sel.step(Mode::RTS, &mouse(to.0, to.1, false, true), 0);
    let (anchor, rect) = sel.take_confirmed().unwrap();
    assert_eq!(anchor, 42);
    assert_eq!(sel.state, SelectorState::Idle);
    rect
}

fn scene() -> BoundingTree {
    let mut t = BoundingTree::new();
    // In front of the camera, above the horizon.
    t.update_entity(1, p(-10, 10, 150), p(10, 30, 160));
    // Same depth, below the horizon.
    t.update_entity(2, p(-10, -100, 150), p(10, -80, 160));
    t.refresh();
    t
}

#[test]
fn drag_rectangle_is_normalised() {
    let r = ScreenRect::from_drag(Vec2i::new(300, 50), Vec2i::new(100, 200));
    assert_eq!(r, ScreenRect { pos: Vec2i::new(100, 50), width: 200, height: 150 });
    let r = ScreenRect::from_drag(Vec2i::new(10, 90), Vec2i::new(40, 20));
    assert_eq!(r, ScreenRect { pos: Vec2i::new(10, 20), width: 30, height: 70 });
    let r = ScreenRect::from_drag(Vec2i::new(-5, 7), Vec2i::new(-5, 7));
    assert_eq!(r, ScreenRect { pos: Vec2i::new(-5, 7), width: 0, height: 0 });
    let r = ScreenRect::from_drag(Vec2i::new(i32::MAX, i32::MIN), Vec2i::new(i32::MIN, i32::MAX));
    assert_eq!(r, ScreenRect { pos: Vec2i::new(i32::MIN, i32::MIN), width: u32::MAX, height: u32::MAX });
}

#[test]
fn rectangle_corners_go_round_clockwise() {
    let r = ScreenRect { pos: Vec2i::new(100, 50), width: 200, height: 150 };
    assert_eq!(r.corners(), [(100, 50), (300, 50), (300, 200), (100, 200)]);
}

#[test]
fn selector_walks_idle_dragging_confirmed() {
    let mut sel = Selector::default();
    let idle = mouse(5, 5, false, false);
    assert!(!sel.needs_anchor(Mode::RTS, &idle));
    assert_eq!(sel.step(Mode::RTS, &idle, 0), SelectorEvent::Nothing);
    let press = mouse(100, 100, true, false);
    assert!(sel.needs_anchor(Mode::RTS, &press));
    assert!(!sel.needs_anchor(Mode::Free, &press));
    assert_eq!(sel.step(Mode::RTS, &press, 42), SelectorEvent::Started { anchor: 42 });
    assert_eq!(sel.state, SelectorState::Dragging { anchor: 42, start: Vec2i::new(100, 100) });
    assert_eq!(sel.take_confirmed(), None);
    let ev = sel.step(Mode::RTS, &mouse(60, 130, false, false), 0);
    let rect = ScreenRect { pos: Vec2i::new(60, 100), width: 40, height: 30 };
    assert_eq!(ev, SelectorEvent::Resized { anchor: 42, rect });
    let ev = sel.step(Mode::RTS, &mouse(60, 130, false, true), 0);
    assert_eq!(ev, SelectorEvent::Resized { anchor: 42, rect });
    assert_eq!(sel.state, SelectorState::Confirmed { anchor: 42, rect });
    assert_eq!(sel.take_confirmed(), Some((42, rect)));
    assert_eq!(sel.state, SelectorState::Idle);
}

#[test]
fn selector_ignores_other_camera_modes() {
    let mut sel = Selector::default();
    assert_eq!(sel.step(Mode::Orbital, &mouse(1, 1, true, false), 42), SelectorEvent::Nothing);
    assert_eq!(sel.state, SelectorState::Idle);
}

#[test]
fn drag_selects_only_entity_inside_frustum() {
    let t = scene();
    let mut sel = Selector::default();
    let rect = drag(&mut sel, (300, 200), (100, 100));
    let [c0, c1, c2, c3] = sightlines(&rect);
    let mut selection = Selection::new();
    let used_frustum = resolve_selection(&t, c0, c1, c2, c3, &mut selection);
    assert!(used_frustum);
    assert!(selection.is_selected(1));
    assert!(!selection.is_selected(2));
}

#[test]
fn click_uses_rays_and_skips_frustum() {
    let t = scene();
    let mut sel = Selector::default();
    // Pixel (200, 180) looks along (0, 20, 100): through (0, 30, 150).
    let rect = drag(&mut sel, (200, 180), (200, 180));
    assert_eq!((rect.width, rect.height), (0, 0));
    let [c0, c1, c2, c3] = sightlines(&rect);
    let mut selection = Selection::new();
    let used_frustum = resolve_selection(&t, c0, c1, c2, c3, &mut selection);
    assert!(!used_frustum);
    assert!(selection.is_selected(1));
    assert!(!selection.is_selected(2));
}

#[test]
fn second_click_elsewhere_clears_selection() {
    let t = scene();
    let mut sel = Selector::default();
    let mut selection = Selection::new();
    let rect = drag(&mut sel, (300, 200), (100, 100));
    let [c0, c1, c2, c3] = sightlines(&rect);
    resolve_selection(&t, c0, c1, c2, c3, &mut selection);
    assert!(selection.is_selected(1));
    let rect = drag(&mut sel, (390, 390), (390, 390));
    let [c0, c1, c2, c3] = sightlines(&rect);
    resolve_selection(&t, c0, c1, c2, c3, &mut selection);
    assert!(!selection.is_selected(1));
    assert!(!selection.is_selected(2));
    assert!(selection.entities().is_empty());
}

#[test]
fn selection_marks_accumulate_within_one_sweep() {
    let mut s = Selection::new();
    s.mark_all(&vec![3, 4]);
    s.mark_all(&vec![4, 5]);
    let mut all = s.entities();
    all.sort();
    all.dedup();
    assert_eq!(all, vec![3, 4, 5]);
    s.clear();
    assert!(!s.is_selected(4));
}

#[test]
fn mouse_snapshot_getters() {
    let mut m = MouseState::default();
    assert_eq!(m.position(), Vec2i::new(0, 0));
    assert!(!m.is_pressed(0) && !m.is_released(1) && !m.is_down(2));
    m.pos = Vec2i::new(7, -3);
    m.pressed[1] = true;
    m.released[2] = true;
    m.down[7] = true;
    assert_eq!(m.position(), Vec2i::new(7, -3));
    assert!(m.is_pressed(1) && !m.is_pressed(0));
    assert!(m.is_released(2) && !m.is_released(1));
    assert!(m.is_down(7) && !m.is_down(0));
}

#[test]
fn camera_modes_cycle() {
    assert_eq!(Mode::RTS.next(), Mode::Free);
    assert_eq!(Mode::Free.next(), Mode::Orbital);
    assert_eq!(Mode::Orbital.next(), Mode::RTS);
}
