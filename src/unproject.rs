use vstd::prelude::*;

use crate::bounding_tree::BoundingTree;
use crate::frustum::Sightline;
use crate::geom::{coord_ok, lemma_product_bound, Point3};
use crate::selection::{picked_set, resolve_selection, Selection};
use crate::selector::ScreenRect;

verus! {

/// The window size in pixels.
#[derive(Clone, Copy, Debug, PartialEq, Eq, Structural)]
pub struct Screen {
    pub width: u32,
    pub height: u32,
}

pub const SCREEN_LIMIT: u32 = 65536;

/// Largest pixel coordinate magnitude accepted (a rectangle corner may lie
/// well off screen).
pub const PIXEL_LIMIT: i64 = 17179869184;

/// Largest entry magnitude of an integer matrix.
pub const ENTRY_LIMIT: i64 = 2147483648;

impl Screen {
    pub open spec fn wf(self) -> bool {
        1 <= self.width <= SCREEN_LIMIT && 1 <= self.height <= SCREEN_LIMIT
    }
}

/// A 4x4 integer matrix, entry (r, c) at `m[4 * r + c]`. As a map of
/// homogeneous points it means the same under any positive scaling, so a
/// fixed-point copy of a real matrix works as well as the real one.
#[derive(Clone, Copy, Debug)]
pub struct Mat4i {
    pub m: [i64; 16],
}

impl Mat4i {
    pub open spec fn wf(self) -> bool {
        forall|i: int| 0 <= i < 16 ==> -ENTRY_LIMIT <= #[trigger] self.m@[i] <= ENTRY_LIMIT
    }

    /// Row `r` of the matrix applied to the point `(x, y, z, w)`.
    pub open spec fn row(self, r: int, x: int, y: int, z: int, w: int) -> int {
        self.m@[4 * r] * x + self.m@[4 * r + 1] * y + self.m@[4 * r + 2] * z + self.m@[4 * r + 3] * w
    }
}

/// `num / den` rounded down, with the sign of the denominator moved to the
/// numerator first.
pub open spec fn floor_div(num: int, den: int) -> int {
    if den > 0 {
        num / den
    } else {
        (-num) / (-den)
    }
}

/// The world point that the matrix `inv` (the inverse of projection times
/// view) takes the screen pixel `(px, py)` to, at clip-space depth `depth`.
/// The pixel goes to normalised device coordinates `x = 2 px / width - 1`,
/// `y = 1 - 2 py / height` (screen y runs down, clip y up); all four clip
/// coordinates are multiplied by the common denominator `width * height`,
/// which the perspective divide cancels. `None`
/// when the homogeneous coordinate is zero or the point leaves the
/// coordinate range. Coordinates are rounded down.
pub open spec fn unprojected(
    inv: Mat4i,
    s: Screen,
    px: int,
    py: int,
    depth: int,
) -> Option<Point3> {
    let (wd, ht) = (s.width as int, s.height as int);
    let cx = (2 * px - wd) * ht;
    let cy = (ht - 2 * py) * wd;
    let cz = depth * wd * ht;
    let cw = wd * ht;
    let hw = inv.row(3, cx, cy, cz, cw);
    let x = floor_div(inv.row(0, cx, cy, cz, cw), hw);
    let y = floor_div(inv.row(1, cx, cy, cz, cw), hw);
    let z = floor_div(inv.row(2, cx, cy, cz, cw), hw);
    if hw != 0 && coord_ok(x) && coord_ok(y) && coord_ok(z) {
        Some(Point3 { x: x as i64, y: y as i64, z: z as i64 })
    } else {
        None
    }
}

/// The sightline under a pixel: its points at clip depth 0 (near) and 1
/// (far).
pub open spec fn sightline_of(inv: Mat4i, s: Screen, px: int, py: int) -> Option<Sightline> {
    match (unprojected(inv, s, px, py, 0), unprojected(inv, s, px, py, 1)) {
        (Some(near), Some(far)) => Some(Sightline { near, far }),
        _ => None,
    }
}

const CLIP_LIMIT: i128 = 4503599627370496;

const ROW_LIMIT: i128 = 38685626227668133590597632;

/// One row of the matrix applied to a clip point.
fn apply_row(inv: &Mat4i, r: usize, c: [i128; 4]) -> (v: i128)
    requires
        inv.wf(),
        r < 4,
        forall|i: int| 0 <= i < 4 ==> -CLIP_LIMIT <= #[trigger] c@[i] <= CLIP_LIMIT,
    ensures
        v == inv.row(r as int, c@[0] as int, c@[1] as int, c@[2] as int, c@[3] as int),
        -ROW_LIMIT <= v <= ROW_LIMIT,
{
    let a = inv.m[4 * r] as i128;
    let b = inv.m[4 * r + 1] as i128;
    let cc = inv.m[4 * r + 2] as i128;
    let d = inv.m[4 * r + 3] as i128;
    proof {
        let e = ENTRY_LIMIT as int;
        let l = CLIP_LIMIT as int;
        assert(inv.m@[4 * r as int] == a && inv.m@[4 * r + 1] == b);
        assert(inv.m@[4 * r + 2] == cc && inv.m@[4 * r + 3] == d);
        lemma_product_bound(a as int, c@[0] as int, e, l);
        lemma_product_bound(b as int, c@[1] as int, e, l);
        lemma_product_bound(cc as int, c@[2] as int, e, l);
        lemma_product_bound(d as int, c@[3] as int, e, l);
    }
    a * c[0] + b * c[1] + cc * c[2] + d * c[3]
}

/// `floor_div` on machine integers.
fn div_down(num: i128, den: i128) -> (q: i128)
    requires
        den != 0,
        -ROW_LIMIT <= num <= ROW_LIMIT,
        -ROW_LIMIT <= den <= ROW_LIMIT,
    ensures
        q == floor_div(num as int, den as int),
{
    let (n, d) = if den > 0 { (num, den) } else { (-num, -den) };
    proof {
        assert(0 <= n / d <= n || n <= n / d < 0) by (nonlinear_arith)
            requires d > 0;
    }
    match n.checked_div_euclid(d) {
        Some(q) => q,
        None => 0,
    }
}

fn fits(v: i128) -> (r: bool)
    ensures
        r == coord_ok(v as int),
{
    -1048576 <= v && v <= 1048576
}

/// Unprojects one pixel at one depth (see `unprojected`).
pub fn unproject(inv: &Mat4i, s: Screen, px: i64, py: i64, depth: i64) -> (r: Option<Point3>)
    requires
        inv.wf(),
        s.wf(),
        -PIXEL_LIMIT <= px <= PIXEL_LIMIT,
        -PIXEL_LIMIT <= py <= PIXEL_LIMIT,
        depth == 0 || depth == 1,
    ensures
        r == unprojected(*inv, s, px as int, py as int, depth as int),
{
    let wd = s.width as i128;
    let ht = s.height as i128;
    proof {
        let p = PIXEL_LIMIT as int;
        let l = SCREEN_LIMIT as int;
        lemma_product_bound(2 * px - wd, ht as int, 2 * p + l, l);
        lemma_product_bound(ht - 2 * py, wd as int, 2 * p + l, l);
        lemma_product_bound(wd as int, ht as int, l, l);
        assert((2 * p + l) * l <= CLIP_LIMIT) by (nonlinear_arith)
            requires p == PIXEL_LIMIT, l == SCREEN_LIMIT;
        assert(l * l <= CLIP_LIMIT) by (nonlinear_arith)
            requires l == SCREEN_LIMIT;
    }
    let cx = (2 * px as i128 - wd) * ht;
    let cy = (ht - 2 * py as i128) * wd;
    let wh = wd * ht;
    let cz = if depth == 0 { 0 } else { wh };
    let cw = wh;
    let c = [cx, cy, cz, cw];
    proof {
        let (w, h, d) = (wd as int, ht as int, depth as int);
        assert(cz == d * w * h) by (nonlinear_arith)
            requires cz == (if d == 0 { 0 } else { w * h }), d == 0 || d == 1;
        assert(c@[0] == cx && c@[1] == cy && c@[2] == cz && c@[3] == cw);
    }
    let hw = apply_row(inv, 3, c);
    if hw == 0 {
        return None;
    }
    let x = div_down(apply_row(inv, 0, c), hw);
    let y = div_down(apply_row(inv, 1, c), hw);
    let z = div_down(apply_row(inv, 2, c), hw);
    if fits(x) && fits(y) && fits(z) {
        Some(Point3 { x: x as i64, y: y as i64, z: z as i64 })
    } else {
        None
    }
}

/// The sightline under a pixel (see `sightline_of`).
pub fn sightline(inv: &Mat4i, s: Screen, px: i64, py: i64) -> (r: Option<Sightline>)
    requires
        inv.wf(),
        s.wf(),
        -PIXEL_LIMIT <= px <= PIXEL_LIMIT,
        -PIXEL_LIMIT <= py <= PIXEL_LIMIT,
    ensures
        r == sightline_of(*inv, s, px as int, py as int),
        r matches Some(l) ==> l.wf(),
{
    match (unproject(inv, s, px, py, 0), unproject(inv, s, px, py, 1)) {
        (Some(near), Some(far)) => Some(Sightline { near, far }),
        _ => None,
    }
}


/// The sightlines under the four corners of a screen rectangle: top-left,
/// top-right, bottom-right, bottom-left.
pub open spec fn rect_sightlines_of(inv: Mat4i, s: Screen, r: ScreenRect) -> Option<
    (Sightline, Sightline, Sightline, Sightline),
> {
    let (x0, y0) = (r.pos.x as int, r.pos.y as int);
    let (x1, y1) = (x0 + r.width, y0 + r.height);
    match (
        sightline_of(inv, s, x0, y0),
        sightline_of(inv, s, x1, y0),
        sightline_of(inv, s, x1, y1),
        sightline_of(inv, s, x0, y1),
    ) {
        (Some(c0), Some(c1), Some(c2), Some(c3)) => Some((c0, c1, c2, c3)),
        _ => None,
    }
}

pub fn rect_sightlines(inv: &Mat4i, s: Screen, r: &ScreenRect) -> (out: Option<
    (Sightline, Sightline, Sightline, Sightline),
>)
    requires
        inv.wf(),
        s.wf(),
    ensures
        out == rect_sightlines_of(*inv, s, *r),
        out matches Some((c0, c1, c2, c3)) ==> c0.wf() && c1.wf() && c2.wf() && c3.wf(),
{
    let c = r.corners();
    let a = sightline(inv, s, c[0].0, c[0].1);
    let b = sightline(inv, s, c[1].0, c[1].1);
    let d = sightline(inv, s, c[2].0, c[2].1);
    let e = sightline(inv, s, c[3].0, c[3].1);
    match (a, b, d, e) {
        (Some(c0), Some(c1), Some(c2), Some(c3)) => Some((c0, c1, c2, c3)),
        _ => None,
    }
}

/// Resolves a confirmed drag rectangle: unprojects its corners with `inv`
/// and selects what their rays and, when it can be built, their frustum
/// pick (see `resolve_selection`). When a corner cannot be unprojected the
/// selection is just cleared. Returns whether the frustum was used.
pub fn select_rect(
    tree: &BoundingTree,
    inv: &Mat4i,
    s: Screen,
    rect: &ScreenRect,
    selection: &mut Selection,
) -> (used_frustum: bool)
    requires
        tree.wf(),
        inv.wf(),
        s.wf(),
    ensures
        match rect_sightlines_of(*inv, s, *rect) {
            Some((c0, c1, c2, c3)) => {
                &&& final(selection)@ == picked_set(tree@, c0, c1, c2, c3)
                &&& used_frustum == crate::frustum::frustum_of(c0, c1, c2, c3) is Some
            },
            None => final(selection)@ == Set::<u64>::empty() && !used_frustum,
        },
{
    match rect_sightlines(inv, s, rect) {
        Some((c0, c1, c2, c3)) => resolve_selection(tree, c0, c1, c2, c3, selection),
        None => {
            selection.clear();
            false
        },
    }
}

} // verus!
