use vstd::prelude::*;

use crate::geom::{
    box_touches, lemma_product_bound, oriented, plane_through, Aabb, Plane, Point3, Ray3,
    NORMAL_LIMIT,
};

verus! {

/// The world-space points that one screen position unprojects to: one on the
/// near plane and one on the far plane.
#[derive(Clone, Copy, Debug, PartialEq, Eq, Structural)]
pub struct Sightline {
    pub near: Point3,
    pub far: Point3,
}

impl Sightline {
    pub open spec fn wf(self) -> bool {
        self.near.in_range() && self.far.in_range()
    }

    /// The ray from the near point through the far point.
    pub open spec fn spec_ray(self) -> Ray3 {
        Ray3 {
            origin: self.near,
            dir: Point3 {
                x: (self.far.x - self.near.x) as i64,
                y: (self.far.y - self.near.y) as i64,
                z: (self.far.z - self.near.z) as i64,
            },
        }
    }

    pub fn ray(&self) -> (r: Ray3)
        requires
            self.wf(),
        ensures
            r == self.spec_ray(),
            r.wf(),
    {
        Ray3::through(self.near, self.far)
    }
}

/// A convex region bounded by six planes, each with its inside facing the
/// region.
#[derive(Clone, Copy, Debug, PartialEq, Eq, Structural)]
pub struct Frustum {
    pub left: Plane,
    pub right: Plane,
    pub bottom: Plane,
    pub top: Plane,
    pub near: Plane,
    pub far: Plane,
}

/// Eight times the centroid of the eight corner points, one axis at a time.
pub open spec fn sum_x(c0: Sightline, c1: Sightline, c2: Sightline, c3: Sightline) -> int {
    c0.near.x + c0.far.x + c1.near.x + c1.far.x + c2.near.x + c2.far.x + c3.near.x + c3.far.x
}

pub open spec fn sum_y(c0: Sightline, c1: Sightline, c2: Sightline, c3: Sightline) -> int {
    c0.near.y + c0.far.y + c1.near.y + c1.far.y + c2.near.y + c2.far.y + c3.near.y + c3.far.y
}

pub open spec fn sum_z(c0: Sightline, c1: Sightline, c2: Sightline, c3: Sightline) -> int {
    c0.near.z + c0.far.z + c1.near.z + c1.far.z + c2.near.z + c2.far.z + c3.near.z + c3.far.z
}

/// A face through three of the corner points, turned towards the centroid.
pub open spec fn face(
    a: Point3,
    b: Point3,
    c: Point3,
    c0: Sightline,
    c1: Sightline,
    c2: Sightline,
    c3: Sightline,
) -> Option<Plane> {
    oriented(plane_through(a, b, c), sum_x(c0, c1, c2, c3), sum_y(c0, c1, c2, c3), sum_z(c0, c1, c2, c3))
}

/// The frustum under a screen rectangle, from the sightlines of its corners
/// in the order top-left, top-right, bottom-right, bottom-left. `None` when a
/// face is degenerate: its three points are collinear, or the centroid lies
/// on it (a rectangle of zero width or height).
pub open spec fn frustum_of(c0: Sightline, c1: Sightline, c2: Sightline, c3: Sightline) -> Option<
    Frustum,
> {
    let l = face(c0.near, c0.far, c3.far, c0, c1, c2, c3);
    let r = face(c1.near, c1.far, c2.far, c0, c1, c2, c3);
    let b = face(c3.near, c3.far, c2.far, c0, c1, c2, c3);
    let t = face(c0.near, c0.far, c1.far, c0, c1, c2, c3);
    let n = face(c0.near, c1.near, c2.near, c0, c1, c2, c3);
    let f = face(c0.far, c1.far, c2.far, c0, c1, c2, c3);
    if l is Some && r is Some && b is Some && t is Some && n is Some && f is Some {
        Some(
            Frustum {
                left: l->0,
                right: r->0,
                bottom: b->0,
                top: t->0,
                near: n->0,
                far: f->0,
            },
        )
    } else {
        None
    }
}

const SUM_LIMIT: i128 = 8388608;

/// Turns the plane towards `(sx, sy, sz) / 8` (see `oriented`).
fn orient(p: Plane, sx: i128, sy: i128, sz: i128) -> (r: Option<Plane>)
    requires
        p.wf(),
        -SUM_LIMIT <= sx <= SUM_LIMIT,
        -SUM_LIMIT <= sy <= SUM_LIMIT,
        -SUM_LIMIT <= sz <= SUM_LIMIT,
    ensures
        r == oriented(p, sx as int, sy as int, sz as int),
        r matches Some(q) ==> q.wf(),
{
    proof {
        let l = NORMAL_LIMIT as int;
        let s = SUM_LIMIT as int;
        lemma_product_bound(p.nx as int, sx as int, l, s);
        lemma_product_bound(p.ny as int, sy as int, l, s);
        lemma_product_bound(p.nz as int, sz as int, l, s);
    }
    let v = p.nx * sx + p.ny * sy + p.nz * sz + 8 * p.d;
    if v > 0 {
        Some(p)
    } else if v < 0 {
        Some(Plane { nx: -p.nx, ny: -p.ny, nz: -p.nz, d: -p.d })
    } else {
        None
    }
}

impl Frustum {
    pub open spec fn wf(self) -> bool {
        &&& self.left.wf()
        &&& self.right.wf()
        &&& self.bottom.wf()
        &&& self.top.wf()
        &&& self.near.wf()
        &&& self.far.wf()
    }

    /// The standard separating-plane test: the box is outside none of the
    /// six planes entirely.
    pub open spec fn admits(self, b: Aabb) -> bool {
        &&& box_touches(self.left, b)
        &&& box_touches(self.right, b)
        &&& box_touches(self.bottom, b)
        &&& box_touches(self.top, b)
        &&& box_touches(self.near, b)
        &&& box_touches(self.far, b)
    }

    pub fn test_box(&self, b: &Aabb) -> (r: bool)
        requires
            self.wf(),
            b.wf(),
        ensures
            r == self.admits(*b),
    {
        self.left.touches(b) && self.right.touches(b) && self.bottom.touches(b)
            && self.top.touches(b) && self.near.touches(b) && self.far.touches(b)
    }

    /// Builds the frustum under a screen rectangle from its four corner
    /// sightlines (top-left, top-right, bottom-right, bottom-left); `None`
    /// on degenerate geometry, such as a rectangle of zero width or height.
    pub fn from_sightlines(c0: Sightline, c1: Sightline, c2: Sightline, c3: Sightline) -> (r:
        Option<Frustum>)
        requires
            c0.wf(),
            c1.wf(),
            c2.wf(),
            c3.wf(),
        ensures
            r == frustum_of(c0, c1, c2, c3),
            r matches Some(f) ==> f.wf(),
    {
        let sx = c0.near.x as i128 + c0.far.x as i128 + c1.near.x as i128 + c1.far.x as i128
            + c2.near.x as i128 + c2.far.x as i128 + c3.near.x as i128 + c3.far.x as i128;
        let sy = c0.near.y as i128 + c0.far.y as i128 + c1.near.y as i128 + c1.far.y as i128
            + c2.near.y as i128 + c2.far.y as i128 + c3.near.y as i128 + c3.far.y as i128;
        let sz = c0.near.z as i128 + c0.far.z as i128 + c1.near.z as i128 + c1.far.z as i128
            + c2.near.z as i128 + c2.far.z as i128 + c3.near.z as i128 + c3.far.z as i128;
        let l = orient(Plane::through(c0.near, c0.far, c3.far), sx, sy, sz);
        let r = orient(Plane::through(c1.near, c1.far, c2.far), sx, sy, sz);
        let b = orient(Plane::through(c3.near, c3.far, c2.far), sx, sy, sz);
        let t = orient(Plane::through(c0.near, c0.far, c1.far), sx, sy, sz);
        let n = orient(Plane::through(c0.near, c1.near, c2.near), sx, sy, sz);
        let f = orient(Plane::through(c0.far, c1.far, c2.far), sx, sy, sz);
        match (l, r, b, t, n, f) {
            (Some(l), Some(r), Some(b), Some(t), Some(n), Some(f)) => Some(
                Frustum { left: l, right: r, bottom: b, top: t, near: n, far: f },
            ),
            _ => None,
        }
    }
}

} // verus!
