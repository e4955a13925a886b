use vstd::prelude::*;

use crate::frustum::{frustum_of, Frustum, Sightline};
use crate::geom::{box_touches, corner, plane_eval, plane_through, ray_hits, ray_meets_at, Aabb, Plane, Point3, Ray3};
use crate::selection::picked;

verus! {

/// A ray that passes through a point of an entity's box finds the entity
/// once the box is in the index: after `update_entity(e, min, max)` the
/// condition under which `test_ray` returns `e` holds.
pub proof fn lemma_ray_through_box_finds_entity(
    index: Map<u64, Aabb>,
    e: u64,
    min: Point3,
    max: Point3,
    r: Ray3,
    n: int,
    m: int,
)
    requires
        ray_meets_at(r, Aabb::spanned(min, max), n, m),
    ensures
        index.insert(e, Aabb::spanned(min, max)).contains_key(e),
        ray_hits(r, index.insert(e, Aabb::spanned(min, max))[e]),
{
}

/// The plane of a frustum picked by `which`, in the order left, right,
/// bottom, top, near, far.
pub open spec fn face_of(f: Frustum, which: int) -> Plane {
    if which == 0 {
        f.left
    } else if which == 1 {
        f.right
    } else if which == 2 {
        f.bottom
    } else if which == 3 {
        f.top
    } else if which == 4 {
        f.near
    } else {
        f.far
    }
}

/// Every corner of the box lies inside every face of the frustum.
pub open spec fn frustum_encloses(f: Frustum, b: Aabb) -> bool {
    forall|which: int, hx: bool, hy: bool, hz: bool|
        0 <= which < 6 ==> #[trigger] plane_eval(face_of(f, which), corner(b, hx, hy, hz)) >= 0
}

/// A frustum that encloses a box admits it, so `test_frustum` returns the
/// box's entity.
pub proof fn lemma_enclosing_frustum_admits(f: Frustum, b: Aabb)
    requires
        frustum_encloses(f, b),
    ensures
        f.admits(b),
{
    let c = corner(b, false, false, false);
    assert(plane_eval(face_of(f, 0), c) >= 0);
    assert(plane_eval(face_of(f, 1), c) >= 0);
    assert(plane_eval(face_of(f, 2), c) >= 0);
    assert(plane_eval(face_of(f, 3), c) >= 0);
    assert(plane_eval(face_of(f, 4), c) >= 0);
    assert(plane_eval(face_of(f, 5), c) >= 0);
}

/// A box lying wholly outside one face of a frustum is not admitted, so
/// `test_frustum` does not return its entity.
pub proof fn lemma_separated_box_not_admitted(f: Frustum, b: Aabb, which: int)
    requires
        0 <= which < 6,
        forall|hx: bool, hy: bool, hz: bool|
            plane_eval(face_of(f, which), #[trigger] corner(b, hx, hy, hz)) < 0,
    ensures
        !f.admits(b),
{
    assert(!box_touches(face_of(f, which), b));
}

/// Giving an entity the same bounds twice leaves the index as giving them
/// once does (and the second `update_entity` changes nothing at all).
pub proof fn lemma_update_twice_is_update_once(
    index: Map<u64, Aabb>,
    e: u64,
    min: Point3,
    max: Point3,
)
    ensures
        index.insert(e, Aabb::spanned(min, max)).insert(e, Aabb::spanned(min, max))
            == index.insert(e, Aabb::spanned(min, max)),
{
    assert(index.insert(e, Aabb::spanned(min, max)).insert(e, Aabb::spanned(min, max))
        =~= index.insert(e, Aabb::spanned(min, max)));
}

/// After `update_entity` and `refresh` (which keeps the contents), a ray
/// query answers for the entity by its new bounds alone, and for every other
/// entity as before.
pub proof fn lemma_queries_see_new_bounds(
    index: Map<u64, Aabb>,
    refreshed: Map<u64, Aabb>,
    e: u64,
    min: Point3,
    max: Point3,
    r: Ray3,
    other: u64,
)
    requires
        refreshed == index.insert(e, Aabb::spanned(min, max)),
    ensures
        refreshed.contains_key(e) && (ray_hits(r, refreshed[e]) <==> ray_hits(
            r,
            Aabb::spanned(min, max),
        )),
        other != e ==> (refreshed.contains_key(other) == index.contains_key(other)),
        other != e && index.contains_key(other) ==> refreshed[other] == index[other],
{
}

/// A click (all four corner sightlines the same) never builds a frustum:
/// what it picks is exactly what its one ray meets.
pub proof fn lemma_click_uses_rays_only(c: Sightline, b: Aabb)
    ensures
        frustum_of(c, c, c, c) is None,
        picked(b, c, c, c, c) == ray_hits(c.spec_ray(), b),
{
    let a = c.near;
    let z: int = 0;
    assert(z * (a.z - a.z) == 0 && z * (a.y - a.y) == 0 && z * (a.x - a.x) == 0) by (nonlinear_arith)
        requires z == 0;
    assert(a.y - a.y == z && a.z - a.z == z && a.x - a.x == z);
    let p = plane_through(a, a, a);
    assert(p.nx == 0 && p.ny == 0 && p.nz == 0);
    assert(z * a.x == 0 && z * a.y == 0 && z * a.z == 0) by (nonlinear_arith)
        requires z == 0;
    assert(p.d == 0);
}

} // verus!
