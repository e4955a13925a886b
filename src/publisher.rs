use vstd::prelude::*;

use crate::bounding_tree::BoundingTree;
use crate::geom::{coord_ok, corner, lemma_product_bound, max_int, min_int, Aabb, Point3, COORD_LIMIT};

verus! {

/// An affine map `p -> m * p + t` with integer coefficients; `m` is stored
/// row by row.
#[derive(Clone, Copy, Debug)]
pub struct Transform3D {
    pub m: [i64; 9],
    pub t: Point3,
}

impl Transform3D {
    pub open spec fn wf(self) -> bool {
        &&& forall|i: int| 0 <= i < 9 ==> coord_ok(#[trigger] self.m@[i] as int)
        &&& self.t.in_range()
    }

    pub open spec fn map_x(self, p: Point3) -> int {
        self.m@[0] * p.x + self.m@[1] * p.y + self.m@[2] * p.z + self.t.x
    }

    pub open spec fn map_y(self, p: Point3) -> int {
        self.m@[3] * p.x + self.m@[4] * p.y + self.m@[5] * p.z + self.t.y
    }

    pub open spec fn map_z(self, p: Point3) -> int {
        self.m@[6] * p.x + self.m@[7] * p.y + self.m@[8] * p.z + self.t.z
    }

    /// A pure translation.
    pub fn translation(t: Point3) -> (r: Transform3D)
        requires
            t.in_range(),
        ensures
            r.wf(),
            r.t == t,
            r.m@ == seq![1i64, 0, 0, 0, 1, 0, 0, 0, 1],
    {
        let r = Transform3D { m: [1, 0, 0, 0, 1, 0, 0, 0, 1], t };
        assert(r.m@ =~= seq![1i64, 0, 0, 0, 1, 0, 0, 0, 1]);
        r
    }
}

pub open spec fn min8(a: int, b: int, c: int, d: int, e: int, f: int, g: int, h: int) -> int {
    min_int(min_int(min_int(a, b), min_int(c, d)), min_int(min_int(e, f), min_int(g, h)))
}

pub open spec fn max8(a: int, b: int, c: int, d: int, e: int, f: int, g: int, h: int) -> int {
    max_int(max_int(max_int(a, b), max_int(c, d)), max_int(max_int(e, f), max_int(g, h)))
}

/// The least of one coordinate over the images of the box's eight corners.
pub open spec fn low(b: Aabb, f: spec_fn(Point3) -> int) -> int {
    min8(
        f(corner(b, false, false, false)),
        f(corner(b, true, false, false)),
        f(corner(b, false, true, false)),
        f(corner(b, true, true, false)),
        f(corner(b, false, false, true)),
        f(corner(b, true, false, true)),
        f(corner(b, false, true, true)),
        f(corner(b, true, true, true)),
    )
}

/// The greatest of one coordinate over the images of the box's eight corners.
pub open spec fn high(b: Aabb, f: spec_fn(Point3) -> int) -> int {
    max8(
        f(corner(b, false, false, false)),
        f(corner(b, true, false, false)),
        f(corner(b, false, true, false)),
        f(corner(b, true, true, false)),
        f(corner(b, false, false, true)),
        f(corner(b, true, false, true)),
        f(corner(b, false, true, true)),
        f(corner(b, true, true, true)),
    )
}

/// The world-space box of a local box under a transform: the tightest
/// axis-aligned box around its eight transformed corners, or `None` when that
/// box leaves the coordinate range.
pub open spec fn world_box(local: Aabb, t: Transform3D) -> Option<Aabb> {
    let fx = |p: Point3| t.map_x(p);
    let fy = |p: Point3| t.map_y(p);
    let fz = |p: Point3| t.map_z(p);
    if coord_ok(low(local, fx)) && coord_ok(high(local, fx)) && coord_ok(low(local, fy))
        && coord_ok(high(local, fy)) && coord_ok(low(local, fz)) && coord_ok(high(local, fz)) {
        Some(
            Aabb {
                min: Point3 {
                    x: low(local, fx) as i64,
                    y: low(local, fy) as i64,
                    z: low(local, fz) as i64,
                },
                max: Point3 {
                    x: high(local, fx) as i64,
                    y: high(local, fy) as i64,
                    z: high(local, fz) as i64,
                },
            },
        )
    } else {
        None
    }
}

const IMAGE_LIMIT: i128 = 4398046511104;

/// One row of the transform applied to a point.
fn apply_row(a: i64, b: i64, c: i64, off: i64, p: Point3) -> (r: i128)
    requires
        coord_ok(a as int),
        coord_ok(b as int),
        coord_ok(c as int),
        coord_ok(off as int),
        p.in_range(),
    ensures
        r == a * p.x + b * p.y + c * p.z + off,
        -IMAGE_LIMIT <= r <= IMAGE_LIMIT,
{
    proof {
        let l = COORD_LIMIT as int;
        lemma_product_bound(a as int, p.x as int, l, l);
        lemma_product_bound(b as int, p.y as int, l, l);
        lemma_product_bound(c as int, p.z as int, l, l);
    }
    a as i128 * p.x as i128 + b as i128 * p.y as i128 + c as i128 * p.z as i128 + off as i128
}

/// The images of one coordinate of the eight corners, in the order `low`
/// and `high` take them.
fn images(b: &Aabb, a: i64, bb: i64, c: i64, off: i64) -> (r: [i128; 8])
    requires
        b.wf(),
        coord_ok(a as int),
        coord_ok(bb as int),
        coord_ok(c as int),
        coord_ok(off as int),
    ensures
        forall|i: int| 0 <= i < 8 ==> -IMAGE_LIMIT <= #[trigger] r@[i] <= IMAGE_LIMIT,
        r@[0] == a * b.min.x + bb * b.min.y + c * b.min.z + off,
        r@[1] == a * b.max.x + bb * b.min.y + c * b.min.z + off,
        r@[2] == a * b.min.x + bb * b.max.y + c * b.min.z + off,
        r@[3] == a * b.max.x + bb * b.max.y + c * b.min.z + off,
        r@[4] == a * b.min.x + bb * b.min.y + c * b.max.z + off,
        r@[5] == a * b.max.x + bb * b.min.y + c * b.max.z + off,
        r@[6] == a * b.min.x + bb * b.max.y + c * b.max.z + off,
        r@[7] == a * b.max.x + bb * b.max.y + c * b.max.z + off,
{
    let lo = b.min;
    let hi = b.max;
    [
        apply_row(a, bb, c, off, Point3 { x: lo.x, y: lo.y, z: lo.z }),
        apply_row(a, bb, c, off, Point3 { x: hi.x, y: lo.y, z: lo.z }),
        apply_row(a, bb, c, off, Point3 { x: lo.x, y: hi.y, z: lo.z }),
        apply_row(a, bb, c, off, Point3 { x: hi.x, y: hi.y, z: lo.z }),
        apply_row(a, bb, c, off, Point3 { x: lo.x, y: lo.y, z: hi.z }),
        apply_row(a, bb, c, off, Point3 { x: hi.x, y: lo.y, z: hi.z }),
        apply_row(a, bb, c, off, Point3 { x: lo.x, y: hi.y, z: hi.z }),
        apply_row(a, bb, c, off, Point3 { x: hi.x, y: hi.y, z: hi.z }),
    ]
}

fn lo2(a: i128, b: i128) -> (r: i128)
    ensures
        r == min_int(a as int, b as int),
{
    if a <= b { a } else { b }
}

fn hi2(a: i128, b: i128) -> (r: i128)
    ensures
        r == max_int(a as int, b as int),
{
    if a <= b { b } else { a }
}

/// Least and greatest of eight values.
fn extent(v: &[i128; 8]) -> (r: (i128, i128))
    ensures
        r.0 == min8(v@[0] as int, v@[1] as int, v@[2] as int, v@[3] as int, v@[4] as int, v@[5] as int, v@[6] as int, v@[7] as int),
        r.1 == max8(v@[0] as int, v@[1] as int, v@[2] as int, v@[3] as int, v@[4] as int, v@[5] as int, v@[6] as int, v@[7] as int),
{
    let l = lo2(lo2(lo2(v[0], v[1]), lo2(v[2], v[3])), lo2(lo2(v[4], v[5]), lo2(v[6], v[7])));
    let h = hi2(hi2(hi2(v[0], v[1]), hi2(v[2], v[3])), hi2(hi2(v[4], v[5]), hi2(v[6], v[7])));
    (l, h)
}

fn fits(v: i128) -> (r: bool)
    ensures
        r == coord_ok(v as int),
{
    -(COORD_LIMIT as i128) <= v && v <= COORD_LIMIT as i128
}

/// Transforms all eight corners of a local box and takes the axis-aligned
/// box around them, so that rotations are accounted for.
pub fn world_bounds(local: &Aabb, t: &Transform3D) -> (r: Option<Aabb>)
    requires
        local.wf(),
        t.wf(),
    ensures
        r == world_box(*local, *t),
        r matches Some(b) ==> b.wf(),
{
    let m = &t.m;
    assert(coord_ok(m@[0] as int) && coord_ok(m@[1] as int) && coord_ok(m@[2] as int));
    assert(coord_ok(m@[3] as int) && coord_ok(m@[4] as int) && coord_ok(m@[5] as int));
    assert(coord_ok(m@[6] as int) && coord_ok(m@[7] as int) && coord_ok(m@[8] as int));
    let xs = images(local, m[0], m[1], m[2], t.t.x);
    let ys = images(local, m[3], m[4], m[5], t.t.y);
    let zs = images(local, m[6], m[7], m[8], t.t.z);
    let (x0, x1) = extent(&xs);
    let (y0, y1) = extent(&ys);
    let (z0, z1) = extent(&zs);
    proof {
        let fx = |p: Point3| t.map_x(p);
        let fy = |p: Point3| t.map_y(p);
        let fz = |p: Point3| t.map_z(p);
        assert(x0 == low(*local, fx) && x1 == high(*local, fx));
        assert(y0 == low(*local, fy) && y1 == high(*local, fy));
        assert(z0 == low(*local, fz) && z1 == high(*local, fz));
    }
    if fits(x0) && fits(x1) && fits(y0) && fits(y1) && fits(z0) && fits(z1) {
        Some(
            Aabb {
                min: Point3 { x: x0 as i64, y: y0 as i64, z: z0 as i64 },
                max: Point3 { x: x1 as i64, y: y1 as i64, z: z1 as i64 },
            },
        )
    } else {
        None
    }
}


/// An entity marked dirty this tick, with its local-space box and its world
/// transform.
#[derive(Clone, Copy, Debug)]
pub struct DirtyEntity {
    pub e: u64,
    pub local: Aabb,
    pub transform: Transform3D,
}

impl DirtyEntity {
    pub open spec fn wf(self) -> bool {
        self.local.wf() && self.transform.wf()
    }
}

/// The index contents after publishing the dirty entities in order; an
/// entity whose world box leaves the coordinate range keeps its old entry.
pub open spec fn published(m: Map<u64, Aabb>, s: Seq<DirtyEntity>) -> Map<u64, Aabb>
    decreases s.len(),
{
    if s.len() == 0 {
        m
    } else {
        let prev = published(m, s.drop_last());
        match world_box(s.last().local, s.last().transform) {
            Some(b) => prev.insert(s.last().e, b),
            None => prev,
        }
    }
}

/// The entities whose world box could be published, in order.
pub open spec fn published_ids(s: Seq<DirtyEntity>) -> Seq<u64>
    decreases s.len(),
{
    if s.len() == 0 {
        Seq::empty()
    } else {
        let prev = published_ids(s.drop_last());
        if world_box(s.last().local, s.last().transform) is Some {
            prev.push(s.last().e)
        } else {
            prev
        }
    }
}

/// One tick of bounds publishing: every dirty entity's world box goes into
/// the index, then the index is refreshed once. Returns the entities whose
/// dirty marker is to be cleared: each one published, in order. An entity
/// whose world box leaves the coordinate range keeps its marker.
pub fn publish(tree: &mut BoundingTree, dirty: &Vec<DirtyEntity>) -> (cleared: Vec<u64>)
    requires
        old(tree).wf(),
        forall|i: int| 0 <= i < dirty@.len() ==> (#[trigger] dirty@[i]).wf(),
    ensures
        final(tree).wf(),
        final(tree).fresh(),
        final(tree)@ == published(old(tree)@, dirty@),
        cleared@ == published_ids(dirty@),
{
    let mut cleared: Vec<u64> = Vec::new();
    let mut i: usize = 0;
    while i < dirty.len()
        invariant
            tree.wf(),
            0 <= i <= dirty@.len(),
            forall|j: int| 0 <= j < dirty@.len() ==> (#[trigger] dirty@[j]).wf(),
            tree@ == published(old(tree)@, dirty@.take(i as int)),
            cleared@ == published_ids(dirty@.take(i as int)),
        decreases dirty@.len() - i,
    {
        let d = dirty[i];
        assert(d.wf());
        assert(dirty@.take(i + 1).drop_last() =~= dirty@.take(i as int));
        assert(dirty@.take(i + 1).last() == d);
        match world_bounds(&d.local, &d.transform) {
            Some(b) => {
                assert(Aabb::spanned(b.min, b.max) == b);
                tree.update_entity(d.e, b.min, b.max);
                cleared.push(d.e);
            },
            None => {},
        }
        i += 1;
    }
    assert(dirty@.take(dirty@.len() as int) =~= dirty@);
    tree.refresh();
    cleared
}

} // verus!
