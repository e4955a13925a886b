use vstd::prelude::*;

use std::collections::HashMap;

use crate::frustum::Frustum;
use crate::geom::{
    box_touches, corner, lemma_weight_le, plane_eval, ray_hits, ray_hits_box, ray_meets_at, Aabb,
    Plane, Point3, Ray3,
};

verus! {

broadcast use vstd::std_specs::hash::group_hash_axioms;

/// The payload of one node: an entity and its world-space box.
#[derive(Clone, Copy, Debug, PartialEq, Eq, Structural)]
pub struct BoundingValue {
    pub e: u64,
    pub aabb: Aabb,
}

impl BoundingValue {
    /// Pairs an entity with the box spanned by two corners given in any order.
    pub fn new(e: u64, min: Point3, max: Point3) -> (r: BoundingValue)
        requires
            min.in_range(),
            max.in_range(),
        ensures
            r.e == e,
            r.aabb == Aabb::spanned(min, max),
            r.aabb.wf(),
    {
        BoundingValue { e, aabb: Aabb::from_corners(min, max) }
    }
}

/// `small` lies inside `big` on every axis.
pub open spec fn within(small: Aabb, big: Aabb) -> bool {
    &&& big.min.x <= small.min.x && small.max.x <= big.max.x
    &&& big.min.y <= small.min.y && small.max.y <= big.max.y
    &&& big.min.z <= small.min.z && small.max.z <= big.max.z
}

proof fn lemma_scale_le(m: int, a: int, b: int)
    requires
        m > 0,
        a <= b,
    ensures
        m * a <= m * b,
{
    assert(m * a <= m * b) by (nonlinear_arith)
        requires m > 0, a <= b;
}

/// A ray that meets a box meets every box around it.
pub proof fn lemma_ray_hits_enclosing(r: Ray3, small: Aabb, big: Aabb)
    requires
        within(small, big),
        ray_hits(r, small),
    ensures
        ray_hits(r, big),
{
    let (n, m) = choose|n: int, m: int| #[trigger] ray_meets_at(r, small, n, m);
    lemma_scale_le(m, big.min.x as int, small.min.x as int);
    lemma_scale_le(m, small.max.x as int, big.max.x as int);
    lemma_scale_le(m, big.min.y as int, small.min.y as int);
    lemma_scale_le(m, small.max.y as int, big.max.y as int);
    lemma_scale_le(m, big.min.z as int, small.min.z as int);
    lemma_scale_le(m, small.max.z as int, big.max.z as int);
    assert(ray_meets_at(r, big, n, m));
}

/// A box with a corner inside a plane has an enclosing box with one too.
pub proof fn lemma_touches_enclosing(p: Plane, small: Aabb, big: Aabb)
    requires
        within(small, big),
        small.wf(),
        box_touches(p, small),
    ensures
        box_touches(p, big),
{
    let (hx, hy, hz) = choose|hx: bool, hy: bool, hz: bool|
        plane_eval(p, #[trigger] corner(small, hx, hy, hz)) >= 0;
    let q = corner(small, hx, hy, hz);
    lemma_weight_le(p.nx as int, q.x as int, big.min.x as int, big.max.x as int);
    lemma_weight_le(p.ny as int, q.y as int, big.min.y as int, big.max.y as int);
    lemma_weight_le(p.nz as int, q.z as int, big.min.z as int, big.max.z as int);
    let pv = corner(big, p.nx >= 0, p.ny >= 0, p.nz >= 0);
    assert(plane_eval(p, pv) >= plane_eval(p, q));
}

/// The smallest box around two boxes.
fn union(a: &Aabb, b: &Aabb) -> (r: Aabb)
    requires
        a.wf(),
        b.wf(),
    ensures
        r.wf(),
        within(*a, r),
        within(*b, r),
{
    Aabb {
        min: Point3 {
            x: if a.min.x <= b.min.x { a.min.x } else { b.min.x },
            y: if a.min.y <= b.min.y { a.min.y } else { b.min.y },
            z: if a.min.z <= b.min.z { a.min.z } else { b.min.z },
        },
        max: Point3 {
            x: if a.max.x >= b.max.x { a.max.x } else { b.max.x },
            y: if a.max.y >= b.max.y { a.max.y } else { b.max.y },
            z: if a.max.z >= b.max.z { a.max.z } else { b.max.z },
        },
    }
}

/// Number of consecutive nodes that share one group bound.
pub const GROUP: usize = 16;

/// The spatial index: one box per tracked entity, with a map from each
/// entity to its node handle so that a second insertion updates in place.
/// Nodes form groups of `GROUP`, each under a bound that encloses its boxes;
/// a query skips every group whose bound it misses. Moving a node marks its
/// group for refitting, which `refresh` does.
pub struct BoundingTree {
    nodes: Vec<BoundingValue>,
    handles: HashMap<u64, usize>,
    bounds: Vec<Aabb>,
    dirty: Vec<bool>,
}

impl View for BoundingTree {
    type V = Map<u64, Aabb>;

    /// Each tracked entity with its box.
    closed spec fn view(&self) -> Map<u64, Aabb> {
        Map::new(
            |e: u64| self.handles@.contains_key(e),
            |e: u64| self.nodes@[self.handles@[e] as int].aabb,
        )
    }
}

/// Node `j` belongs to group `g`.
pub open spec fn in_group(g: int, j: int) -> bool {
    g * 16 <= j < g * 16 + 16
}

impl BoundingTree {
    /// A clean group's bound encloses the boxes of its nodes.
    spec fn group_ok(self, g: int) -> bool {
        !self.dirty@[g] ==> self.bounds@[g].wf() && forall|j: int|
            0 <= j < self.nodes@.len() && in_group(g, j) ==> within(
                #[trigger] self.nodes@[j].aabb,
                self.bounds@[g],
            )
    }

    /// No group waits for a refit.
    pub closed spec fn fresh(self) -> bool {
        forall|g: int| 0 <= g < self.dirty@.len() ==> !#[trigger] self.dirty@[g]
    }

    spec fn nodes_ok(self) -> bool {
        &&& forall|i: int| 0 <= i < self.nodes@.len() ==> (#[trigger] self.nodes@[i]).aabb.wf()
        &&& forall|i: int|
            0 <= i < self.nodes@.len() ==> self.handles@.contains_key(#[trigger] self.nodes@[i].e)
                && self.handles@[self.nodes@[i].e] == i
        &&& forall|e: u64| #[trigger]
            self.handles@.contains_key(e) ==> self.handles@[e] < self.nodes@.len()
                && self.nodes@[self.handles@[e] as int].e == e
    }

    /// Node boxes well formed; the handle map and the nodes agree one to one;
    /// one bound per group of nodes, enclosing them unless marked dirty.
    pub closed spec fn wf(self) -> bool {
        &&& self.nodes_ok()
        &&& self.bounds@.len() == self.dirty@.len()
        &&& self.bounds@.len() == (self.nodes@.len() + 15) / 16
        &&& forall|g: int| 0 <= g < self.bounds@.len() ==> #[trigger] self.group_ok(g)
    }

    /// An empty index.
    pub fn new() -> (r: BoundingTree)
        ensures
            r.wf(),
            r.fresh(),
            r@ == Map::<u64, Aabb>::empty(),
    {
        let r = BoundingTree {
            nodes: Vec::new(),
            handles: HashMap::new(),
            bounds: Vec::new(),
            dirty: Vec::new(),
        };
        assert(r@ =~= Map::<u64, Aabb>::empty());
        r
    }

    /// Inserts the entity with the box spanned by `min` and `max`, or moves
    /// its existing node to that box. Giving an entity the box it already
    /// has changes nothing at all.
    pub fn update_entity(&mut self, e: u64, min: Point3, max: Point3)
        requires
            old(self).wf(),
            min.in_range(),
            max.in_range(),
        ensures
            final(self).wf(),
            final(self)@ == old(self)@.insert(e, Aabb::spanned(min, max)),
            old(self)@.contains_key(e) && old(self)@[e] == Aabb::spanned(min, max) ==> *final(self)
                == *old(self),
    {
        let v = BoundingValue::new(e, min, max);
        match self.handles.get(&e) {
            Some(i) => {
                let i = *i;
                if self.nodes[i].aabb != v.aabb {
                    self.nodes.set(i, v);
                    self.dirty.set(i / GROUP, true);
                    assert forall|g: int| 0 <= g < self.bounds@.len() implies #[trigger] self.group_ok(g) by {
                        assert(old(self).group_ok(g));
                        if g != i / 16 {
                            assert forall|j: int| 0 <= j < self.nodes@.len() && in_group(g, j) implies self.nodes@[j] == old(self).nodes@[j] by {}
                        }
                    }
                }
            },
            None => {
                let i = self.nodes.len();
                self.nodes.push(v);
                self.handles.insert(e, i);
                if i % GROUP == 0 {
                    self.bounds.push(v.aabb);
                    self.dirty.push(false);
                } else {
                    let g = i / GROUP;
                    assert(old(self).group_ok(g as int));
                    if !self.dirty[g] {
                        let b = union(&self.bounds[g], &v.aabb);
                        self.bounds.set(g, b);
                    }
                }
                assert forall|g: int| 0 <= g < self.bounds@.len() implies #[trigger] self.group_ok(g) by {
                    if g < old(self).bounds@.len() {
                        assert(old(self).group_ok(g));
                    }
                }
            },
        }
        assert(self@ =~= old(self)@.insert(e, v.aabb));
    }

    /// The smallest box around the nodes of group `g`.
    fn group_bound(&self, g: usize) -> (r: Aabb)
        requires
            self.wf(),
            g < self.bounds@.len(),
        ensures
            r.wf(),
            forall|j: int|
                0 <= j < self.nodes@.len() && in_group(g as int, j) ==> within(
                    #[trigger] self.nodes@[j].aabb,
                    r,
                ),
    {
        proof {
            let n = self.nodes@.len() as int;
            let q = (n + 15) / 16;
            assert(q * 16 <= n + 15);
            assert(g * 16 < n) by (nonlinear_arith)
                requires g < q, q * 16 <= n + 15;
        }
        let n = self.nodes.len();
        let start = g * GROUP;
        let end = if n - start < GROUP {
            n
        } else {
            start + GROUP
        };
        assert(self.nodes@[start as int].aabb.wf());
        let mut b = self.nodes[start].aabb;
        let mut k = start + 1;
        while k < end
            invariant
                self.wf(),
                start == g * 16,
                start < k <= end <= self.nodes@.len(),
                end == self.nodes@.len() || end == start + 16,
                b.wf(),
                forall|j: int| start <= j < k ==> within(#[trigger] self.nodes@[j].aabb, b),
            decreases end - k,
        {
            assert(self.nodes@[k as int].aabb.wf());
            b = union(&b, &self.nodes[k].aabb);
            k += 1;
        }
        b
    }

    /// Refits the bound of every group whose nodes moved; queries made
    /// afterwards may skip any group.
    pub fn refresh(&mut self)
        requires
            old(self).wf(),
        ensures
            final(self).wf(),
            final(self).fresh(),
            final(self)@ == old(self)@,
    {
        let mut g: usize = 0;
        while g < self.bounds.len()
            invariant
                self.wf(),
                self.nodes == old(self).nodes,
                self.handles == old(self).handles,
                0 <= g <= self.bounds@.len(),
                forall|h: int| 0 <= h < g ==> !#[trigger] self.dirty@[h],
            decreases self.bounds@.len() - g,
        {
            if self.dirty[g] {
                let ghost before = *self;
                let b = self.group_bound(g);
                self.bounds.set(g, b);
                self.dirty.set(g, false);
                assert forall|h: int| 0 <= h < self.bounds@.len() implies #[trigger] self.group_ok(h) by {
                    if h != g {
                        assert(before.group_ok(h));
                    }
                }
            }
            g += 1;
        }
        assert(self@ =~= old(self)@);
    }

    /// The entities whose box the ray meets, each once, in no set order.
    pub fn test_ray(&self, r: &Ray3) -> (out: Vec<u64>)
        requires
            self.wf(),
            r.wf(),
        ensures
            forall|e: u64|
                #[trigger] out@.contains(e) <==> (self@.contains_key(e) && ray_hits(*r, self@[e])),
            out@.no_duplicates(),
    {
        let mut out: Vec<u64> = Vec::new();
        let mut i: usize = 0;
        while i < self.nodes.len()
            invariant
                self.wf(),
                r.wf(),
                0 <= i <= self.nodes@.len(),
                forall|e: u64| #[trigger]
                    out@.contains(e) <==> exists|j: int|
                        0 <= j < i && #[trigger] self.nodes@[j].e == e && ray_hits(
                            *r,
                            self.nodes@[j].aabb,
                        ),
                forall|k: int|
                    0 <= k < out@.len() ==> self.handles@.contains_key(#[trigger] out@[k])
                        && self.handles@[out@[k]] < i,
                out@.no_duplicates(),
            decreases self.nodes@.len() - i,
        {
            if i % GROUP == 0 {
                let g = i / GROUP;
                assert(self.group_ok(g as int));
                if !self.dirty[g] && !ray_hits_box(r, &self.bounds[g]) {
                    let end = if self.nodes.len() - i < GROUP {
                        self.nodes.len()
                    } else {
                        i + GROUP
                    };
                    proof {
                        assert(self.group_ok(g as int));
                        assert forall|j: int| i <= j < end implies !ray_hits(*r, self.nodes@[j].aabb) by {
                            assert(in_group(g as int, j));
                            assert(self.nodes@[j].aabb.wf());
                            if ray_hits(*r, self.nodes@[j].aabb) {
                                lemma_ray_hits_enclosing(*r, self.nodes@[j].aabb, self.bounds@[g as int]);
                            }
                        }
                        assert forall|e: u64| #[trigger]
                            out@.contains(e) <==> exists|j: int|
                                0 <= j < end && #[trigger] self.nodes@[j].e == e && ray_hits(*r, self.nodes@[j].aabb) by {
                            if exists|j: int| 0 <= j < end && #[trigger] self.nodes@[j].e == e && ray_hits(*r, self.nodes@[j].aabb) {
                                let j = choose|j: int| 0 <= j < end && #[trigger] self.nodes@[j].e == e && ray_hits(*r, self.nodes@[j].aabb);
                                assert(j < i);
                            }
                        }
                    }
                    i = end;
                    continue;
                }
            }
            let v = self.nodes[i];
            assert(v.aabb.wf());
            let ghost prev = out@;
            let hit = ray_hits_box(r, &v.aabb);
            if hit {
                assert(!out@.contains(v.e)) by {
                    if out@.contains(v.e) {
                        let k = out@.index_of(v.e);
                        assert(self.handles@[out@[k]] < i);
                    }
                }
                out.push(v.e);
            }
            proof {
                assert forall|e: u64| #[trigger] out@.contains(e) <==> (prev.contains(e) || (hit && e == v.e)) by {
                    if prev.contains(e) {
                        let k = prev.index_of(e);
                        assert(out@[k] == e);
                    }
                    if hit && e == v.e {
                        assert(out@[out@.len() - 1] == e);
                    }
                    if out@.contains(e) {
                        let k = out@.index_of(e);
                        if k < prev.len() {
                            assert(prev[k] == e);
                        }
                    }
                }
            }
            i += 1;
            proof {
                assert forall|e: u64| #[trigger]
                    out@.contains(e) <==> exists|j: int|
                        0 <= j < i && #[trigger] self.nodes@[j].e == e && ray_hits(*r, self.nodes@[j].aabb) by {
                    if exists|j: int| 0 <= j < i && #[trigger] self.nodes@[j].e == e && ray_hits(*r, self.nodes@[j].aabb) {
                        let j = choose|j: int| 0 <= j < i && #[trigger] self.nodes@[j].e == e && ray_hits(*r, self.nodes@[j].aabb);
                        if j < i - 1 {
                            assert(prev.contains(e));
                        }
                    }
                    if prev.contains(e) {
                        let j = choose|j: int| 0 <= j < i - 1 && #[trigger] self.nodes@[j].e == e && ray_hits(*r, self.nodes@[j].aabb);
                        assert(0 <= j < i);
                    }
                    if hit && e == v.e {
                        assert(self.nodes@[i - 1].e == e);
                    }
                }
            }
        }
        proof {
            assert forall|e: u64| self@.contains_key(e) && ray_hits(*r, self@[e]) implies #[trigger] out@.contains(e) by {
                if self@.contains_key(e) {
                    let j = self.handles@[e] as int;
                    assert(self.nodes@[j].e == e);
                }
            }
        }
        out
    }

    /// The entities whose box is outside none of the frustum's planes, each
    /// once, in no set order.
    pub fn test_frustum(&self, f: &Frustum) -> (out: Vec<u64>)
        requires
            self.wf(),
            f.wf(),
        ensures
            forall|e: u64| #[trigger] out@.contains(e) <==> (self@.contains_key(e) && f.admits(self@[e])),
            out@.no_duplicates(),
    {
        let mut out: Vec<u64> = Vec::new();
        let mut i: usize = 0;
        while i < self.nodes.len()
            invariant
                self.wf(),
                f.wf(),
                0 <= i <= self.nodes@.len(),
                forall|e: u64| #[trigger]
                    out@.contains(e) <==> exists|j: int|
                        0 <= j < i && #[trigger] self.nodes@[j].e == e && f.admits(self.nodes@[j].aabb),
                forall|k: int|
                    0 <= k < out@.len() ==> self.handles@.contains_key(#[trigger] out@[k])
                        && self.handles@[out@[k]] < i,
                out@.no_duplicates(),
            decreases self.nodes@.len() - i,
        {
            if i % GROUP == 0 {
                let g = i / GROUP;
                assert(self.group_ok(g as int));
                if !self.dirty[g] && !f.test_box(&self.bounds[g]) {
                    let end = if self.nodes.len() - i < GROUP {
                        self.nodes.len()
                    } else {
                        i + GROUP
                    };
                    proof {
                        assert(self.group_ok(g as int));
                        assert forall|j: int| i <= j < end implies !f.admits(self.nodes@[j].aabb) by {
                            assert(in_group(g as int, j));
                            assert(self.nodes@[j].aabb.wf());
                            if f.admits(self.nodes@[j].aabb) {
                                let (nb, gb) = (self.nodes@[j].aabb, self.bounds@[g as int]);
                                lemma_touches_enclosing(f.left, nb, gb);
                                lemma_touches_enclosing(f.right, nb, gb);
                                lemma_touches_enclosing(f.bottom, nb, gb);
                                lemma_touches_enclosing(f.top, nb, gb);
                                lemma_touches_enclosing(f.near, nb, gb);
                                lemma_touches_enclosing(f.far, nb, gb);
                            }
                        }
                        assert forall|e: u64| #[trigger]
                            out@.contains(e) <==> exists|j: int|
                                0 <= j < end && #[trigger] self.nodes@[j].e == e && f.admits(self.nodes@[j].aabb) by {
                            if exists|j: int| 0 <= j < end && #[trigger] self.nodes@[j].e == e && f.admits(self.nodes@[j].aabb) {
                                let j = choose|j: int| 0 <= j < end && #[trigger] self.nodes@[j].e == e && f.admits(self.nodes@[j].aabb);
                                assert(j < i);
                            }
                        }
                    }
                    i = end;
                    continue;
                }
            }
            let v = self.nodes[i];
            assert(v.aabb.wf());
            let ghost prev = out@;
            let hit = f.test_box(&v.aabb);
            if hit {
                assert(!out@.contains(v.e)) by {
                    if out@.contains(v.e) {
                        let k = out@.index_of(v.e);
                        assert(self.handles@[out@[k]] < i);
                    }
                }
                out.push(v.e);
            }
            proof {
                assert forall|e: u64| #[trigger] out@.contains(e) <==> (prev.contains(e) || (hit && e == v.e)) by {
                    if prev.contains(e) {
                        let k = prev.index_of(e);
                        assert(out@[k] == e);
                    }
                    if hit && e == v.e {
                        assert(out@[out@.len() - 1] == e);
                    }
                    if out@.contains(e) {
                        let k = out@.index_of(e);
                        if k < prev.len() {
                            assert(prev[k] == e);
                        }
                    }
                }
            }
            i += 1;
            proof {
                assert forall|e: u64| #[trigger]
                    out@.contains(e) <==> exists|j: int|
                        0 <= j < i && #[trigger] self.nodes@[j].e == e && f.admits(self.nodes@[j].aabb) by {
                    if exists|j: int| 0 <= j < i && #[trigger] self.nodes@[j].e == e && f.admits(self.nodes@[j].aabb) {
                        let j = choose|j: int| 0 <= j < i && #[trigger] self.nodes@[j].e == e && f.admits(self.nodes@[j].aabb);
                        if j < i - 1 {
                            assert(prev.contains(e));
                        }
                    }
                    if prev.contains(e) {
                        let j = choose|j: int| 0 <= j < i - 1 && #[trigger] self.nodes@[j].e == e && f.admits(self.nodes@[j].aabb);
                        assert(0 <= j < i);
                    }
                    if hit && e == v.e {
                        assert(self.nodes@[i - 1].e == e);
                    }
                }
            }
        }
        proof {
            assert forall|e: u64| self@.contains_key(e) && f.admits(self@[e]) implies #[trigger] out@.contains(e) by {
                if self@.contains_key(e) {
                    let j = self.handles@[e] as int;
                    assert(self.nodes@[j].e == e);
                }
            }
        }
        out
    }
}

} // verus!
