use vstd::prelude::*;

use crate::bounding_tree::BoundingTree;
use crate::frustum::{frustum_of, Frustum, Sightline};
use crate::geom::{ray_hits, Aabb};

verus! {

/// The entities that carry the "selected" marker.
pub struct Selection {
    entities: Vec<u64>,
}

impl View for Selection {
    type V = Set<u64>;

    closed spec fn view(&self) -> Set<u64> {
        Set::new(|e: u64| self.entities@.contains(e))
    }
}

impl Selection {
    pub fn new() -> (r: Selection)
        ensures
            r@ == Set::<u64>::empty(),
    {
        let r = Selection { entities: Vec::new() };
        assert(r@ =~= Set::<u64>::empty());
        r
    }

    pub fn is_selected(&self, e: u64) -> (r: bool)
        ensures
            r == self@.contains(e),
    {
        let mut i: usize = 0;
        while i < self.entities.len()
            invariant
                0 <= i <= self.entities@.len(),
                forall|j: int| 0 <= j < i ==> self.entities@[j] != e,
            decreases self.entities@.len() - i,
        {
            if self.entities[i] == e {
                return true;
            }
            i += 1;
        }
        false
    }

    /// Every selected entity, possibly more than once.
    pub fn entities(&self) -> (r: Vec<u64>)
        ensures
            forall|e: u64| #[trigger] r@.contains(e) <==> self@.contains(e),
    {
        self.entities.clone()
    }

    /// Removes every marker.
    pub fn clear(&mut self)
        ensures
            final(self)@ == Set::<u64>::empty(),
    {
        self.entities.clear();
        assert(self@ =~= Set::<u64>::empty());
    }

    /// Marks every entity of `items`, keeping the markers already there.
    pub fn mark_all(&mut self, items: &Vec<u64>)
        ensures
            final(self)@ == old(self)@ + Set::new(|e: u64| items@.contains(e)),
    {
        let ghost before = self.entities@;
        let mut i: usize = 0;
        while i < items.len()
            invariant
                0 <= i <= items@.len(),
                forall|e: u64| #[trigger]
                    self.entities@.contains(e) <==> (before.contains(e) || exists|j: int|
                        0 <= j < i && items@[j] == e),
            decreases items@.len() - i,
        {
            let ghost prev = self.entities@;
            self.entities.push(items[i]);
            proof {
                assert forall|e: u64| #[trigger]
                    self.entities@.contains(e) <==> (prev.contains(e) || e == items@[i as int]) by {
                    if prev.contains(e) {
                        let k = prev.index_of(e);
                        assert(self.entities@[k] == e);
                    }
                    if e == items@[i as int] {
                        assert(self.entities@[prev.len() as int] == e);
                    }
                    if self.entities@.contains(e) {
                        let k = self.entities@.index_of(e);
                        if k < prev.len() {
                            assert(prev[k] == e);
                        }
                    }
                }
                assert forall|e: u64| #[trigger]
                    self.entities@.contains(e) <==> (before.contains(e) || exists|j: int|
                        0 <= j < i + 1 && items@[j] == e) by {
                    if e == items@[i as int] {
                        assert(0 <= i < i + 1 && items@[i as int] == e);
                    }
                    if exists|j: int| 0 <= j < i + 1 && items@[j] == e {
                        let j = choose|j: int| 0 <= j < i + 1 && items@[j] == e;
                        if j < i {
                            assert(prev.contains(e));
                        }
                    }
                }
            }
            i += 1;
        }
        proof {
            assert forall|e: u64| self@.contains(e) <==> (old(self)@ + Set::new(
                |e: u64| items@.contains(e),
            )).contains(e) by {
                if items@.contains(e) {
                    let j = items@.index_of(e);
                    assert(0 <= j < i && items@[j] == e);
                }
            }
            assert(self@ =~= old(self)@ + Set::new(|e: u64| items@.contains(e)));
        }
    }
}

/// A box is picked by a drag whose corners unproject to the four sightlines
/// when one of the four corner rays meets it, or when the frustum between
/// them can be built and the box is inside it.
pub open spec fn picked(b: Aabb, c0: Sightline, c1: Sightline, c2: Sightline, c3: Sightline) -> bool {
    ||| ray_hits(c0.spec_ray(), b)
    ||| ray_hits(c1.spec_ray(), b)
    ||| ray_hits(c2.spec_ray(), b)
    ||| ray_hits(c3.spec_ray(), b)
    ||| (frustum_of(c0, c1, c2, c3) matches Some(f) && f.admits(b))
}

/// The entities of the index that a drag picks.
pub open spec fn picked_set(
    index: Map<u64, Aabb>,
    c0: Sightline,
    c1: Sightline,
    c2: Sightline,
    c3: Sightline,
) -> Set<u64> {
    Set::new(|e: u64| index.contains_key(e) && picked(index[e], c0, c1, c2, c3))
}

/// Resolves a confirmed drag: clears every marker, marks what each of the
/// four corner rays meets, then, if the frustum can be built, also what lies
/// inside it. Degenerate geometry (a click, a zero-width or zero-height drag)
/// skips the frustum and keeps the ray results. Returns whether the frustum
/// was used.
pub fn resolve_selection(
    tree: &BoundingTree,
    c0: Sightline,
    c1: Sightline,
    c2: Sightline,
    c3: Sightline,
    selection: &mut Selection,
) -> (used_frustum: bool)
    requires
        tree.wf(),
        c0.wf(),
        c1.wf(),
        c2.wf(),
        c3.wf(),
    ensures
        final(selection)@ == picked_set(tree@, c0, c1, c2, c3),
        used_frustum == frustum_of(c0, c1, c2, c3) is Some,
{
    selection.clear();
    let h0 = tree.test_ray(&c0.ray());
    selection.mark_all(&h0);
    let h1 = tree.test_ray(&c1.ray());
    selection.mark_all(&h1);
    let h2 = tree.test_ray(&c2.ray());
    selection.mark_all(&h2);
    let h3 = tree.test_ray(&c3.ray());
    selection.mark_all(&h3);
    let used = match Frustum::from_sightlines(c0, c1, c2, c3) {
        Some(f) => {
            let hf = tree.test_frustum(&f);
            selection.mark_all(&hf);
            true
        },
        None => false,
    };
    assert(selection@ =~= picked_set(tree@, c0, c1, c2, c3));
    used
}

} // verus!
