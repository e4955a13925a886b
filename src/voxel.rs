use vstd::prelude::*;

use crate::geom::Point3;

verus! {

/// Number of `true` entries.
pub open spec fn count_true(s: Seq<bool>) -> nat
    decreases s.len(),
{
    if s.len() == 0 {
        0
    } else {
        count_true(s.drop_last()) + if s.last() { 1nat } else { 0nat }
    }
}

proof fn lemma_count_true_le(s: Seq<bool>)
    ensures
        count_true(s) <= s.len(),
    decreases s.len(),
{
    if s.len() > 0 {
        lemma_count_true_le(s.drop_last());
    }
}

/// Counts of what a voxel model would draw: its occupied voxels and the
/// triangles of their cubes.
#[derive(Clone, Copy, Debug, Default, PartialEq, Eq, Structural)]
pub struct VoxelModelStats {
    pub nb_voxels: usize,
    pub nb_triangles: usize,
}

impl VoxelModelStats {
    /// Adds another model's counts to these.
    pub fn add_assign(&mut self, other: VoxelModelStats)
        requires
            old(self).nb_voxels + other.nb_voxels <= usize::MAX,
            old(self).nb_triangles + other.nb_triangles <= usize::MAX,
        ensures
            final(self).nb_voxels == old(self).nb_voxels + other.nb_voxels,
            final(self).nb_triangles == old(self).nb_triangles + other.nb_triangles,
    {
        self.nb_voxels = self.nb_voxels + other.nb_voxels;
        self.nb_triangles = self.nb_triangles + other.nb_triangles;
    }
}

/// Number of triangles drawn for one voxel: two for each face of its cube.
pub const TRIANGLES_PER_VOXEL: usize = 12;

/// A cube of `SIZE`^3 voxels, each occupied or empty, stored x first, then
/// y, then z.
pub struct VoxelChunk {
    voxels: Vec<bool>,
}

impl View for VoxelChunk {
    type V = Seq<bool>;

    closed spec fn view(&self) -> Seq<bool> {
        self.voxels@
    }
}

impl VoxelChunk {
    pub const SIZE: usize = 32;

    pub const VOLUME: usize = 32768;

    /// Position of the voxel stored at `i`.
    pub open spec fn spec_position(i: int) -> (int, int, int) {
        (i % 32, (i / 32) % 32, i / 1024)
    }

    /// An empty chunk.
    pub fn new() -> (r: VoxelChunk)
        ensures
            r@.len() == VoxelChunk::VOLUME,
            forall|i: int| 0 <= i < VoxelChunk::VOLUME ==> !#[trigger] r@[i],
    {
        let mut voxels: Vec<bool> = Vec::new();
        let mut i: usize = 0;
        while i < VoxelChunk::VOLUME
            invariant
                0 <= i <= VoxelChunk::VOLUME,
                voxels@.len() == i,
                forall|j: int| 0 <= j < i ==> !#[trigger] voxels@[j],
            decreases VoxelChunk::VOLUME - i,
        {
            voxels.push(false);
            i += 1;
        }
        VoxelChunk { voxels }
    }

    /// A test pattern: every third voxel, in storage order, is occupied.
    pub fn checkerboard() -> (r: VoxelChunk)
        ensures
            r@.len() == VoxelChunk::VOLUME,
            forall|i: int| 0 <= i < VoxelChunk::VOLUME ==> #[trigger] r@[i] == (i % 3 == 0),
    {
        let mut voxels: Vec<bool> = Vec::new();
        let mut i: usize = 0;
        while i < VoxelChunk::VOLUME
            invariant
                0 <= i <= VoxelChunk::VOLUME,
                voxels@.len() == i,
                forall|j: int| 0 <= j < i ==> #[trigger] voxels@[j] == (j % 3 == 0),
            decreases VoxelChunk::VOLUME - i,
        {
            voxels.push(i % 3 == 0);
            i += 1;
        }
        VoxelChunk { voxels }
    }

    /// Whether the voxel at local position `(x, y, z)` is occupied.
    pub fn get(&self, x: usize, y: usize, z: usize) -> (r: bool)
        requires
            self@.len() == VoxelChunk::VOLUME,
            x < VoxelChunk::SIZE,
            y < VoxelChunk::SIZE,
            z < VoxelChunk::SIZE,
        ensures
            r == self@[x + y * 32 + z * 1024],
    {
        self.voxels[x + y * VoxelChunk::SIZE + z * (VoxelChunk::SIZE * VoxelChunk::SIZE)]
    }

    /// Marks the voxel at local position `(x, y, z)` occupied or empty.
    pub fn set(&mut self, x: usize, y: usize, z: usize, v: bool)
        requires
            old(self)@.len() == VoxelChunk::VOLUME,
            x < VoxelChunk::SIZE,
            y < VoxelChunk::SIZE,
            z < VoxelChunk::SIZE,
        ensures
            final(self)@ == old(self)@.update(x + y * 32 + z * 1024, v),
    {
        self.voxels.set(x + y * VoxelChunk::SIZE + z * (VoxelChunk::SIZE * VoxelChunk::SIZE), v);
    }

    /// The number of occupied voxels, and twelve triangles for each.
    pub fn stats(&self) -> (r: VoxelModelStats)
        requires
            self@.len() == VoxelChunk::VOLUME,
        ensures
            r.nb_voxels == count_true(self@),
            r.nb_triangles == 12 * count_true(self@),
    {
        let mut n: usize = 0;
        let mut i: usize = 0;
        while i < self.voxels.len()
            invariant
                self.voxels@.len() == VoxelChunk::VOLUME,
                0 <= i <= self.voxels@.len(),
                n == count_true(self.voxels@.take(i as int)),
            decreases self.voxels@.len() - i,
        {
            proof {
                assert(self.voxels@.take(i + 1).drop_last() =~= self.voxels@.take(i as int));
                lemma_count_true_le(self.voxels@.take(i as int));
            }
            if self.voxels[i] {
                n = n + 1;
            }
            i += 1;
        }
        assert(self.voxels@.take(i as int) =~= self.voxels@);
        proof {
            lemma_count_true_le(self.voxels@);
        }
        VoxelModelStats { nb_voxels: n, nb_triangles: n * TRIANGLES_PER_VOXEL }
    }
}


/// An integer position in voxel space.
#[derive(Clone, Copy, Debug, PartialEq, Eq, Structural)]
pub struct Vec3i {
    pub x: i32,
    pub y: i32,
    pub z: i32,
}

/// The lower corner, on one axis, of the chunk that holds coordinate `v`.
pub open spec fn chunk_base(v: int) -> int {
    v - v % 32
}

/// Where the voxel at `(x, y, z)` is stored inside its chunk.
pub open spec fn local_index(x: int, y: int, z: int) -> int {
    x % 32 + (y % 32) * 32 + (z % 32) * 1024
}

/// `v % 32` (never negative), computed on machine integers.
fn rem32(v: i32) -> (r: i64)
    ensures
        r == v % 32,
        0 <= r < 32,
{
    let w = v as i64;
    if w >= 0 {
        w % 32
    } else {
        let m = (-w) % 32;
        if m == 0 {
            0
        } else {
            32 - m
        }
    }
}

/// Slot `i` of the chunk whose lower corner is `o` holds the voxel at
/// `o + spec_position(i)`, and that voxel is stored nowhere else.
proof fn lemma_slot_position(o: (int, int, int), i: int)
    requires
        o.0 % 32 == 0 && o.1 % 32 == 0 && o.2 % 32 == 0,
        0 <= i < 32768,
    ensures
        ({
            let q = VoxelChunk::spec_position(i);
            let p = (o.0 + q.0, o.1 + q.1, o.2 + q.2);
            &&& chunk_base(p.0) == o.0 && chunk_base(p.1) == o.1 && chunk_base(p.2) == o.2
            &&& local_index(p.0, p.1, p.2) == i
            &&& 0 <= q.0 < 32 && 0 <= q.1 < 32 && 0 <= q.2 < 32
        }),
{
    let q = VoxelChunk::spec_position(i);
    assert(i == q.0 + q.1 * 32 + q.2 * 1024 && 0 <= q.2 < 32) by (nonlinear_arith)
        requires
            0 <= i < 32768,
            q == (i % 32, (i / 32) % 32, i / 1024),
    ;
}

/// The voxel at `p` sits in slot `local_index(p)` of the chunk at its base.
proof fn lemma_position_slot(p: (int, int, int))
    ensures
        ({
            let i = local_index(p.0, p.1, p.2);
            let q = VoxelChunk::spec_position(i);
            &&& 0 <= i < 32768
            &&& p == (chunk_base(p.0) + q.0, chunk_base(p.1) + q.1, chunk_base(p.2) + q.2)
        }),
{
    let (a, b, c) = (p.0 % 32, p.1 % 32, p.2 % 32);
    let i = local_index(p.0, p.1, p.2);
    assert(0 <= a < 32 && 0 <= b < 32 && 0 <= c < 32);
    assert(0 <= i < 32768 && i % 32 == a && (i / 32) % 32 == b && i / 1024 == c) by (nonlinear_arith)
        requires
            0 <= a < 32,
            0 <= b < 32,
            0 <= c < 32,
            i == a + b * 32 + c * 1024,
    ;
}

proof fn lemma_local_index_injective(a: (int, int, int), b: (int, int, int))
    requires
        chunk_base(a.0) == chunk_base(b.0),
        chunk_base(a.1) == chunk_base(b.1),
        chunk_base(a.2) == chunk_base(b.2),
        local_index(a.0, a.1, a.2) == local_index(b.0, b.1, b.2),
    ensures
        a == b,
{
    let (ax, ay, az) = (a.0 % 32, a.1 % 32, a.2 % 32);
    let (bx, by, bz) = (b.0 % 32, b.1 % 32, b.2 % 32);
    assert(0 <= ax < 32 && 0 <= ay < 32 && 0 <= az < 32);
    assert(0 <= bx < 32 && 0 <= by < 32 && 0 <= bz < 32);
    assert(ax == bx && ay == by && az == bz) by (nonlinear_arith)
        requires
            0 <= ax < 32,
            0 <= ay < 32,
            0 <= az < 32,
            0 <= bx < 32,
            0 <= by < 32,
            0 <= bz < 32,
            ax + ay * 32 + az * 1024 == bx + by * 32 + bz * 1024,
    ;
}

/// A chunk corner within reach of an `i32` position.
pub open spec fn origin_ok(v: int) -> bool {
    -4294967296 <= v <= 4294967296
}

/// The unit cell of the voxel at `p` lies between `lo` and `hi`.
pub open spec fn cell_within(p: (int, int, int), lo: Point3, hi: Point3) -> bool {
    &&& lo.x <= p.0 && p.0 + 1 <= hi.x
    &&& lo.y <= p.1 && p.1 + 1 <= hi.y
    &&& lo.z <= p.2 && p.2 + 1 <= hi.z
}

/// Occupied voxels over a sequence of chunks.
pub open spec fn chunk_counts(s: Seq<VoxelChunk>) -> nat
    decreases s.len(),
{
    if s.len() == 0 {
        0
    } else {
        chunk_counts(s.drop_last()) + count_true(s.last()@)
    }
}

proof fn lemma_chunk_counts_le(s: Seq<VoxelChunk>)
    requires
        forall|k: int| 0 <= k < s.len() ==> (#[trigger] s[k])@.len() == VoxelChunk::VOLUME,
    ensures
        chunk_counts(s) <= s.len() * VoxelChunk::VOLUME,
    decreases s.len(),
{
    if s.len() > 0 {
        lemma_chunk_counts_le(s.drop_last());
        lemma_count_true_le(s.last()@);
        assert(s.last() == s[s.len() - 1]);
    }
}

/// A voxel model: chunks of `VoxelChunk::SIZE`^3 voxels, each stored with the
/// position of its lower corner. Space without a chunk is empty.
pub struct VoxelModel {
    origins: Vec<(i64, i64, i64)>,
    chunks: Vec<VoxelChunk>,
}

pub open spec fn tuple_int(t: (i64, i64, i64)) -> (int, int, int) {
    (t.0 as int, t.1 as int, t.2 as int)
}

pub open spec fn pos_of(v: Vec3i) -> (int, int, int) {
    (v.x as int, v.y as int, v.z as int)
}

impl VoxelModel {
    pub closed spec fn wf(&self) -> bool {
        &&& self.origins@.len() == self.chunks@.len()
        &&& forall|k: int| 0 <= k < self.chunks@.len() ==> (#[trigger] self.chunks@[k])@.len() == VoxelChunk::VOLUME
        &&& forall|k: int, l: int|
            0 <= k < l < self.origins@.len() ==> #[trigger] self.origins@[k] != #[trigger] self.origins@[l]
        &&& forall|k: int|
            0 <= k < self.origins@.len() ==> (#[trigger] self.origins@[k]).0 % 32 == 0
                && self.origins@[k].1 % 32 == 0 && self.origins@[k].2 % 32 == 0
                && origin_ok(self.origins@[k].0 as int) && origin_ok(self.origins@[k].1 as int)
                && origin_ok(self.origins@[k].2 as int)
    }

    spec fn holds(&self, k: int, p: (int, int, int)) -> bool {
        &&& 0 <= k < self.origins@.len()
        &&& self.origins@[k].0 == chunk_base(p.0)
        &&& self.origins@[k].1 == chunk_base(p.1)
        &&& self.origins@[k].2 == chunk_base(p.2)
    }

    /// Whether the voxel at `p` is occupied.
    pub closed spec fn occupied(&self, p: (int, int, int)) -> bool {
        exists|k: int| #[trigger] self.holds(k, p) && self.chunks@[k]@[local_index(p.0, p.1, p.2)]
    }

    /// Number of chunks held.
    pub closed spec fn chunk_count(&self) -> nat {
        self.chunks@.len()
    }

    /// Number of occupied voxels, chunk by chunk.
    pub closed spec fn voxel_total(&self) -> nat {
        chunk_counts(self.chunks@)
    }

    /// Number of chunks held.
    pub fn num_chunks(&self) -> (r: usize)
        ensures
            r == self.chunk_count(),
    {
        self.chunks.len()
    }

    /// A model with no voxel.
    pub fn new() -> (r: VoxelModel)
        ensures
            r.wf(),
            r.chunk_count() == 0,
            forall|p: (int, int, int)| !r.occupied(p),
    {
        VoxelModel { origins: Vec::new(), chunks: Vec::new() }
    }

    /// A test model: one checkerboard chunk at the origin.
    pub fn checkerboard() -> (r: VoxelModel)
        ensures
            r.wf(),
            r.chunk_count() == 1,
            forall|p: (int, int, int)|
                r.occupied(p) <==> (chunk_base(p.0) == 0 && chunk_base(p.1) == 0 && chunk_base(p.2)
                    == 0 && local_index(p.0, p.1, p.2) % 3 == 0),
    {
        let r = VoxelModel { origins: vec![(0, 0, 0)], chunks: vec![VoxelChunk::checkerboard()] };
        proof {
            assert forall|p: (int, int, int)|
                r.occupied(p) <==> (chunk_base(p.0) == 0 && chunk_base(p.1) == 0 && chunk_base(p.2)
                    == 0 && local_index(p.0, p.1, p.2) % 3 == 0) by {
                let li = local_index(p.0, p.1, p.2);
                assert(0 <= li < VoxelChunk::VOLUME);
                if chunk_base(p.0) == 0 && chunk_base(p.1) == 0 && chunk_base(p.2) == 0 {
                    assert(r.holds(0, p));
                }
            }
        }
        r
    }

    /// The occupied voxels of all chunks, and twelve triangles for each.
    pub fn stats(&self) -> (r: VoxelModelStats)
        requires
            self.wf(),
            self.chunk_count() * 393216 <= usize::MAX,
        ensures
            r.nb_voxels == self.voxel_total(),
            r.nb_triangles == 12 * self.voxel_total(),
    {
        let mut total = VoxelModelStats { nb_voxels: 0, nb_triangles: 0 };
        let mut k: usize = 0;
        while k < self.chunks.len()
            invariant
                self.wf(),
                self.chunks@.len() * 393216 <= usize::MAX,
                0 <= k <= self.chunks@.len(),
                total.nb_voxels == chunk_counts(self.chunks@.take(k as int)),
                total.nb_triangles == 12 * chunk_counts(self.chunks@.take(k as int)),
            decreases self.chunks@.len() - k,
        {
            let ghost pre = self.chunks@.take(k as int);
            let ghost next = self.chunks@.take(k + 1);
            proof {
                assert(next.drop_last() =~= pre);
                assert(forall|j: int| 0 <= j < next.len() ==> #[trigger] next[j] == self.chunks@[j]);
                lemma_chunk_counts_le(next);
                assert(chunk_counts(next) == chunk_counts(pre) + count_true(self.chunks@[k as int]@));
                assert(next.len() * VoxelChunk::VOLUME <= self.chunks@.len() * 32768) by (nonlinear_arith)
                    requires next.len() <= self.chunks@.len();
            }
            assert(self.chunks@[k as int]@.len() == VoxelChunk::VOLUME);
            let s = self.chunks[k].stats();
            total.add_assign(s);
            k += 1;
        }
        assert(self.chunks@.take(k as int) =~= self.chunks@);
        total
    }

    spec fn occ_slot(&self, k: int, i: int) -> bool {
        &&& 0 <= k < self.chunks@.len()
        &&& 0 <= i < VoxelChunk::VOLUME
        &&& self.chunks@[k]@[i]
    }

    spec fn slot_pos(&self, k: int, i: int) -> (int, int, int) {
        let q = VoxelChunk::spec_position(i);
        (self.origins@[k].0 + q.0, self.origins@[k].1 + q.1, self.origins@[k].2 + q.2)
    }

    proof fn lemma_occupied_slot(&self, p: (int, int, int))
        requires
            self.wf(),
        ensures
            self.occupied(p) ==> exists|k: int, i: int| #[trigger] self.occ_slot(k, i) && self.slot_pos(k, i) == p,
    {
        if self.occupied(p) {
            let k = choose|k: int| #[trigger] self.holds(k, p) && self.chunks@[k]@[local_index(p.0, p.1, p.2)];
            lemma_position_slot(p);
            let i = local_index(p.0, p.1, p.2);
            assert(self.occ_slot(k, i) && self.slot_pos(k, i) == p);
        }
    }

    proof fn lemma_slot_occupied(&self, k: int, i: int)
        requires
            self.wf(),
            self.occ_slot(k, i),
        ensures
            self.occupied(self.slot_pos(k, i)),
    {
        let o = self.origins@[k];
        lemma_slot_position((o.0 as int, o.1 as int, o.2 as int), i);
        assert(self.holds(k, self.slot_pos(k, i)));
    }

    /// The box, in voxel units, around the cells of all occupied voxels (the
    /// voxel at `p` fills the unit cube from `p` to `p + 1`): every occupied
    /// cell lies inside it and each of its faces touches one. `None` when no
    /// voxel is occupied.
    pub fn local_bounds(&self) -> (r: Option<(Point3, Point3)>)
        requires
            self.wf(),
        ensures
            match r {
                None => forall|p: (int, int, int)| !self.occupied(p),
                Some((lo, hi)) => {
                    &&& forall|p: (int, int, int)| #[trigger] self.occupied(p) ==> cell_within(p, lo, hi)
                    &&& exists|p: (int, int, int)| #[trigger] self.occupied(p) && p.0 == lo.x
                    &&& exists|p: (int, int, int)| #[trigger] self.occupied(p) && p.1 == lo.y
                    &&& exists|p: (int, int, int)| #[trigger] self.occupied(p) && p.2 == lo.z
                    &&& exists|p: (int, int, int)| #[trigger] self.occupied(p) && p.0 + 1 == hi.x
                    &&& exists|p: (int, int, int)| #[trigger] self.occupied(p) && p.1 + 1 == hi.y
                    &&& exists|p: (int, int, int)| #[trigger] self.occupied(p) && p.2 + 1 == hi.z
                },
            },
    {
        let mut have = false;
        let mut lo = Point3 { x: 0, y: 0, z: 0 };
        let mut hi = Point3 { x: 0, y: 0, z: 0 };
        let ghost mut w0: (int, int) = (0, 0);
        let ghost mut w1: (int, int) = (0, 0);
        let ghost mut w2: (int, int) = (0, 0);
        let ghost mut w3: (int, int) = (0, 0);
        let ghost mut w4: (int, int) = (0, 0);
        let ghost mut w5: (int, int) = (0, 0);
        let mut k: usize = 0;
        while k < self.chunks.len()
            invariant
                self.wf(),
                0 <= k <= self.chunks@.len(),
                forall|k2: int, i2: int|
                    #[trigger] self.occ_slot(k2, i2) && k2 < k ==> have && cell_within(self.slot_pos(k2, i2), lo, hi),
                have ==> {
                    &&& self.occ_slot(w0.0, w0.1) && self.slot_pos(w0.0, w0.1).0 == lo.x
                    &&& self.occ_slot(w1.0, w1.1) && self.slot_pos(w1.0, w1.1).1 == lo.y
                    &&& self.occ_slot(w2.0, w2.1) && self.slot_pos(w2.0, w2.1).2 == lo.z
                    &&& self.occ_slot(w3.0, w3.1) && self.slot_pos(w3.0, w3.1).0 + 1 == hi.x
                    &&& self.occ_slot(w4.0, w4.1) && self.slot_pos(w4.0, w4.1).1 + 1 == hi.y
                    &&& self.occ_slot(w5.0, w5.1) && self.slot_pos(w5.0, w5.1).2 + 1 == hi.z
                },
            decreases self.chunks@.len() - k,
        {
            let o = self.origins[k];
            assert(self.chunks@[k as int]@.len() == VoxelChunk::VOLUME);
            let mut i: usize = 0;
            while i < VoxelChunk::VOLUME
                invariant
                    self.wf(),
                    0 <= k < self.chunks@.len(),
                    o == self.origins@[k as int],
                    self.chunks@[k as int]@.len() == VoxelChunk::VOLUME,
                    0 <= i <= VoxelChunk::VOLUME,
                    forall|k2: int, i2: int|
                        #[trigger] self.occ_slot(k2, i2) && (k2 < k || (k2 == k && i2 < i)) ==> have
                            && cell_within(self.slot_pos(k2, i2), lo, hi),
                    have ==> {
                        &&& self.occ_slot(w0.0, w0.1) && self.slot_pos(w0.0, w0.1).0 == lo.x
                        &&& self.occ_slot(w1.0, w1.1) && self.slot_pos(w1.0, w1.1).1 == lo.y
                        &&& self.occ_slot(w2.0, w2.1) && self.slot_pos(w2.0, w2.1).2 == lo.z
                        &&& self.occ_slot(w3.0, w3.1) && self.slot_pos(w3.0, w3.1).0 + 1 == hi.x
                        &&& self.occ_slot(w4.0, w4.1) && self.slot_pos(w4.0, w4.1).1 + 1 == hi.y
                        &&& self.occ_slot(w5.0, w5.1) && self.slot_pos(w5.0, w5.1).2 + 1 == hi.z
                    },
                decreases VoxelChunk::VOLUME - i,
            {
                if self.chunks[k].voxels[i] {
                    let x = o.0 + (i % 32) as i64;
                    let y = o.1 + ((i / 32) % 32) as i64;
                    let z = o.2 + (i / 1024) as i64;
                    let ghost here = (k as int, i as int);
                    assert(self.occ_slot(k as int, i as int));
                    assert(self.slot_pos(k as int, i as int) == (x as int, y as int, z as int));
                    if !have {
                        have = true;
                        lo = Point3 { x, y, z };
                        hi = Point3 { x: x + 1, y: y + 1, z: z + 1 };
                        proof {
                            w0 = here;
                            w1 = here;
                            w2 = here;
                            w3 = here;
                            w4 = here;
                            w5 = here;
                        }
                    } else {
                        if x < lo.x {
                            lo.x = x;
                            proof {
                                w0 = here;
                            }
                        }
                        if y < lo.y {
                            lo.y = y;
                            proof {
                                w1 = here;
                            }
                        }
                        if z < lo.z {
                            lo.z = z;
                            proof {
                                w2 = here;
                            }
                        }
                        if x + 1 > hi.x {
                            hi.x = x + 1;
                            proof {
                                w3 = here;
                            }
                        }
                        if y + 1 > hi.y {
                            hi.y = y + 1;
                            proof {
                                w4 = here;
                            }
                        }
                        if z + 1 > hi.z {
                            hi.z = z + 1;
                            proof {
                                w5 = here;
                            }
                        }
                    }
                }
                i += 1;
            }
            k += 1;
        }
        proof {
            assert forall|p: (int, int, int)| #[trigger] self.occupied(p) implies have && cell_within(p, lo, hi) by {
                self.lemma_occupied_slot(p);
            }
            if have {
                self.lemma_slot_occupied(w0.0, w0.1);
                self.lemma_slot_occupied(w1.0, w1.1);
                self.lemma_slot_occupied(w2.0, w2.1);
                self.lemma_slot_occupied(w3.0, w3.1);
                self.lemma_slot_occupied(w4.0, w4.1);
                self.lemma_slot_occupied(w5.0, w5.1);
            }
        }
        if have {
            Some((lo, hi))
        } else {
            None
        }
    }

    /// The positions of the occupied voxels, chunk by chunk: each listed
    /// position is occupied and each occupied position is listed.
    pub fn occupied_voxels(&self) -> (r: Vec<(i64, i64, i64)>)
        requires
            self.wf(),
        ensures
            forall|k: int| 0 <= k < r@.len() ==> #[trigger] self.occupied(tuple_int(r@[k])),
            forall|p: (int, int, int)| #[trigger] self.occupied(p) ==> exists|k: int|
                0 <= k < r@.len() && tuple_int(r@[k]) == p,
    {
        let mut out: Vec<(i64, i64, i64)> = Vec::new();
        let mut k: usize = 0;
        while k < self.chunks.len()
            invariant
                self.wf(),
                0 <= k <= self.chunks@.len(),
                forall|j: int| 0 <= j < out@.len() ==> #[trigger] self.occupied(tuple_int(out@[j])),
                forall|k2: int, i2: int| #[trigger] self.occ_slot(k2, i2) && k2 < k ==> exists|j: int|
                    0 <= j < out@.len() && tuple_int(out@[j]) == self.slot_pos(k2, i2),
            decreases self.chunks@.len() - k,
        {
            let o = self.origins[k];
            assert(self.chunks@[k as int]@.len() == VoxelChunk::VOLUME);
            let mut i: usize = 0;
            while i < VoxelChunk::VOLUME
                invariant
                    self.wf(),
                    0 <= k < self.chunks@.len(),
                    o == self.origins@[k as int],
                    self.chunks@[k as int]@.len() == VoxelChunk::VOLUME,
                    0 <= i <= VoxelChunk::VOLUME,
                    forall|j: int| 0 <= j < out@.len() ==> #[trigger] self.occupied(tuple_int(out@[j])),
                    forall|k2: int, i2: int|
                        #[trigger] self.occ_slot(k2, i2) && (k2 < k || (k2 == k && i2 < i)) ==> exists|j: int|
                            0 <= j < out@.len() && tuple_int(out@[j]) == self.slot_pos(k2, i2),
                decreases VoxelChunk::VOLUME - i,
            {
                if self.chunks[k].voxels[i] {
                    let q = (o.0 + (i % 32) as i64, o.1 + ((i / 32) % 32) as i64, o.2 + (i / 1024) as i64);
                    proof {
                        assert(self.occ_slot(k as int, i as int));
                        assert(tuple_int(q) == self.slot_pos(k as int, i as int));
                        self.lemma_slot_occupied(k as int, i as int);
                    }
                    let ghost before = out@;
                    out.push(q);
                    proof {
                        assert forall|j: int| 0 <= j < out@.len() implies #[trigger] self.occupied(tuple_int(out@[j])) by {
                            if j < before.len() {
                                assert(out@[j] == before[j]);
                            }
                        }
                        assert forall|k2: int, i2: int|
                            #[trigger] self.occ_slot(k2, i2) && (k2 < k || (k2 == k && i2 < i + 1)) implies exists|j: int|
                                0 <= j < out@.len() && tuple_int(out@[j]) == self.slot_pos(k2, i2) by {
                            if k2 == k && i2 == i {
                                assert(tuple_int(out@[before.len() as int]) == self.slot_pos(k2, i2));
                            } else {
                                let j = choose|j: int| 0 <= j < before.len() && tuple_int(before[j]) == self.slot_pos(k2, i2);
                                assert(out@[j] == before[j]);
                            }
                        }
                    }
                }
                i += 1;
            }
            k += 1;
        }
        proof {
            assert forall|p: (int, int, int)| #[trigger] self.occupied(p) implies exists|j: int|
                0 <= j < out@.len() && tuple_int(out@[j]) == p by {
                self.lemma_occupied_slot(p);
            }
        }
        out
    }

    /// The chunk that holds `p`, if there is one.
    fn find(&self, ox: i64, oy: i64, oz: i64) -> (r: Option<usize>)
        requires
            self.wf(),
        ensures
            match r {
                Some(k) => k < self.origins@.len() && self.origins@[k as int] == (ox, oy, oz),
                None => forall|k: int| 0 <= k < self.origins@.len() ==> self.origins@[k] != (ox, oy, oz),
            },
    {
        let mut k: usize = 0;
        while k < self.origins.len()
            invariant
                0 <= k <= self.origins@.len(),
                forall|j: int| 0 <= j < k ==> self.origins@[j] != (ox, oy, oz),
            decreases self.origins@.len() - k,
        {
            let o = self.origins[k];
            if o.0 == ox && o.1 == oy && o.2 == oz {
                return Some(k);
            }
            k += 1;
        }
        None
    }

    /// Whether the voxel at `pos` is occupied.
    pub fn get(&self, pos: Vec3i) -> (r: bool)
        requires
            self.wf(),
        ensures
            r == self.occupied(pos_of(pos)),
    {
        let (lx, ly, lz) = (rem32(pos.x), rem32(pos.y), rem32(pos.z));
        let (ox, oy, oz) = (pos.x as i64 - lx, pos.y as i64 - ly, pos.z as i64 - lz);
        let ghost p = pos_of(pos);
        match self.find(ox, oy, oz) {
            Some(k) => {
                assert(self.holds(k as int, p));
                let r = self.chunks[k].get(lx as usize, ly as usize, lz as usize);
                proof {
                    if self.occupied(p) {
                        let j = choose|j: int| #[trigger] self.holds(j, p) && self.chunks@[j]@[local_index(p.0, p.1, p.2)];
                        assert(self.origins@[j] == self.origins@[k as int]);
                    }
                }
                r
            },
            None => {
                assert(!self.occupied(p)) by {
                    if self.occupied(p) {
                        let j = choose|j: int| #[trigger] self.holds(j, p) && self.chunks@[j]@[local_index(p.0, p.1, p.2)];
                        assert(self.origins@[j] == (ox, oy, oz));
                    }
                }
                false
            },
        }
    }

    /// A chunk for `o` that holds no voxel changes no voxel.
    proof fn lemma_push_empty(a: VoxelModel, b: VoxelModel, o: (i64, i64, i64), c: VoxelChunk)
        requires
            a.wf(),
            forall|k: int| 0 <= k < a.origins@.len() ==> a.origins@[k] != o,
            o.0 % 32 == 0 && o.1 % 32 == 0 && o.2 % 32 == 0,
            origin_ok(o.0 as int) && origin_ok(o.1 as int) && origin_ok(o.2 as int),
            c@.len() == VoxelChunk::VOLUME,
            forall|i: int| 0 <= i < VoxelChunk::VOLUME ==> !#[trigger] c@[i],
            b.origins@ == a.origins@.push(o),
            b.chunks@ == a.chunks@.push(c),
        ensures
            b.wf(),
            forall|q: (int, int, int)| #[trigger] b.occupied(q) == a.occupied(q),
    {
        assert forall|q: (int, int, int)| #[trigger] b.occupied(q) == a.occupied(q) by {
            let i = local_index(q.0, q.1, q.2);
            if a.occupied(q) {
                let j = choose|j: int| #[trigger] a.holds(j, q) && a.chunks@[j]@[i];
                assert(b.holds(j, q) && b.chunks@[j] == a.chunks@[j]);
            }
            if b.occupied(q) {
                let j = choose|j: int| #[trigger] b.holds(j, q) && b.chunks@[j]@[i];
                lemma_position_slot(q);
                if j == a.origins@.len() {
                    assert(!c@[i]);
                } else {
                    assert(a.holds(j, q) && a.chunks@[j] == b.chunks@[j]);
                }
            }
        }
    }

    /// Writing slot `local_index(p)` of the chunk that holds `p` changes the
    /// voxel at `p` and no other.
    proof fn lemma_write_slot(a: VoxelModel, b: VoxelModel, k: int, p: (int, int, int), c: VoxelChunk, v: bool)
        requires
            a.wf(),
            a.holds(k, p),
            c@ == a.chunks@[k]@.update(local_index(p.0, p.1, p.2), v),
            b.origins@ == a.origins@,
            b.chunks@ == a.chunks@.update(k, c),
        ensures
            b.wf(),
            b.occupied(p) == v,
            forall|q: (int, int, int)| q != p ==> #[trigger] b.occupied(q) == a.occupied(q),
    {
        let li = local_index(p.0, p.1, p.2);
        lemma_position_slot(p);
        assert(b.chunks@[k]@.len() == VoxelChunk::VOLUME);
        assert(b.wf());
        assert(b.occupied(p) == v) by {
            if v {
                assert(b.holds(k, p) && b.chunks@[k]@[li]);
            }
            if b.occupied(p) {
                let j = choose|j: int| #[trigger] b.holds(j, p) && b.chunks@[j]@[li];
                assert(b.origins@[j] == b.origins@[k]);
            }
        }
        assert forall|q: (int, int, int)| q != p implies #[trigger] b.occupied(q) == a.occupied(q) by {
            let lq = local_index(q.0, q.1, q.2);
            lemma_position_slot(q);
            if a.holds(k, q) && lq == li {
                lemma_local_index_injective(p, q);
            }
            if a.occupied(q) {
                let j = choose|j: int| #[trigger] a.holds(j, q) && a.chunks@[j]@[lq];
                assert(b.holds(j, q));
            }
            if b.occupied(q) {
                let j = choose|j: int| #[trigger] b.holds(j, q) && b.chunks@[j]@[lq];
                assert(a.holds(j, q));
            }
        }
    }

    /// Marks the voxel at `pos` occupied or empty, creating its chunk when
    /// there is none yet; no other voxel changes.
    pub fn set(&mut self, pos: Vec3i, v: bool)
        requires
            old(self).wf(),
        ensures
            final(self).wf(),
            final(self).occupied(pos_of(pos)) == v,
            forall|q: (int, int, int)| q != pos_of(pos) ==> #[trigger] final(self).occupied(q) == old(self).occupied(q),
            final(self).chunk_count() <= old(self).chunk_count() + 1,
    {
        let (lx, ly, lz) = (rem32(pos.x), rem32(pos.y), rem32(pos.z));
        let (ox, oy, oz) = (pos.x as i64 - lx, pos.y as i64 - ly, pos.z as i64 - lz);
        let ghost p = pos_of(pos);
        let k = match self.find(ox, oy, oz) {
            Some(k) => k,
            None => {
                let ghost before = *self;
                let empty = VoxelChunk::new();
                let ghost c = empty;
                self.origins.push((ox, oy, oz));
                self.chunks.push(empty);
                proof {
                    VoxelModel::lemma_push_empty(before, *self, (ox, oy, oz), c);
                }
                self.chunks.len() - 1
            },
        };
        let ghost mid = *self;
        assert(self.holds(k as int, p));
        let mut c = self.chunks.remove(k);
        c.set(lx as usize, ly as usize, lz as usize, v);
        self.chunks.insert(k, c);
        proof {
            assert(self.chunks@ =~= mid.chunks@.update(k as int, c));
            VoxelModel::lemma_write_slot(mid, *self, k as int, p, c, v);
        }
    }
}


/// What parsing a MagicaVoxel file gives: for each model, the position of
/// each of its voxels; `None` for bytes that are not such a file.
pub uninterp spec fn vox_models_of(data: Seq<u8>) -> Option<Seq<Seq<(u8, u8, u8)>>>;

/// The little-endian `u32` stored at `i`.
pub open spec fn u32_at(s: Seq<u8>, i: int) -> int {
    s[i] + 256 * s[i + 1] + 65536 * s[i + 2] + 16777216 * s[i + 3]
}

/// The four bytes at `i` spell the chunk id `id`.
pub open spec fn id_at(s: Seq<u8>, i: int, id: Seq<u8>) -> bool {
    s[i] == id[0] && s[i + 1] == id[1] && s[i + 2] == id[2] && s[i + 3] == id[3]
}

pub open spec fn magic_id() -> Seq<u8> {
    seq![86u8, 79u8, 88u8, 32u8]
}

pub open spec fn size_id() -> Seq<u8> {
    seq![83u8, 73u8, 90u8, 69u8]
}

pub open spec fn xyzi_id() -> Seq<u8> {
    seq![88u8, 89u8, 90u8, 73u8]
}

pub open spec fn pack_id() -> Seq<u8> {
    seq![80u8, 65u8, 67u8, 75u8]
}

pub open spec fn rgba_id() -> Seq<u8> {
    seq![82u8, 71u8, 66u8, 65u8]
}

pub open spec fn matl_id() -> Seq<u8> {
    seq![77u8, 65u8, 84u8, 76u8]
}

/// How deeply chunks may nest inside the main chunk.
pub const MAX_NESTING: usize = 8;

/// `n` dictionary entries, each two strings given as a `u32` length and that
/// many bytes, lie whole between `q` and `e`.
pub open spec fn dict_framed(s: Seq<u8>, q: int, e: int, n: nat) -> bool
    decreases n,
{
    if n == 0 {
        true
    } else {
        let q2 = q + 4 + u32_at(s, q);
        let q3 = q2 + 4 + u32_at(s, q2);
        q + 4 <= e && q2 + 4 <= e && q3 <= e && dict_framed(s, q3, e, (n - 1) as nat)
    }
}

/// The chunk at `p` lies whole before `e`: a four-byte id, the sizes of its
/// content and of its children, then both. Its content holds every field
/// that its kind is read for: the three extents of `SIZE`, the count and
/// the four-byte records of `XYZI`, whole `u32`s in `RGBA`, the id, count
/// and strings of a `MATL` dictionary, and whole chunks in `PACK`. Its
/// children are whole chunks; they nest at most `depth` levels deeper.
pub open spec fn chunk_framed(s: Seq<u8>, p: int, e: int, depth: nat) -> bool
    decreases depth, e - p, 0int,
{
    let cs = u32_at(s, p + 4);
    let ch = u32_at(s, p + 8);
    let c0 = p + 12;
    let c1 = c0 + cs;
    let end = c1 + ch;
    if p < 0 || e < p + 12 || e < end {
        false
    } else if ch == 0 {
        if id_at(s, p, size_id()) {
            cs >= 12
        } else if id_at(s, p, xyzi_id()) {
            cs >= 4 && c0 + 4 + 4 * u32_at(s, c0) <= c1
        } else if id_at(s, p, pack_id()) {
            depth > 0 && chunks_framed(s, c0, c1, (depth - 1) as nat)
        } else if id_at(s, p, rgba_id()) {
            cs % 4 == 0
        } else if id_at(s, p, matl_id()) {
            cs >= 8 && dict_framed(s, c0 + 8, c1, u32_at(s, c0 + 4) as nat)
        } else {
            true
        }
    } else {
        &&& depth > 0
        &&& chunks_framed(s, c1, end, (depth - 1) as nat)
        &&& id_at(s, p, pack_id()) ==> chunks_framed(s, c0, c1, (depth - 1) as nat)
    }
}

/// Where the chunk at `p` ends.
pub open spec fn chunk_end(s: Seq<u8>, p: int) -> int {
    p + 12 + u32_at(s, p + 4) + u32_at(s, p + 8)
}

/// Whole chunks, one after another, fill `p` to `e` exactly.
pub open spec fn chunks_framed(s: Seq<u8>, p: int, e: int, depth: nat) -> bool
    decreases depth, e - p, 1int,
{
    if p >= e {
        p == e
    } else {
        chunk_framed(s, p, e, depth) && p < chunk_end(s, p) <= e && chunks_framed(
            s,
            chunk_end(s, p),
            e,
            depth,
        )
    }
}

/// The bytes are a MagicaVoxel file whose every field that the parser reads
/// is present: the `VOX ` tag, a version, and a whole main chunk.
pub open spec fn vox_framed(s: Seq<u8>) -> bool {
    s.len() >= 8 && id_at(s, 0, magic_id()) && chunk_framed(s, 8, s.len() as int, MAX_NESTING as nat)
}

fn read_u32(data: &[u8], i: usize) -> (r: u64)
    requires
        i + 4 <= data@.len(),
    ensures
        r == u32_at(data@, i as int),
{
    data[i] as u64 + 256 * data[i + 1] as u64 + 65536 * data[i + 2] as u64 + 16777216 * data[i + 3] as u64
}

fn is_id(data: &[u8], i: usize, a: u8, b: u8, c: u8, d: u8) -> (r: bool)
    requires
        i + 4 <= data@.len(),
    ensures
        r == id_at(data@, i as int, seq![a, b, c, d]),
{
    data[i] == a && data[i + 1] == b && data[i + 2] == c && data[i + 3] == d
}

/// Checks `dict_framed`.
fn check_dict(data: &[u8], q0: usize, e: usize, n0: u64) -> (r: bool)
    requires
        q0 <= e <= data@.len(),
    ensures
        r == dict_framed(data@, q0 as int, e as int, n0 as nat),
{
    let mut q = q0;
    let mut n = n0;
    while n > 0
        invariant
            q <= e <= data@.len(),
            dict_framed(data@, q0 as int, e as int, n0 as nat) == dict_framed(data@, q as int, e as int, n as nat),
        decreases n,
    {
        if e - q < 4 {
            return false;
        }
        let l1 = read_u32(data, q);
        if l1 > (e - q - 4) as u64 {
            return false;
        }
        let q2 = q + 4 + l1 as usize;
        if e - q2 < 4 {
            return false;
        }
        let l2 = read_u32(data, q2);
        if l2 > (e - q2 - 4) as u64 {
            return false;
        }
        q = q2 + 4 + l2 as usize;
        n = n - 1;
    }
    true
}

/// Checks `chunk_framed`.
fn check_chunk(data: &[u8], p: usize, e: usize, depth: usize) -> (r: bool)
    requires
        p <= e <= data@.len(),
    ensures
        r == chunk_framed(data@, p as int, e as int, depth as nat),
    decreases depth, e - p, 0int,
{
    if e - p < 12 {
        return false;
    }
    let cs = read_u32(data, p + 4);
    let ch = read_u32(data, p + 8);
    if cs > (e - p - 12) as u64 {
        return false;
    }
    let c0 = p + 12;
    let c1 = c0 + cs as usize;
    if ch > (e - c1) as u64 {
        return false;
    }
    let end = c1 + ch as usize;
    if ch == 0 {
        if is_id(data, p, 83, 73, 90, 69) {
            cs >= 12
        } else if is_id(data, p, 88, 89, 90, 73) {
            cs >= 4 && read_u32(data, c0) <= (cs - 4) / 4
        } else if is_id(data, p, 80, 65, 67, 75) {
            depth > 0 && check_chunks(data, c0, c1, depth - 1)
        } else if is_id(data, p, 82, 71, 66, 65) {
            cs % 4 == 0
        } else if is_id(data, p, 77, 65, 84, 76) {
            cs >= 8 && check_dict(data, c0 + 8, c1, read_u32(data, c0 + 4))
        } else {
            true
        }
    } else {
        depth > 0 && check_chunks(data, c1, end, depth - 1) && (!is_id(data, p, 80, 65, 67, 75)
            || check_chunks(data, c0, c1, depth - 1))
    }
}

/// Checks `chunks_framed`.
fn check_chunks(data: &[u8], p0: usize, e: usize, depth: usize) -> (r: bool)
    requires
        p0 <= e <= data@.len(),
    ensures
        r == chunks_framed(data@, p0 as int, e as int, depth as nat),
    decreases depth, e - p0, 1int,
{
    let mut p = p0;
    while p < e
        invariant
            p0 <= p <= e <= data@.len(),
            chunks_framed(data@, p0 as int, e as int, depth as nat) == chunks_framed(
                data@,
                p as int,
                e as int,
                depth as nat,
            ),
        decreases e - p,
    {
        if !check_chunk(data, p, e, depth) {
            return false;
        }
        let end = p + 12 + read_u32(data, p + 4) as usize + read_u32(data, p + 8) as usize;
        p = end;
    }
    true
}

/// Checks `vox_framed`: whether the parser can read every field it needs.
pub fn check_framed(data: &[u8]) -> (r: bool)
    ensures
        r == vox_framed(data@),
{
    data.len() >= 8 && is_id(data, 0, 86, 79, 88, 32) && check_chunk(data, 8, data.len(), MAX_NESTING)
}

/// Relies on dot_vox::load_bytes, which parses a MagicaVoxel `.vox` file;
/// only the voxel positions of each model are kept. The parser indexes the
/// bytes of each field it reads without a bounds check, reserves room for as
/// many entries as a chunk declares, and recurses into nested chunks, so the
/// data must be framed (`vox_framed`) for it to return.
#[verifier::external_body]
fn load_vox(data: &[u8]) -> (r: Option<Vec<Vec<(u8, u8, u8)>>>)
    requires
        vox_framed(data@),
    ensures
        match r {
            Some(ms) => vox_models_of(data@) == Some(ms@.map_values(|m: Vec<(u8, u8, u8)>| m@)),
            None => vox_models_of(data@) is None,
        },
{
    match dot_vox::load_bytes(data) {
        Ok(d) => Some(
            d.models.into_iter().map(|m| m.voxels.into_iter().map(|v| (v.x, v.y, v.z)).collect()).collect(),
        ),
        Err(_) => None,
    }
}

/// Why voxel data could not be read.
#[derive(Clone, Copy, Debug, PartialEq, Eq, Structural)]
pub enum VoxError {
    /// The bytes are not a MagicaVoxel file.
    NotVox,
    /// A field that the parser reads is cut short, a chunk declares more
    /// entries than its content holds, or chunks nest too deeply.
    Malformed,
}

pub open spec fn voxel_pos(v: (u8, u8, u8)) -> (int, int, int) {
    (v.0 as int, v.1 as int, v.2 as int)
}

impl VoxelModel {
    /// A model holding exactly the given voxels.
    pub fn from_voxels(voxels: &Vec<(u8, u8, u8)>) -> (r: VoxelModel)
        ensures
            r.wf(),
            r.chunk_count() <= voxels@.len(),
            forall|p: (int, int, int)|
                r.occupied(p) <==> exists|j: int| 0 <= j < voxels@.len() && voxel_pos(#[trigger] voxels@[j]) == p,
    {
        let mut m = VoxelModel::new();
        let mut j: usize = 0;
        while j < voxels.len()
            invariant
                m.wf(),
                m.chunk_count() <= j,
                0 <= j <= voxels@.len(),
                forall|p: (int, int, int)|
                    m.occupied(p) <==> exists|i: int| 0 <= i < j && voxel_pos(#[trigger] voxels@[i]) == p,
            decreases voxels@.len() - j,
        {
            let v = voxels[j];
            let pos = Vec3i { x: v.0 as i32, y: v.1 as i32, z: v.2 as i32 };
            m.set(pos, true);
            proof {
                assert forall|p: (int, int, int)|
                    m.occupied(p) <==> exists|i: int| 0 <= i < j + 1 && voxel_pos(#[trigger] voxels@[i]) == p by {
                    if p == voxel_pos(v) {
                        assert(voxel_pos(voxels@[j as int]) == p);
                    } else {
                        if exists|i: int| 0 <= i < j + 1 && voxel_pos(#[trigger] voxels@[i]) == p {
                            let i = choose|i: int| 0 <= i < j + 1 && voxel_pos(#[trigger] voxels@[i]) == p;
                            assert(i < j);
                        }
                    }
                }
            }
            j += 1;
        }
        m
    }

    /// Reads every model of a MagicaVoxel file. Data that is not framed as
    /// such a file (`vox_framed`) is refused before parsing.
    pub fn from_vox(data: &[u8]) -> (r: Result<Vec<VoxelModel>, VoxError>)
        ensures
            match r {
                Err(VoxError::Malformed) => !vox_framed(data@),
                Err(VoxError::NotVox) => vox_framed(data@) && vox_models_of(data@) is None,
                Ok(models) => vox_framed(data@) && match vox_models_of(data@) {
                    Some(ms) => models@.len() == ms.len() && forall|i: int|
                        0 <= i < ms.len() ==> (#[trigger] models@[i]).wf() && models@[i].chunk_count()
                            <= ms[i].len() && forall|p: (int, int, int)|
                            models@[i].occupied(p) <==> exists|j: int|
                                0 <= j < ms[i].len() && voxel_pos(#[trigger] ms[i][j]) == p,
                    None => false,
                },
            },
    {
        if !check_framed(data) {
            return Err(VoxError::Malformed);
        }
        let parsed = match load_vox(data) {
            Some(ms) => ms,
            None => {
                return Err(VoxError::NotVox);
            },
        };
        let ghost ms = vox_models_of(data@)->0;
        let mut models: Vec<VoxelModel> = Vec::new();
        let mut i: usize = 0;
        while i < parsed.len()
            invariant
                ms == parsed@.map_values(|m: Vec<(u8, u8, u8)>| m@),
                0 <= i <= parsed@.len(),
                models@.len() == i,
                forall|k: int|
                    0 <= k < i ==> (#[trigger] models@[k]).wf() && models@[k].chunk_count() <= ms[k].len()
                        && forall|p: (int, int, int)|
                        models@[k].occupied(p) <==> exists|j: int|
                            0 <= j < ms[k].len() && voxel_pos(#[trigger] ms[k][j]) == p,
            decreases parsed@.len() - i,
        {
            let m = VoxelModel::from_voxels(&parsed[i]);
            assert(ms[i as int] == parsed@[i as int]@);
            models.push(m);
            i += 1;
        }
        Ok(models)
    }
}

} // verus!
