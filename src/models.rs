use vstd::prelude::*;

verus! {

/// Which mesh of a `MeshStore`.
#[derive(Clone, Copy, Debug, PartialEq, Eq, Structural)]
pub struct MeshID(pub usize);

/// The size of a generated box mesh, in world units.
#[derive(Clone, Copy, Debug, PartialEq, Eq, Structural)]
pub struct MeshShape {
    pub width: u32,
    pub height: u32,
    pub length: u32,
}

/// The meshes that models are instantiated from: a unit cube and a flat
/// unit plane.
pub struct MeshStore {
    meshes: Vec<MeshShape>,
}

impl View for MeshStore {
    type V = Seq<MeshShape>;

    closed spec fn view(&self) -> Seq<MeshShape> {
        self.meshes@
    }
}

impl MeshStore {
    /// The unit cube.
    pub fn cube() -> (r: MeshID)
        ensures
            r.0 == 0,
    {
        MeshID(0)
    }

    /// The flat unit plane.
    pub fn plane() -> (r: MeshID)
        ensures
            r.0 == 1,
    {
        MeshID(1)
    }

    pub fn new() -> (r: MeshStore)
        ensures
            r@ == seq![
                MeshShape { width: 1, height: 1, length: 1 },
                MeshShape { width: 1, height: 0, length: 1 },
            ],
    {
        let meshes = vec![
            MeshShape { width: 1, height: 1, length: 1 },
            MeshShape { width: 1, height: 0, length: 1 },
        ];
        let r = MeshStore { meshes };
        assert(r@ =~= seq![
            MeshShape { width: 1, height: 1, length: 1 },
            MeshShape { width: 1, height: 0, length: 1 },
        ]);
        r
    }

    /// The mesh a model instantiated from `id` is built on.
    pub fn instantiate_model(&self, id: MeshID) -> (r: MeshShape)
        requires
            id.0 < self@.len(),
        ensures
            r == self@[id.0 as int],
    {
        self.meshes[id.0]
    }
}

} // verus!
