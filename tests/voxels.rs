use rts::geom::Point3;
use rts::models::{MeshShape, MeshStore};
use rts::voxel::{Vec3i, VoxError, VoxelChunk, VoxelModel, VoxelModelStats};

#[test]
fn empty_chunk_has_no_voxels() {
    let c = VoxelChunk::new();
    assert_eq!(c.stats(), VoxelModelStats { nb_voxels: 0, nb_triangles: 0 });
}

#[test]
fn checkerboard_fills_every_third_voxel() {
    let c = VoxelChunk::checkerboard();
    assert_eq!(c.stats(), VoxelModelStats { nb_voxels: 10923, nb_triangles: 131076 });
    assert!(c.get(0, 0, 0));
    assert!(!c.get(1, 0, 0));
    assert!(c.get(3, 0, 0));
    assert!(c.get(1, 1, 0));
}

#[test]
fn setting_a_voxel_counts_it() {
    let mut c = VoxelChunk::new();
    c.set(31, 31, 31, true);
    c.set(0, 5, 2, true);
    assert!(c.get(31, 31, 31));
    assert_eq!(c.stats(), VoxelModelStats { nb_voxels: 2, nb_triangles: 24 });
    c.set(0, 5, 2, false);
    assert_eq!(c.stats().nb_voxels, 1);
}

#[test]
fn stats_add_up() {
    let mut a = VoxelModelStats { nb_voxels: 2, nb_triangles: 24 };
    a.add_assign(VoxelModelStats { nb_voxels: 3, nb_triangles: 36 });
    assert_eq!(a, VoxelModelStats { nb_voxels: 5, nb_triangles: 60 });
}

#[test]
fn mesh_store_holds_cube_and_plane() {
    let store = MeshStore::new();
    assert_eq!(store.instantiate_model(MeshStore::cube()), MeshShape { width: 1, height: 1, length: 1 });
    assert_eq!(store.instantiate_model(MeshStore::plane()), MeshShape { width: 1, height: 0, length: 1 });
}

fn v(x: i32, y: i32, z: i32) -> Vec3i {
    Vec3i { x, y, z }
}

fn chunk(id: &[u8; 4], content: &[u8], children: &[u8]) -> Vec<u8> {
    let mut out = id.to_vec();
    out.extend_from_slice(&(content.len() as u32).to_le_bytes());
    out.extend_from_slice(&(children.len() as u32).to_le_bytes());
    out.extend_from_slice(content);
    out.extend_from_slice(children);
    out
}

/// A MagicaVoxel file with one 4 x 4 x 4 model holding the given voxels.
fn vox_file(voxels: &[(u8, u8, u8)]) -> Vec<u8> {
    let coloured: Vec<(u8, u8, u8, u8)> = voxels.iter().map(|&(x, y, z)| (x, y, z, 1)).collect();
    vox_file_coloured(&coloured)
}

/// The same, with a palette index for each voxel.
fn vox_file_coloured(voxels: &[(u8, u8, u8, u8)]) -> Vec<u8> {
    let mut size = Vec::new();
    for d in [4u32, 4, 4] {
        size.extend_from_slice(&d.to_le_bytes());
    }
    let mut xyzi = (voxels.len() as u32).to_le_bytes().to_vec();
    for &(x, y, z, i) in voxels {
        xyzi.extend_from_slice(&[x, y, z, i]);
    }
    let mut children = chunk(b"SIZE", &size, &[]);
    children.extend(chunk(b"XYZI", &xyzi, &[]));
    let mut out = b"VOX ".to_vec();
    out.extend_from_slice(&150u32.to_le_bytes());
    out.extend(chunk(b"MAIN", &[], &children));
    out
}

#[test]
fn model_set_and_get_across_chunks() {
    let mut m = VoxelModel::new();
    assert!(!m.get(v(0, 0, 0)));
    m.set(v(1, 2, 3), true);
    m.set(v(40, 0, 70), true);
    m.set(v(-1, -33, 5), true);
    assert!(m.get(v(1, 2, 3)));
    assert!(m.get(v(40, 0, 70)));
    assert!(m.get(v(-1, -33, 5)));
    assert!(!m.get(v(8, 0, 70)));
    assert!(!m.get(v(31, -33, 5)));
    assert_eq!(m.stats(), VoxelModelStats { nb_voxels: 3, nb_triangles: 36 });
    m.set(v(1, 2, 3), false);
    assert!(!m.get(v(1, 2, 3)));
    assert_eq!(m.stats().nb_voxels, 2);
}

#[test]
fn checkerboard_model_is_one_chunk() {
    let m = VoxelModel::checkerboard();
    assert_eq!(m.stats(), VoxelModelStats { nb_voxels: 10923, nb_triangles: 131076 });
    assert!(m.get(v(0, 0, 0)));
    assert!(!m.get(v(32, 0, 0)));
    assert!(!m.get(v(-3, 0, 0)));
}

#[test]
fn from_vox_reads_voxel_positions() {
    let data = vox_file(&[(0, 0, 0), (3, 1, 2), (3, 1, 2)]);
    let models = VoxelModel::from_vox(&data).unwrap();
    assert_eq!(models.len(), 1);
    assert!(models[0].get(v(0, 0, 0)));
    assert!(models[0].get(v(3, 1, 2)));
    assert!(!models[0].get(v(1, 0, 0)));
    assert_eq!(models[0].stats().nb_voxels, 2);
}

#[test]
fn from_vox_rejects_other_bytes() {
    assert_eq!(VoxelModel::from_vox(b"not a vox file").err(), Some(VoxError::Malformed));
    assert_eq!(VoxelModel::from_vox(&[]).err(), Some(VoxError::Malformed));
    // Framed, but the chunk id is not text: the parser refuses it.
    let mut data = b"VOX ".to_vec();
    data.extend_from_slice(&150u32.to_le_bytes());
    data.extend(chunk(&[0xff, 0xff, 0xff, 0xff], &[], &[]));
    assert_eq!(VoxelModel::from_vox(&data).err(), Some(VoxError::NotVox));
}

#[test]
fn local_bounds_wrap_occupied_cells() {
    let mut m = VoxelModel::new();
    assert_eq!(m.local_bounds(), None);
    m.set(v(1, 2, 3), true);
    assert_eq!(m.local_bounds(), Some((Point3::new(1, 2, 3), Point3::new(2, 3, 4))));
    m.set(v(40, 0, 70), true);
    m.set(v(-1, -33, 5), true);
    assert_eq!(m.local_bounds(), Some((Point3::new(-1, -33, 3), Point3::new(41, 3, 71))));
    m.set(v(40, 0, 70), false);
    assert_eq!(m.local_bounds(), Some((Point3::new(-1, -33, 3), Point3::new(2, 3, 6))));
}

#[test]
fn local_bounds_of_checkerboard_fill_the_chunk() {
    let m = VoxelModel::checkerboard();
    assert_eq!(m.local_bounds(), Some((Point3::new(0, 0, 0), Point3::new(32, 32, 32))));
}

#[test]
fn from_vox_refuses_oversized_voxel_count() {
    let mut data = vox_file(&[(1, 1, 1)]);
    // The voxel count sits right after the XYZI chunk header.
    let at = data.windows(4).position(|w| w == b"XYZI").unwrap() + 12;
    data[at..at + 4].copy_from_slice(&u32::MAX.to_le_bytes());
    assert_eq!(VoxelModel::from_vox(&data).err(), Some(VoxError::Malformed));
    // A count one above what the content holds is refused as well.
    data[at..at + 4].copy_from_slice(&2u32.to_le_bytes());
    assert_eq!(VoxelModel::from_vox(&data).err(), Some(VoxError::Malformed));
}

#[test]
fn from_vox_refuses_truncated_data() {
    assert_eq!(VoxelModel::from_vox(b"VOX ").err(), Some(VoxError::Malformed));
    assert_eq!(VoxelModel::from_vox(b"VOX \x96\x00\x00\x00MAIN").err(), Some(VoxError::Malformed));
    let data = vox_file(&[(1, 1, 1)]);
    for cut in [9, 14, 20, data.len() - 1] {
        assert_eq!(VoxelModel::from_vox(&data[..cut]).err(), Some(VoxError::Malformed));
    }
}

#[test]
fn from_vox_refuses_oversized_material_count() {
    let mut children = chunk(b"MATL", &[0, 0, 0, 0, 0, 9, 61, 0], &[]);
    children.extend(chunk(b"SIZE", &[1, 0, 0, 0, 1, 0, 0, 0, 1, 0, 0, 0], &[]));
    let mut data = b"VOX ".to_vec();
    data.extend_from_slice(&150u32.to_le_bytes());
    data.extend(chunk(b"MAIN", &[], &children));
    assert_eq!(VoxelModel::from_vox(&data).err(), Some(VoxError::Malformed));
}

#[test]
fn from_vox_reads_material_and_palette_chunks() {
    let mut matl = 7u32.to_le_bytes().to_vec();
    matl.extend_from_slice(&1u32.to_le_bytes());
    for text in [&b"_type"[..], &b"_diffuse"[..]] {
        matl.extend_from_slice(&(text.len() as u32).to_le_bytes());
        matl.extend_from_slice(text);
    }
    let mut children = chunk(b"SIZE", &[4, 0, 0, 0, 4, 0, 0, 0, 4, 0, 0, 0], &[]);
    children.extend(chunk(b"XYZI", &[1, 0, 0, 0, 2, 3, 1, 5], &[]));
    children.extend(chunk(b"RGBA", &[0u8; 1024], &[]));
    children.extend(chunk(b"MATL", &matl, &[]));
    let mut data = b"VOX ".to_vec();
    data.extend_from_slice(&150u32.to_le_bytes());
    data.extend(chunk(b"MAIN", &[], &children));
    let models = VoxelModel::from_vox(&data).unwrap();
    assert_eq!(models.len(), 1);
    assert!(models[0].get(v(2, 3, 1)));
    // A palette whose length is not a whole number of entries is refused.
    let mut bad = data.clone();
    let at = bad.windows(4).position(|w| w == b"RGBA").unwrap() + 4;
    bad[at..at + 4].copy_from_slice(&1023u32.to_le_bytes());
    assert_eq!(VoxelModel::from_vox(&bad).err(), Some(VoxError::Malformed));
}

#[test]
fn from_vox_reads_voxels_that_spell_chunk_ids() {
    // Voxel (88, 89, 90) with palette index 73 stores the bytes "XYZI";
    // twelve bytes on, a voxel's bytes read as a large number.
    let data = vox_file_coloured(&[(88, 89, 90, 73), (0, 0, 0, 1), (1, 0, 0, 1), (255, 255, 255, 255)]);
    let models = VoxelModel::from_vox(&data).unwrap();
    assert!(models[0].get(v(88, 89, 90)));
    assert!(models[0].get(v(255, 255, 255)));
}

#[test]
fn occupied_voxels_lists_every_voxel() {
    let mut m = VoxelModel::new();
    assert!(m.occupied_voxels().is_empty());
    m.set(v(1, 2, 3), true);
    m.set(v(40, 0, 70), true);
    m.set(v(-1, -33, 5), true);
    m.set(v(40, 0, 70), false);
    let mut all = m.occupied_voxels();
    all.sort();
    assert_eq!(all, vec![(-1, -33, 5), (1, 2, 3)]);
    assert_eq!(VoxelModel::checkerboard().occupied_voxels().len(), 10923);
}
