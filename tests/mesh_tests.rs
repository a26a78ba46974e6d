use voxel_world::chunk::{Chunk, CHUNK_SIZE};
use voxel_world::mesh::{build_chunk_mesh, AtlasUV, BlockUvs, ChunkMesh};

fn total(m: &ChunkMesh) -> usize {
    m.x_pos.len() + m.x_neg.len() + m.y_pos.len() + m.y_neg.len() + m.z_pos.len() + m.z_neg.len()
}

#[test]
fn all_air_chunk_has_no_mesh() {
    let c = Chunk::new([0, 0, 0]);
    assert!(build_chunk_mesh(&c, &BlockUvs::new([64, 64])).is_none());
}

#[test]
fn chunk_whose_solid_voxel_was_cleared_has_no_mesh() {
    let mut c = Chunk::new([0, 0, 0]);
    c.set_block(4, 4, 4, "x:stone");
    c.set_block(4, 4, 4, "base:air");
    assert_eq!(c.palette.len(), 2);
    assert!(build_chunk_mesh(&c, &BlockUvs::new([64, 64])).is_none());
}

#[test]
fn isolated_voxel_gives_thirty_six_vertices() {
    let mut c = Chunk::new([0, 0, 0]);
    c.set_block(8, 8, 8, "x:stone");
    let m = build_chunk_mesh(&c, &BlockUvs::new([64, 64])).expect("mesh");
    assert_eq!(total(&m), 36);
    for list in [&m.x_pos, &m.x_neg, &m.y_pos, &m.y_neg, &m.z_pos, &m.z_neg] {
        assert_eq!(list.len(), 6);
    }
}

#[test]
fn occluded_voxel_contributes_no_faces() {
    let mut c = Chunk::new([0, 0, 0]);
    for x in 7..10 {
        for y in 7..10 {
            for z in 7..10 {
                c.set_block(x, y, z, "x:stone");
            }
        }
    }
    let m = build_chunk_mesh(&c, &BlockUvs::new([64, 64])).expect("mesh");
    // A 3x3x3 cube shows 9 faces per side, 6 vertices each.
    assert_eq!(m.x_pos.len(), 54);
    assert_eq!(total(&m), 324);
    // +X faces of the centre column would lie on the plane x = 8.5 (17 in half voxels).
    assert!(m.x_pos.iter().all(|v| v.position[0] == 19));
    assert!(m.x_neg.iter().all(|v| v.position[0] == 13));
}

#[test]
fn full_chunk_shows_only_boundary_faces() {
    let mut c = Chunk::new([0, 0, 0]);
    for x in 0..CHUNK_SIZE {
        for y in 0..CHUNK_SIZE {
            for z in 0..CHUNK_SIZE {
                c.set_block(x, y, z, "x:stone");
            }
        }
    }
    let m = build_chunk_mesh(&c, &BlockUvs::new([64, 64])).expect("mesh");
    assert_eq!(m.y_pos.len(), 16 * 16 * 6);
    assert_eq!(total(&m), 6 * 16 * 16 * 6);
}

#[test]
fn vertex_positions_and_texture_coordinates() {
    let mut c = Chunk::new([1, 0, -1]);
    c.set_block(0, 0, 0, "x:stone");
    let mut uvs = BlockUvs::new([64, 32]);
    uvs.insert("x:stone", AtlasUV { uv_min: [16, 0], uv_max: [32, 16] });
    let m = build_chunk_mesh(&c, &uvs).expect("mesh");
    // First +X vertex: template (0.5, -0.5, -0.5) with texture corner (1, 1).
    let v = m.x_pos[0];
    assert_eq!(v.position, [2 * 16 + 1, -1, 2 * (-16) - 1]);
    assert_eq!(v.tex_coords, [32, 16]);
    // Second +X vertex: template (0.5, -0.5, 0.5) with texture corner (0, 1).
    let v = m.x_pos[1];
    assert_eq!(v.position, [33, -1, -31]);
    assert_eq!(v.tex_coords, [16, 16]);
}

#[test]
fn missing_uv_entry_uses_whole_atlas() {
    let mut c = Chunk::new([0, 0, 0]);
    c.set_block(0, 0, 0, "x:plain");
    let mut uvs = BlockUvs::new([64, 32]);
    uvs.insert("x:other", AtlasUV { uv_min: [1, 1], uv_max: [2, 2] });
    assert_eq!(uvs.get("x:plain"), AtlasUV { uv_min: [0, 0], uv_max: [64, 32] });
    let m = build_chunk_mesh(&c, &uvs).expect("mesh");
    assert_eq!(m.x_pos[0].tex_coords, [64, 32]);
    assert_eq!(m.x_pos[1].tex_coords, [0, 32]);
}

#[test]
fn uv_table_insert_replaces() {
    let mut uvs = BlockUvs::new([8, 8]);
    uvs.insert("a", AtlasUV { uv_min: [0, 0], uv_max: [4, 4] });
    uvs.insert("a", AtlasUV { uv_min: [4, 4], uv_max: [8, 8] });
    assert_eq!(uvs.get("a"), AtlasUV { uv_min: [4, 4], uv_max: [8, 8] });
    assert_eq!(uvs.atlas_size(), [8, 8]);
}
