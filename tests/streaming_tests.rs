use voxel_world::block::{GameContent};
use voxel_world::chunk::ChunkCoords;
use voxel_world::input::KeyState;
use voxel_world::menu::{MenuScene, SceneType};
use voxel_world::mesh::{BlockUvs, BlockVertex, ChunkMesh};
use voxel_world::pack::{pack_chunk_meshes, select_faces, VERTEX_BYTES};
use voxel_world::registry::Registry;
use voxel_world::scene::GameScene;
use voxel_world::streaming::{get_all_chunk_pos_in_render, observer_chunk};

fn empty_content() -> GameContent {
    GameContent::new(Registry::new(), Registry::new())
}

fn loaded_set(s: &GameScene) -> Vec<ChunkCoords> {
    let mut v: Vec<ChunkCoords> = s.world.loaded_chunks.iter().map(|(p, _)| *p).collect();
    v.sort();
    v
}

fn vertex(n: i64) -> BlockVertex {
    BlockVertex { position: [n, 0, 0], tex_coords: [0, 0] }
}

fn verts(n: usize, tag: i64) -> Vec<BlockVertex> {
    (0..n).map(|i| vertex(tag * 1000 + i as i64)).collect()
}

fn mesh_all_dirs(n: usize, tag: i64) -> ChunkMesh {
    ChunkMesh {
        x_pos: verts(n, tag),
        y_pos: verts(n, tag),
        z_pos: verts(n, tag),
        x_neg: verts(n, tag),
        y_neg: verts(n, tag),
        z_neg: verts(n, tag),
    }
}

#[test]
fn render_set_matches_cylinder() {
    let set = get_all_chunk_pos_in_render([0, 0, 0], 2, 1);
    assert!(set.contains(&[2, 0, 0]));
    assert!(!set.contains(&[2, 0, 2]));
    assert!(set.contains(&[0, 1, 0]));
    assert!(!set.contains(&[0, 2, 0]));
    assert!(set.contains(&[1, -1, 1]));
    // 13 columns in the disc of radius 2, three layers.
    assert_eq!(set.len(), 39);
    let mut sorted = set.clone();
    sorted.dedup();
    assert_eq!(sorted.len(), set.len());
}

#[test]
fn render_set_radius_zero_is_observer_chunk() {
    assert_eq!(get_all_chunk_pos_in_render([5, -3, 7], 0, 0), vec![[5, -3, 7]]);
}

#[test]
fn observer_chunk_uses_floored_division() {
    assert_eq!(observer_chunk([-1, 17, 0]), [-1, 1, 0]);
    assert_eq!(observer_chunk([15, -16, -17]), [0, -1, -2]);
}

#[test]
fn transition_loads_one_and_unloads_one() {
    let content = empty_content();
    let mut s = GameScene::new(BlockUvs::new([16, 16]));
    assert!(s.update([0, 0, 0], 0, 0, &content));
    assert_eq!(loaded_set(&s), vec![[0, 0, 0]]);
    assert_eq!(s.chunk_meshes.len(), 1);
    assert!(s.update([1, 0, 0], 0, 0, &content));
    assert_eq!(loaded_set(&s), vec![[1, 0, 0]]);
    assert_eq!(s.chunk_meshes.len(), 1);
    assert_eq!(s.chunk_meshes[0].0, [1, 0, 0]);
    // Both chunks stay generated.
    assert_eq!(s.world.chunks.len(), 2);
    assert_eq!(s.current_chunk_pos, Some([1, 0, 0]));
}

#[test]
fn same_chunk_does_nothing() {
    let content = empty_content();
    let mut s = GameScene::new(BlockUvs::new([16, 16]));
    assert!(s.update([0, 0, 0], 1, 1, &content));
    let before = loaded_set(&s);
    assert!(!s.update([0, 0, 0], 3, 3, &content));
    assert_eq!(loaded_set(&s), before);
}

#[test]
fn wider_transition_keeps_overlap() {
    let content = empty_content();
    let mut s = GameScene::new(BlockUvs::new([16, 16]));
    s.update([0, 0, 0], 1, 0, &content);
    assert_eq!(loaded_set(&s).len(), 5);
    s.update([1, 0, 0], 1, 0, &content);
    assert_eq!(loaded_set(&s), vec![[0, 0, 0], [1, -0, -1], [1, 0, 0], [1, 0, 1], [2, 0, 0]]);
    // Only the flat layer y = 0 has geometry.
    assert_eq!(s.amount_of_chunk_meshes(), 5);
    assert_eq!(s.amount_of_cached_chunk_meshes(), 5);
}

#[test]
fn chunks_above_ground_have_no_mesh_only_flat_layer() {
    let content = empty_content();
    let mut s = GameScene::new(BlockUvs::new([16, 16]));
    s.update([0, 0, 0], 0, 1, &content);
    assert_eq!(loaded_set(&s).len(), 3);
    assert_eq!(s.amount_of_chunk_meshes(), 3);
}

#[test]
fn rebuild_meshes_after_world_init() {
    let content = empty_content();
    let mut s = GameScene::new(BlockUvs::new([16, 16]));
    s.world.init(&content);
    s.init_world(BlockUvs::new([32, 32]));
    assert_eq!(s.chunk_meshes.len(), 2);
    assert_eq!(s.block_uvs.atlas_size(), [32, 32]);
}

#[test]
fn packing_respects_budget_and_keeps_every_vertex() {
    // Three chunks, each selecting 6 * 4 = 24 vertices (observer level with them).
    let meshes: Vec<(ChunkCoords, Option<ChunkMesh>)> = vec![
        ([0, 0, 0], Some(mesh_all_dirs(4, 1))),
        ([0, 0, 1], None),
        ([0, 0, 2], Some(mesh_all_dirs(4, 2))),
        ([0, 0, 3], Some(mesh_all_dirs(4, 3))),
    ];
    let observer = [0, 0, 2];
    let budget = 50 * VERTEX_BYTES;
    let bufs = pack_chunk_meshes(&meshes, observer, budget).expect("fits");
    let mut total = 0;
    for b in &bufs {
        assert!(b.vertices.len() as u64 * VERTEX_BYTES <= budget);
        total += b.vertices.len();
    }
    let selected: usize = meshes
        .iter()
        .filter_map(|(p, m)| m.as_ref().map(|m| select_faces(m, *p, observer).len()))
        .sum();
    assert_eq!(total, selected);
    assert_eq!(bufs.len(), 2);
    assert_eq!(bufs[0].last_chunk, [0, 0, 2]);
    assert_eq!(bufs[1].last_chunk, [0, 0, 3]);
}

#[test]
fn packing_fails_when_one_chunk_is_too_large() {
    let meshes: Vec<(ChunkCoords, Option<ChunkMesh>)> = vec![([0, 0, 0], Some(mesh_all_dirs(10, 1)))];
    assert!(pack_chunk_meshes(&meshes, [0, 0, 0], 59 * VERTEX_BYTES).is_none());
    assert_eq!(pack_chunk_meshes(&meshes, [0, 0, 0], 60 * VERTEX_BYTES).expect("fits").len(), 1);
}

#[test]
fn packing_nothing_gives_no_buffer() {
    let meshes: Vec<(ChunkCoords, Option<ChunkMesh>)> = vec![([0, 0, 0], None)];
    assert!(pack_chunk_meshes(&meshes, [0, 0, 0], 100).expect("fits").is_empty());
}

#[test]
fn face_selection_follows_observer_side() {
    let m = ChunkMesh {
        x_pos: verts(1, 1),
        x_neg: verts(1, 2),
        y_pos: verts(1, 3),
        y_neg: verts(1, 4),
        z_pos: verts(1, 5),
        z_neg: verts(1, 6),
    };
    // Observer above, to +X and to -Z of the chunk.
    let sel = select_faces(&m, [0, 0, 0], [1, 1, -1]);
    let tags: Vec<i64> = sel.iter().map(|v| v.position[0] / 1000).collect();
    assert_eq!(tags, vec![1, 3, 6]);
    // Level with the chunk: all six lists.
    assert_eq!(select_faces(&m, [0, 0, 0], [0, 0, 0]).len(), 6);
}

#[test]
fn scene_packs_with_recorded_observer() {
    let content = empty_content();
    let mut s = GameScene::new(BlockUvs::new([16, 16]));
    s.update([0, 0, 0], 0, 0, &content);
    let bufs = s.update_chunk_vertex_buffers(u64::MAX).expect("fits");
    assert_eq!(bufs.len(), 1);
    // The flat chunk seen from inside: every face list of its mesh.
    let m = s.chunk_meshes[0].1.as_ref().expect("mesh");
    let all = m.x_pos.len() + m.x_neg.len() + m.y_pos.len() + m.y_neg.len() + m.z_pos.len() + m.z_neg.len();
    assert_eq!(bufs[0].vertices.len(), all);
}

#[test]
fn key_state_transitions() {
    assert_eq!(KeyState::default(), KeyState::Unpressed);
    assert_eq!(KeyState::Unpressed.update_state(true), KeyState::JustPressed);
    assert_eq!(KeyState::JustPressed.update_state(true), KeyState::Held);
    assert_eq!(KeyState::Held.update_state(true), KeyState::Held);
    assert_eq!(KeyState::Held.update_state(false), KeyState::Unpressed);
    assert!(KeyState::JustPressed.is_pressed());
    assert!(KeyState::Held.is_pressed());
    assert!(!KeyState::Unpressed.is_pressed());
    assert!(KeyState::JustPressed.is_just_pressed());
    assert!(!KeyState::Held.is_just_pressed());
}

#[test]
fn menu_hands_over_to_game() {
    let m = MenuScene::new();
    assert_eq!(m.next_scene(), SceneType::Game);
}

#[test]
fn missing_meshes_are_built_and_present_ones_kept() {
    let content = empty_content();
    let mut s = GameScene::new(BlockUvs::new([16, 16]));
    s.update([0, 0, 0], 0, 0, &content);
    s.world.load_chunk([0, -1, 0], &content);
    s.world.load_chunk([0, 1, 0], &content);
    assert_eq!(s.chunk_meshes.len(), 1);
    s.build_all_unbuild_loaded_chunks();
    assert_eq!(s.chunk_meshes.len(), 3);
    assert_eq!(s.amount_of_chunk_meshes(), 3);
    s.build_all_loaded_chunks();
    assert_eq!(s.chunk_meshes.len(), 3);
}
