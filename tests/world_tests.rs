use std::sync::Arc;
use voxel_world::block::{Block, BlockStates, GameContent};
use voxel_world::chunk::ChunkCoords;
use voxel_world::registry::Registry;
use voxel_world::world::{to_chunk_coord, World, DIRT_BLOCK_ID};

fn content() -> GameContent {
    let mut blocks: Registry<Block> = Registry::new();
    blocks.register(DIRT_BLOCK_ID, Block { id: DIRT_BLOCK_ID.to_string(), block_states: BlockStates::default() });
    GameContent::new(blocks, Registry::new())
}

fn has(list: &Vec<(ChunkCoords, Arc<voxel_world::chunk::Chunk>)>, p: ChunkCoords) -> bool {
    list.iter().any(|(q, _)| *q == p)
}

#[test]
fn load_chunk_twice_returns_same_chunk() {
    let content = content();
    let mut w = World::new();
    let a = w.load_chunk([3, -1, 2], &content);
    let b = w.load_chunk([3, -1, 2], &content);
    assert!(Arc::ptr_eq(&a, &b));
    assert_eq!(a.palette, b.palette);
    assert_eq!(w.chunks.len(), 1);
    assert_eq!(w.loaded_chunks.len(), 1);
}

#[test]
fn generated_chunk_is_flat() {
    let content = content();
    let mut w = World::new();
    let c = w.load_chunk([0, 0, 0], &content);
    assert_eq!(c.position, [0, 0, 0]);
    assert_eq!(c.palette, vec!["base:air".to_string(), "template:dirt".to_string()]);
    assert_eq!(c.blocks[0], 1);
    assert_eq!(c.blocks[8 * 16], 0);
}

#[test]
fn unload_keeps_chunk_generated() {
    let content = content();
    let mut w = World::new();
    let a = w.load_chunk([1, 0, 0], &content);
    w.unload_chunk([1, 0, 0]);
    assert!(!has(&w.loaded_chunks, [1, 0, 0]));
    assert!(has(&w.chunks, [1, 0, 0]));
    let b = w.load_chunk([1, 0, 0], &content);
    assert!(Arc::ptr_eq(&a, &b));
    w.unload_chunk([9, 9, 9]);
    assert_eq!(w.loaded_chunks.len(), 1);
}

#[test]
fn get_chunk_does_not_load() {
    let content = content();
    let mut w = World::new();
    let a = w.get_chunk([0, 5, 0], &content);
    assert_eq!(a.position, [0, 5, 0]);
    assert_eq!(w.chunks.len(), 1);
    assert!(w.loaded_chunks.is_empty());
}

#[test]
fn init_loads_two_chunks() {
    let content = content();
    let mut w = World::new();
    w.init(&content);
    assert!(has(&w.loaded_chunks, [0, 0, 0]));
    assert!(has(&w.loaded_chunks, [2, 0, 0]));
    assert_eq!(w.loaded_chunks.len(), 2);
}

#[test]
fn world_coordinates_split_with_floored_division() {
    assert_eq!(to_chunk_coord(0), (0, 0));
    assert_eq!(to_chunk_coord(17), (1, 1));
    assert_eq!(to_chunk_coord(-1), (-1, 15));
    assert_eq!(to_chunk_coord(-16), (-1, 0));
    assert_eq!(to_chunk_coord(-17), (-2, 15));
    assert_eq!(to_chunk_coord(i32::MIN), (i32::MIN / 16, 0));
    assert_eq!(to_chunk_coord(i32::MAX), (i32::MAX / 16, 15));
}

#[test]
fn get_block_world_handles_negative_coordinates() {
    let content = content();
    let mut w = World::new();
    assert!(w.get_block_world(-1, -1, -1, &content).is_none());
    w.load_chunk([-1, -1, -1], &content);
    // World (-1, -1, -1) is local (15, 15, 15): top half, air, not registered.
    assert!(w.get_block_world(-1, -1, -1, &content).is_none());
    // World (-16, -16, -16) is local (0, 0, 0): dirt.
    let b = w.get_block_world(-16, -16, -16, &content).expect("dirt");
    assert_eq!(b.id, DIRT_BLOCK_ID);
    assert!(w.get_block_world(0, 0, 0, &content).is_none());
}
