use voxel_world::block::{Block, BlockStates, GameContent};
use voxel_world::chunk::{Chunk, AIR_BLOCK_ID, BLOCKS_IN_CHUNK, CHUNK_SIZE, MAX_CHUNK_INDEX};
use voxel_world::registry::Registry;

fn content_with(ids: &[&str]) -> GameContent {
    let mut blocks: Registry<Block> = Registry::new();
    for id in ids {
        blocks.register(id, Block { id: id.to_string(), block_states: BlockStates::default() });
    }
    GameContent::new(blocks, Registry::new())
}

#[test]
fn new_chunk_is_all_air() {
    let c = Chunk::new([1, -2, 3]);
    assert_eq!(c.position, [1, -2, 3]);
    assert_eq!(c.palette, vec![AIR_BLOCK_ID.to_string()]);
    assert_eq!(c.blocks.len(), BLOCKS_IN_CHUNK);
    assert!(c.blocks.iter().all(|&b| b == 0));
    assert_eq!(CHUNK_SIZE * CHUNK_SIZE * CHUNK_SIZE, BLOCKS_IN_CHUNK);
    assert_eq!(MAX_CHUNK_INDEX, BLOCKS_IN_CHUNK - 1);
}

#[test]
fn index_formula_values() {
    assert_eq!(Chunk::index(0, 0, 0), 0);
    assert_eq!(Chunk::index(1, 0, 0), 1);
    assert_eq!(Chunk::index(0, 1, 0), 16);
    assert_eq!(Chunk::index(0, 0, 1), 256);
    assert_eq!(Chunk::index(1, 2, 3), 801);
    assert_eq!(Chunk::index(15, 15, 15), 4095);
}

#[test]
fn index_round_trip_all_coordinates() {
    for x in 0..16 {
        for y in 0..16 {
            for z in 0..16 {
                let idx = Chunk::index(x, y, z);
                assert_eq!(idx % 16, x);
                assert_eq!((idx / 16) % 16, y);
                assert_eq!(idx / 256, z);
            }
        }
    }
}

#[test]
fn set_block_appends_then_reuses_palette_entries() {
    let mut c = Chunk::new([0, 0, 0]);
    c.set_block(1, 2, 3, "x:stone");
    assert_eq!(c.palette, vec!["base:air".to_string(), "x:stone".to_string()]);
    assert_eq!(c.blocks[801], 1);
    c.set_block(0, 0, 0, "x:dirt");
    assert_eq!(c.palette.len(), 3);
    assert_eq!(c.blocks[0], 2);
    c.set_block(5, 5, 5, "x:stone");
    assert_eq!(c.palette.len(), 3);
    assert_eq!(c.blocks[Chunk::index(5, 5, 5)], 1);
}

#[test]
fn setting_air_never_grows_palette() {
    let mut c = Chunk::new([0, 0, 0]);
    c.set_block(1, 1, 1, AIR_BLOCK_ID);
    assert_eq!(c.palette.len(), 1);
    c.set_block(2, 2, 2, "x:stone");
    let before = c.palette.clone();
    c.set_block(2, 2, 2, AIR_BLOCK_ID);
    assert_eq!(c.palette, before);
    assert_eq!(c.blocks[Chunk::index(2, 2, 2)], 0);
    assert!(c.is_air_at_idx(Chunk::index(2, 2, 2)));
}

#[test]
fn palette_invariant_over_many_writes() {
    let mut c = Chunk::new([0, 0, 0]);
    let ids = ["a:one", "base:air", "a:two", "a:one", "a:three", "base:air", "a:two"];
    let mut k: usize = 0;
    for x in 0..16 {
        for z in 0..16 {
            c.set_block(x, (x + z) % 16, z, ids[k % ids.len()]);
            k += 1;
            assert_eq!(c.palette[0], AIR_BLOCK_ID);
            assert!(c.blocks.iter().all(|&b| (b as usize) < c.palette.len()));
        }
    }
    assert_eq!(c.palette.len(), 4);
}

#[test]
fn is_air_at_idx_reads_index_zero() {
    let mut c = Chunk::new([0, 0, 0]);
    assert!(c.is_air_at_idx(17));
    c.set_block(1, 1, 0, "x:stone");
    assert!(!c.is_air_at_idx(17));
}

#[test]
fn generate_flat_fills_bottom_half() {
    let content = content_with(&["template:dirt"]);
    let mut c = Chunk::new([0, 0, 0]);
    c.generate_flat("template:dirt", &content);
    assert_eq!(c.palette, vec!["base:air".to_string(), "template:dirt".to_string()]);
    for idx in 0..BLOCKS_IN_CHUNK {
        let y = (idx / 16) % 16;
        assert_eq!(c.blocks[idx], if y < 8 { 1 } else { 0 });
    }
}

#[test]
fn get_block_resolves_through_registry() {
    let content = content_with(&["x:stone"]);
    let mut c = Chunk::new([0, 0, 0]);
    c.set_block(3, 4, 5, "x:stone");
    c.set_block(6, 6, 6, "x:unknown");
    let b = c.get_block(3, 4, 5, &content).expect("registered block");
    assert_eq!(b.id, "x:stone");
    assert!(c.get_block(6, 6, 6, &content).is_none());
    assert!(c.get_block(0, 0, 0, &content).is_none());
}

#[test]
fn registry_register_replaces_and_get_misses() {
    let mut r: Registry<u32> = Registry::new();
    r.register("a", 1);
    r.register("b", 2);
    r.register("a", 3);
    assert_eq!(*r.get("a").unwrap(), 3);
    assert_eq!(*r.get("b").unwrap(), 2);
    assert!(r.get("c").is_none());
    assert_eq!(r.iter().len(), 2);
}
