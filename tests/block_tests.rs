use std::collections::HashMap;
use voxel_world::block::{load_blocks, Block, BlockModel, BlockState, BlockStates, GameContent, TextureEntry};
use voxel_world::registry::Registry;

fn block(id: &str, model_name: Option<&str>) -> Block {
    Block {
        id: id.to_string(),
        block_states: BlockStates {
            default: model_name.map(|m| BlockState { model_name: m.to_string(), model: None }),
        },
    }
}

fn model(tex: &str) -> BlockModel {
    let mut textures = HashMap::new();
    textures.insert("all".to_string(), tex.to_string());
    BlockModel { textures }
}

#[test]
fn default_block_is_empty() {
    let b = Block::default();
    assert!(b.id.is_empty());
    assert!(b.block_states.default.is_none());
    let t = TextureEntry { file_name: "dirt.png".to_string() };
    assert_eq!(t.file_name, "dirt.png");
}

#[test]
fn model_file_needs_a_non_empty_name() {
    assert_eq!(block("a", Some("cube.json5")).model_file(), Some("cube.json5".to_string()));
    assert_eq!(block("a", Some("")).model_file(), None);
    assert_eq!(block("a", None).model_file(), None);
}

#[test]
fn load_model_attaches_to_named_state_only() {
    let mut b = block("a", Some("cube.json5"));
    b.load_model(model("dirt.png"));
    let st = b.block_states.default.as_ref().unwrap();
    assert_eq!(st.model.as_ref().unwrap().textures["all"], "dirt.png");

    let mut unnamed = block("b", Some(""));
    unnamed.load_model(model("dirt.png"));
    assert!(unnamed.block_states.default.as_ref().unwrap().model.is_none());

    let mut stateless = block("c", None);
    stateless.load_model(model("dirt.png"));
    assert!(stateless.block_states.default.is_none());
}

#[test]
fn load_blocks_registers_blocks_and_models() {
    let loaded = vec![
        (block("x:dirt", Some("cube.json5")), Some(model("dirt.png"))),
        (block("x:glass", None), None),
        (block("x:stone", Some("rock.json5")), Some(model("stone.png"))),
        (block("x:dirt", Some("cube.json5")), Some(model("dirt2.png"))),
    ];
    let (blocks, models) = load_blocks(loaded);
    assert_eq!(blocks.iter().len(), 3);
    assert_eq!(models.iter().len(), 2);
    let dirt = blocks.get("x:dirt").unwrap();
    let st = dirt.block_states.default.as_ref().unwrap();
    assert_eq!(st.model.as_ref().unwrap().textures["all"], "dirt2.png");
    assert_eq!(models.get("cube.json5").unwrap().textures["all"], "dirt2.png");
    assert!(blocks.get("x:glass").unwrap().block_states.default.is_none());
    assert!(models.get("x:glass").is_none());
    let content = GameContent::new(blocks, models);
    assert!(content.blocks.get("x:stone").is_some());
    assert!(content.block_model.get("rock.json5").is_some());
}
