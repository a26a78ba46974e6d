//! Block definitions as the content registry holds them.
use std::collections::HashMap;
use std::sync::Arc;
use vstd::prelude::*;
use crate::registry::Registry;

verus! {

/// One kind of block: its identifier and its block states.
#[derive(Debug, Clone)]
pub struct Block {
    pub id: String,
    pub block_states: BlockStates,
}

/// The states a block can be in; only a default state exists so far.
#[derive(Debug, Clone, Default)]
pub struct BlockStates {
    pub default: Option<BlockState>,
}

/// A block state: the name of its model file and the model once loaded.
#[derive(Debug, Clone, Default)]
pub struct BlockState {
    pub model_name: String,
    pub model: Option<BlockModel>,
}

/// A block model: texture slot name to texture file name.
#[derive(Debug, Clone)]
pub struct BlockModel {
    pub textures: HashMap<String, String>,
}

/// One texture file of a block.
#[derive(Debug, Clone)]
pub struct TextureEntry {
    pub file_name: String,
}

impl Default for Block {
    fn default() -> (r: Self)
        ensures
            r.id@ == Seq::<char>::empty(),
            r.block_states.default.is_none(),
    {
        Block { id: String::new(), block_states: BlockStates { default: None } }
    }
}

/// The model file of a block's default state, when it names one.
pub open spec fn spec_model_file(b: Block) -> Option<String> {
    match b.block_states.default {
        Some(st) => if st.model_name@.len() > 0 { Some(st.model_name) } else { None },
        None => None,
    }
}

/// Block `b` with `model` attached to its default state, when that state names a model file.
pub open spec fn with_model(b: Block, model: BlockModel) -> Block {
    match b.block_states.default {
        Some(st) => if st.model_name@.len() > 0 {
            Block {
                id: b.id,
                block_states: BlockStates {
                    default: Some(BlockState { model_name: st.model_name, model: Some(model) }),
                },
            }
        } else {
            b
        },
        None => b,
    }
}

/// Block `b` as it is registered: with its model attached when one was loaded for it.
pub open spec fn registered_block(b: Block, model: Option<BlockModel>) -> Block {
    match model {
        Some(m) => with_model(b, m),
        None => b,
    }
}

/// The block registry after registering the first `n` loaded blocks in order.
pub open spec fn blocks_after(s: Seq<(Block, Option<BlockModel>)>, n: int) -> Map<Seq<char>, Arc<Block>>
    decreases n,
{
    if n <= 0 {
        Map::empty()
    } else {
        blocks_after(s, n - 1).insert(s[n - 1].0.id@, Arc::new(registered_block(s[n - 1].0, s[n - 1].1)))
    }
}

/// Whether a model is registered for loaded block `e`: it names a model file
/// and its model was loaded.
pub open spec fn registers_model(e: (Block, Option<BlockModel>)) -> bool {
    e.1.is_some() && spec_model_file(e.0).is_some()
}

/// The model names registered after the first `n` loaded blocks.
pub open spec fn model_names_after(s: Seq<(Block, Option<BlockModel>)>, n: int) -> Set<Seq<char>>
    decreases n,
{
    if n <= 0 {
        Set::empty()
    } else if registers_model(s[n - 1]) {
        model_names_after(s, n - 1).insert(spec_model_file(s[n - 1].0).unwrap()@)
    } else {
        model_names_after(s, n - 1)
    }
}

impl Block {
    /// The model file named by the default state, if any (an empty name names none).
    pub fn model_file(&self) -> (r: Option<String>)
        ensures
            r == spec_model_file(*self),
    {
        match &self.block_states.default {
            Some(st) => if !st.model_name.as_str().is_empty() { Some(st.model_name.clone()) } else { None },
            None => None,
        }
    }

    /// Attaches `model` to the default state when that state names a model file.
    pub fn load_model(&mut self, model: BlockModel)
        ensures
            *final(self) == with_model(*old(self), model),
    {
        match &mut self.block_states.default {
            Some(st) => {
                if !st.model_name.as_str().is_empty() {
                    st.model = Some(model);
                }
            },
            None => {},
        }
    }
}

/// Registers loaded blocks, each with the model read for it (if any): a model
/// is registered under its file name and attached to its block, and each block
/// is registered under its identifier; a later block replaces an earlier one.
pub fn load_blocks(loaded: Vec<(Block, Option<BlockModel>)>) -> (r: (Registry<Block>, Registry<BlockModel>))
    ensures
        r.0.wf(),
        r.1.wf(),
        r.0@ == blocks_after(loaded@, loaded@.len() as int),
        r.1@.dom() == model_names_after(loaded@, loaded@.len() as int),
{
    let mut blocks: Registry<Block> = Registry::new();
    let mut block_models: Registry<BlockModel> = Registry::new();
    let ghost s = loaded@;
    let count = loaded.len();
    assert(s.len() == count);
    let mut pending = loaded;
    let mut rest: Vec<(Block, Option<BlockModel>)> = Vec::new();
    while pending.len() > 0
        invariant
            pending@.len() + rest@.len() == s.len(),
            forall|k: int| 0 <= k < pending@.len() ==> pending@[k] == s[k],
            forall|k: int| 0 <= k < rest@.len() ==> rest@[k] == s[s.len() - 1 - k],
        decreases pending@.len(),
    {
        let e = pending.pop().unwrap();
        rest.push(e);
    }
    let mut i: usize = 0;
    while rest.len() > 0
        invariant
            blocks.wf(),
            block_models.wf(),
            i + rest@.len() == s.len(),
            s.len() <= usize::MAX,
            forall|k: int| 0 <= k < rest@.len() ==> rest@[k] == s[s.len() - 1 - k],
            blocks@ == blocks_after(s, i as int),
            block_models@.dom() == model_names_after(s, i as int),
        decreases rest@.len(),
    {
        let (mut block, model) = rest.pop().unwrap();
        match model {
            Some(m) => {
                match block.model_file() {
                    Some(name) => {
                        block_models.register(name.as_str(), m.clone());
                    },
                    None => {},
                }
                block.load_model(m);
            },
            None => {},
        }
        proof {
            assert(block == registered_block(s[i as int].0, s[i as int].1));
            assert(block_models@.dom() =~= model_names_after(s, i + 1));
        }
        let id = block.id.clone();
        blocks.register(id.as_str(), block);
        i = i + 1;
    }
    (blocks, block_models)
}

/// The read-only game content that world generation and lookups consult.
pub struct GameContent {
    pub blocks: Registry<Block>,
    pub block_model: Registry<BlockModel>,
}

impl GameContent {
    /// Bundles the block and block-model registries.
    pub fn new(blocks: Registry<Block>, block_model: Registry<BlockModel>) -> (r: Self)
        ensures
            r.blocks == blocks,
            r.block_model == block_model,
    {
        GameContent { blocks, block_model }
    }

    /// Well-formed: both registries are.
    pub open spec fn wf(&self) -> bool {
        self.blocks.wf() && self.block_model.wf()
    }
}

} // verus!
