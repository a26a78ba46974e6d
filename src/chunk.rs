//! Fixed-size cubic voxel container with a palette of block identifiers.
use std::sync::Arc;
use vstd::prelude::*;
use crate::block::{Block, GameContent};

verus! {

/// Edge length of a cubic chunk, in voxels.
pub const CHUNK_SIZE: usize = 16;

/// Number of voxels in one chunk (`CHUNK_SIZE` cubed).
pub const BLOCKS_IN_CHUNK: usize = 4096;

/// Largest valid linear voxel index inside a chunk.
pub const MAX_CHUNK_INDEX: usize = 4095;

/// Identifier of the empty block; always palette entry 0.
pub const AIR_BLOCK_ID: &'static str = "base:air";

/// Chunk-grid coordinate of a chunk (not a voxel coordinate).
pub type ChunkCoords = [i32; 3];

/// The air identifier as a character sequence.
pub open spec fn air_id() -> Seq<char> {
    AIR_BLOCK_ID@
}

/// Linear position of local voxel `(x, y, z)`: X varies fastest, then Y, then Z.
pub open spec fn linear_index(x: int, y: int, z: int) -> int {
    x + y * 16 + z * 256
}

/// Local X coordinate recovered from a linear index.
pub open spec fn index_x(idx: int) -> int {
    idx % 16
}

/// Local Y coordinate recovered from a linear index.
pub open spec fn index_y(idx: int) -> int {
    (idx / 16) % 16
}

/// Local Z coordinate recovered from a linear index.
pub open spec fn index_z(idx: int) -> int {
    idx / 256
}

pub open spec fn in_chunk(c: int) -> bool {
    0 <= c < 16
}

/// Decoding the linear index of an in-range coordinate gives the coordinate back.
pub proof fn lemma_index_round_trip(x: int, y: int, z: int)
    requires
        in_chunk(x),
        in_chunk(y),
        in_chunk(z),
    ensures
        0 <= linear_index(x, y, z) < 4096,
        index_x(linear_index(x, y, z)) == x,
        index_y(linear_index(x, y, z)) == y,
        index_z(linear_index(x, y, z)) == z,
{
    let i = linear_index(x, y, z);
    assert(i == x + 16 * (y + 16 * z)) by (nonlinear_arith)
        requires
            i == x + y * 16 + z * 256,
    ;
    vstd::arithmetic::div_mod::lemma_fundamental_div_mod_converse(i, 16, y + 16 * z, x);
    vstd::arithmetic::div_mod::lemma_fundamental_div_mod_converse(y + 16 * z, 16, z, y);
    vstd::arithmetic::div_mod::lemma_div_denominator(i, 16, 16);
}

/// Every in-chunk linear index decodes to in-range coordinates that encode it again.
pub proof fn lemma_index_decode(idx: int)
    requires
        0 <= idx < 4096,
    ensures
        in_chunk(index_x(idx)),
        in_chunk(index_y(idx)),
        in_chunk(index_z(idx)),
        linear_index(index_x(idx), index_y(idx), index_z(idx)) == idx,
{
    vstd::arithmetic::div_mod::lemma_fundamental_div_mod(idx, 16);
    vstd::arithmetic::div_mod::lemma_fundamental_div_mod(idx / 16, 16);
    vstd::arithmetic::div_mod::lemma_div_denominator(idx, 16, 16);
    assert(idx / 256 < 16);
}

/// A cubic block of voxels, each stored as an index into the chunk's palette.
#[derive(Clone)]
pub struct Chunk {
    /// Chunk-grid coordinate.
    pub position: ChunkCoords,
    /// Palette index of every voxel, in linear-index order.
    pub blocks: Vec<u16>,
    /// Block identifiers; entry 0 is always air.
    pub palette: Vec<String>,
}

/// The identifiers of a palette as character sequences.
pub open spec fn ids_of(p: Seq<String>) -> Seq<Seq<char>> {
    p.map_values(|s: String| s@)
}

/// No identifier occurs twice.
pub open spec fn ids_distinct(ids: Seq<Seq<char>>) -> bool {
    forall|i: int, j: int| 0 <= i < j < ids.len() ==> ids[i] != ids[j]
}

/// The palette that results from storing `id` somewhere: unchanged when `id` is
/// air or already present, otherwise `id` appended.
pub open spec fn palette_after(ids: Seq<Seq<char>>, id: Seq<char>) -> Seq<Seq<char>> {
    if id == air_id() || ids.contains(id) {
        ids
    } else {
        ids.push(id)
    }
}

impl Chunk {
    /// The palette as identifiers.
    pub open spec fn palette_ids(&self) -> Seq<Seq<char>> {
        ids_of(self.palette@)
    }

    /// Identifier of the voxel at linear index `idx`.
    pub open spec fn id_at(&self, idx: int) -> Seq<char> {
        self.palette_ids()[self.blocks@[idx] as int]
    }

    /// Well-formed: one index per voxel, each a valid palette position; entry 0 is
    /// air; no identifier twice; indices fit in 16 bits.
    pub open spec fn wf(&self) -> bool {
        &&& self.blocks@.len() == 4096
        &&& 1 <= self.palette@.len() <= 65536
        &&& self.palette_ids()[0] == air_id()
        &&& ids_distinct(self.palette_ids())
        &&& forall|i: int| 0 <= i < 4096 ==> (#[trigger] self.blocks@[i]) < self.palette@.len()
    }

    /// An all-air chunk at `position`; the palette holds only air.
    pub fn new(position: ChunkCoords) -> (r: Self)
        ensures
            r.wf(),
            r.position == position,
            r.palette_ids() == seq![air_id()],
            forall|i: int| 0 <= i < 4096 ==> r.blocks@[i] == 0,
    {
        let mut palette: Vec<String> = Vec::new();
        palette.push(AIR_BLOCK_ID.to_owned());
        let blocks: Vec<u16> = vec![0u16; BLOCKS_IN_CHUNK];
        let r = Chunk { position, blocks, palette };
        assert(r.palette_ids() =~= seq![air_id()]);
        r
    }

    /// Whether the voxel at linear index `idx` is air.
    pub fn is_air_at_idx(&self, idx: usize) -> (r: bool)
        requires
            idx < self.blocks@.len(),
        ensures
            r == (self.blocks@[idx as int] == 0),
    {
        self.blocks[idx] == 0
    }

    /// Linear index of local voxel `(x, y, z)`.
    pub fn index(x: usize, y: usize, z: usize) -> (r: usize)
        requires
            x < 16,
            y < 16,
            z < 16,
        ensures
            r == linear_index(x as int, y as int, z as int),
            r < 4096,
    {
        x + y * CHUNK_SIZE + z * CHUNK_SIZE * CHUNK_SIZE
    }

    /// Position of `id` in the palette, if present.
    fn palette_position(&self, id: &String) -> (r: Option<usize>)
        requires
            self.wf(),
        ensures
            match r {
                Some(i) => i < self.palette@.len() && self.palette_ids()[i as int] == id@,
                None => !self.palette_ids().contains(id@),
            },
    {
        let mut i: usize = 0;
        while i < self.palette.len()
            invariant
                self.wf(),
                0 <= i <= self.palette@.len(),
                forall|j: int| 0 <= j < i ==> self.palette_ids()[j] != id@,
            decreases self.palette@.len() - i,
        {
            if self.palette[i] == *id {
                return Some(i);
            }
            i = i + 1;
        }
        None
    }

    /// Stores `block_id` at local voxel `(x, y, z)`: air is stored as index 0 and
    /// never added to the palette; another identifier reuses its palette entry or
    /// is appended to the palette.
    pub fn set_block(&mut self, x: usize, y: usize, z: usize, block_id: &str)
        requires
            old(self).wf(),
            x < 16,
            y < 16,
            z < 16,
            old(self).palette@.len() < 65536 || old(self).palette_ids().contains(block_id@),
        ensures
            final(self).wf(),
            final(self).position == old(self).position,
            final(self).palette_ids() == palette_after(old(self).palette_ids(), block_id@),
            block_id@ == air_id() ==> final(self).palette@ == old(self).palette@,
            final(self).id_at(linear_index(x as int, y as int, z as int)) == block_id@,
            block_id@ == air_id() ==> final(self).blocks@[linear_index(x as int, y as int, z as int)] == 0,
            forall|i: int|
                0 <= i < 4096 && i != linear_index(x as int, y as int, z as int)
                    ==> final(self).blocks@[i] == old(self).blocks@[i],
    {
        let idx = Self::index(x, y, z);
        let key = block_id.to_owned();
        let air = AIR_BLOCK_ID.to_owned();
        if key == air {
            self.blocks.set(idx, 0);
            return;
        }
        let palette_idx: u16 = match self.palette_position(&key) {
            Some(i) => i as u16,
            None => {
                let i = self.palette.len() as u16;
                let ghost before = self.palette_ids();
                self.palette.push(key);
                proof {
                    assert(self.palette_ids() =~= before.push(block_id@));
                }
                i
            },
        };
        self.blocks.set(idx, palette_idx);
        proof {
            assert forall|i: int| 0 <= i < 4096 implies (#[trigger] self.blocks@[i]) < self.palette@.len() by {
                assert(old(self).blocks@[i] < old(self).palette@.len());
            }
        }
    }

    /// The definition of the block at local voxel `(x, y, z)`, looked up in the
    /// content registry; `None` when the identifier is not registered.
    pub fn get_block(&self, x: usize, y: usize, z: usize, content: &GameContent) -> (r: Option<Arc<Block>>)
        requires
            self.wf(),
            content.wf(),
            x < 16,
            y < 16,
            z < 16,
        ensures
            ({
                let id = self.id_at(linear_index(x as int, y as int, z as int));
                r == (if content.blocks@.contains_key(id) { Some(content.blocks@[id]) } else { None })
            }),
    {
        let idx = Self::index(x, y, z);
        let palette_idx = self.blocks[idx] as usize;
        let block_id = &self.palette[palette_idx];
        content.blocks.get(block_id.as_str())
    }

    /// Flat terrain: every voxel in the bottom half (local Y below 8) becomes
    /// `dirt_id`, every voxel in the top half becomes air.
    pub fn generate_flat(&mut self, dirt_id: &str, _content: &GameContent)
        requires
            old(self).wf(),
            old(self).palette@.len() < 65536 || old(self).palette_ids().contains(dirt_id@),
        ensures
            final(self).wf(),
            final(self).position == old(self).position,
            final(self).palette_ids() == palette_after(old(self).palette_ids(), dirt_id@),
            forall|i: int|
                0 <= i < 4096 ==> #[trigger] final(self).id_at(i) == (if index_y(i) < 8 {
                    dirt_id@
                } else {
                    air_id()
                }),
    {
        let ghost start = self.palette_ids();
        let ghost target = palette_after(start, dirt_id@);
        let mut idx: usize = 0;
        while idx < BLOCKS_IN_CHUNK
            invariant
                self.wf(),
                0 <= idx <= 4096,
                self.position == old(self).position,
                target == palette_after(start, dirt_id@),
                start == old(self).palette_ids(),
                start.len() < 65536 || start.contains(dirt_id@),
                idx == 0 ==> self.palette_ids() == start,
                idx > 0 ==> self.palette_ids() == target,
                forall|i: int|
                    0 <= i < idx ==> #[trigger] self.id_at(i) == (if index_y(i) < 8 {
                        dirt_id@
                    } else {
                        air_id()
                    }),
            decreases 4096 - idx,
        {
            proof {
                lemma_index_decode(idx as int);
            }
            let x = idx % CHUNK_SIZE;
            let y = (idx / CHUNK_SIZE) % CHUNK_SIZE;
            let z = idx / (CHUNK_SIZE * CHUNK_SIZE);
            let ghost before = *self;
            if y < CHUNK_SIZE / 2 {
                proof {
                    if idx > 0 {
                        assert(target.contains(dirt_id@) || dirt_id@ == air_id()) by {
                            if !(dirt_id@ == air_id() || start.contains(dirt_id@)) {
                                assert(target[start.len() as int] == dirt_id@);
                            }
                        }
                    }
                }
                self.set_block(x, y, z, dirt_id);
            } else {
                self.set_block(x, y, z, AIR_BLOCK_ID);
            }
            proof {
                if idx > 0 {
                    assert(before.palette_ids() == target);
                }
                assert forall|i: int| 0 <= i < idx + 1 implies #[trigger] self.id_at(i) == (if index_y(i) < 8 {
                    dirt_id@
                } else {
                    air_id()
                }) by {
                    if i < idx {
                        assert(before.id_at(i) == self.id_at(i)) by {
                            assert(self.blocks@[i] == before.blocks@[i]);
                            assert(self.blocks@[i] < before.palette@.len());
                        }
                    }
                }
            }
            idx = idx + 1;
        }
    }
}

} // verus!
