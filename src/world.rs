//! The set of generated chunks, the subset loaded around the observer, and
//! world-space voxel queries.
use std::sync::Arc;
use vstd::prelude::*;
use crate::assoc::{assoc_map, keys_distinct, lemma_assoc_map_dom, lemma_assoc_map_push,
    lemma_assoc_map_remove, lemma_assoc_map_update, lemma_assoc_map_value};
use crate::block::{Block, GameContent};
use crate::chunk::{air_id, index_y, linear_index, Chunk, ChunkCoords, CHUNK_SIZE};

verus! {

/// Identifier of the block that fills the lower half of a generated chunk.
pub const DIRT_BLOCK_ID: &'static str = "template:dirt";

/// Whether two chunk coordinates are equal.
pub fn coords_eq(a: ChunkCoords, b: ChunkCoords) -> (r: bool)
    ensures
        r == (a == b),
{
    let r = a[0] == b[0] && a[1] == b[1] && a[2] == b[2];
    proof {
        if r {
            assert(a =~= b);
        }
    }
    r
}

/// Position of key `pos` in a coordinate-keyed association list.
pub fn find_coords<V>(s: &Vec<(ChunkCoords, V)>, pos: ChunkCoords) -> (r: Option<usize>)
    ensures
        match r {
            Some(i) => i < s@.len() && s@[i as int].0 == pos,
            None => !assoc_map(s@).contains_key(pos),
        },
{
    let mut i: usize = 0;
    while i < s.len()
        invariant
            0 <= i <= s@.len(),
            forall|j: int| 0 <= j < i ==> s@[j].0 != pos,
        decreases s@.len() - i,
    {
        if coords_eq(s[i].0, pos) {
            return Some(i);
        }
        i = i + 1;
    }
    proof {
        lemma_assoc_map_dom(s@, pos);
    }
    None
}

/// Sets key `k` of a coordinate-keyed association list to `v`.
pub fn assoc_insert<V>(s: &mut Vec<(ChunkCoords, V)>, k: ChunkCoords, v: V)
    requires
        keys_distinct(old(s)@),
    ensures
        keys_distinct(final(s)@),
        assoc_map(final(s)@) == assoc_map(old(s)@).insert(k, v),
{
    let ghost t = s@;
    match find_coords(s, k) {
        Some(i) => {
            s.set(i, (k, v));
            proof {
                assert(s@ =~= t.update(i as int, (t[i as int].0, v)));
                lemma_assoc_map_update(t, i as int, v);
            }
        },
        None => {
            s.push((k, v));
            proof {
                lemma_assoc_map_push(t, k, v);
                lemma_assoc_map_dom(t, k);
                assert forall|i: int, j: int| 0 <= i < j < s@.len() implies s@[i].0 != s@[j].0 by {
                    if j == t.len() {
                        assert(t[i].0 != k);
                    }
                }
            }
        },
    }
}

/// Removes key `k` from a coordinate-keyed association list.
pub fn assoc_remove<V>(s: &mut Vec<(ChunkCoords, V)>, k: ChunkCoords)
    requires
        keys_distinct(old(s)@),
    ensures
        keys_distinct(final(s)@),
        assoc_map(final(s)@) == assoc_map(old(s)@).remove(k),
{
    let ghost t = s@;
    match find_coords(s, k) {
        Some(i) => {
            s.remove(i);
            proof {
                lemma_assoc_map_remove(t, i as int);
            }
        },
        None => {
            assert(assoc_map(s@) =~= assoc_map(t).remove(k));
        },
    }
}

/// Whether `c` is the chunk that generation produces at `pos`: the lower half
/// (local Y below 8) dirt, the upper half air, palette air then dirt.
pub open spec fn is_generated_at(c: Chunk, pos: ChunkCoords) -> bool {
    &&& c.wf()
    &&& c.position == pos
    &&& c.palette_ids() == seq![air_id(), DIRT_BLOCK_ID@]
    &&& forall|i: int|
        0 <= i < 4096 ==> #[trigger] c.id_at(i) == (if index_y(i) < 8 {
            DIRT_BLOCK_ID@
        } else {
            air_id()
        })
}

/// Chunk coordinate of a world coordinate (floored division by the chunk size).
pub open spec fn chunk_of(w: int) -> int {
    w / 16
}

/// Local coordinate of a world coordinate inside its chunk (always 0 to 15).
pub open spec fn local_of(w: int) -> int {
    w % 16
}

/// Splits a world coordinate into its chunk coordinate and its local coordinate.
pub fn to_chunk_coord(world_coord: i32) -> (r: (i32, i32))
    ensures
        r.0 == chunk_of(world_coord as int),
        r.1 == local_of(world_coord as int),
        0 <= r.1 < 16,
{
    if world_coord >= 0 {
        let q = world_coord / 16;
        let m = world_coord % 16;
        (q, m)
    } else {
        let n: i32 = -(world_coord + 1);
        let q = n / 16;
        let m = n % 16;
        proof {
            vstd::arithmetic::div_mod::lemma_fundamental_div_mod(n as int, 16);
            vstd::arithmetic::div_mod::lemma_fundamental_div_mod_converse(
                world_coord as int,
                16,
                -q - 1,
                15 - m,
            );
        }
        (-q - 1, 15 - m)
    }
}

/// Every chunk ever generated, and the subset currently loaded. Handles are shared.
pub struct World {
    /// Authoritative store: chunk coordinate to chunk.
    pub chunks: Vec<(ChunkCoords, Arc<Chunk>)>,
    /// Chunks resident near the observer: chunk coordinate to chunk.
    pub loaded_chunks: Vec<(ChunkCoords, Arc<Chunk>)>,
}

/// What loading `pos` into `before` gives: the chunk handle `r` (the one already
/// generated there, else a newly generated chunk), stored and marked loaded in `after`.
pub open spec fn load_chunk_result(before: World, pos: ChunkCoords, after: World, r: Arc<Chunk>) -> bool {
    &&& after.all() == before.all().insert(pos, r)
    &&& after.loaded() == before.loaded().insert(pos, r)
    &&& before.all().contains_key(pos) ==> r == before.all()[pos]
    &&& !before.all().contains_key(pos) ==> is_generated_at(*r, pos)
}

/// Loading the same coordinate twice gives the same chunk both times, and the
/// second load changes nothing.
pub proof fn lemma_reload_same_chunk(w0: World, w1: World, w2: World, pos: ChunkCoords, r1: Arc<Chunk>, r2: Arc<Chunk>)
    requires
        load_chunk_result(w0, pos, w1, r1),
        load_chunk_result(w1, pos, w2, r2),
    ensures
        r2 == r1,
        w2.all() == w1.all(),
        w2.loaded() == w1.loaded(),
{
    assert(w1.all().contains_key(pos));
    assert(w2.all() =~= w1.all());
    assert(w2.loaded() =~= w1.loaded());
}

impl World {
    /// Every generated chunk, by coordinate.
    pub open spec fn all(&self) -> Map<ChunkCoords, Arc<Chunk>> {
        assoc_map(self.chunks@)
    }

    /// The loaded chunks, by coordinate.
    pub open spec fn loaded(&self) -> Map<ChunkCoords, Arc<Chunk>> {
        assoc_map(self.loaded_chunks@)
    }

    /// Well-formed: no coordinate twice in either store; every chunk is well
    /// formed and sits at its key; every loaded entry is the authoritative one.
    pub open spec fn wf(&self) -> bool {
        &&& keys_distinct(self.chunks@)
        &&& keys_distinct(self.loaded_chunks@)
        &&& forall|p: ChunkCoords| #[trigger] self.all().contains_key(p)
            ==> self.all()[p].wf() && self.all()[p].position == p
        &&& forall|p: ChunkCoords| #[trigger] self.loaded().contains_key(p)
            ==> self.all().contains_key(p) && self.loaded()[p] == self.all()[p]
    }

    /// An empty world.
    pub fn new() -> (r: Self)
        ensures
            r.wf(),
            r.all() == Map::<ChunkCoords, Arc<Chunk>>::empty(),
            r.loaded() == Map::<ChunkCoords, Arc<Chunk>>::empty(),
    {
        let r = World { chunks: Vec::new(), loaded_chunks: Vec::new() };
        assert(r.all() =~= Map::empty());
        assert(r.loaded() =~= Map::empty());
        r
    }

    /// The chunk at `pos`, generated and stored first if it does not exist yet.
    /// The loaded set is left alone.
    pub fn get_chunk(&mut self, pos: ChunkCoords, content: &GameContent) -> (r: Arc<Chunk>)
        requires
            old(self).wf(),
        ensures
            final(self).wf(),
            final(self).loaded() == old(self).loaded(),
            final(self).all() == old(self).all().insert(pos, r),
            old(self).all().contains_key(pos) ==> r == old(self).all()[pos],
            !old(self).all().contains_key(pos) ==> is_generated_at(*r, pos),
    {
        match find_coords(&self.chunks, pos) {
            Some(i) => {
                proof {
                    lemma_assoc_map_value(self.chunks@, i as int);
                    assert(self.all().insert(pos, self.chunks@[i as int].1) =~= self.all());
                }
                self.chunks[i].1.clone()
            },
            None => {
                let mut chunk = Chunk::new(pos);
                chunk.generate_flat(DIRT_BLOCK_ID, content);
                proof {
                    assert(chunk.palette_ids() =~= seq![air_id(), DIRT_BLOCK_ID@]) by {
                        reveal_strlit("template:dirt");
                        reveal_strlit("base:air");
                        assert(DIRT_BLOCK_ID@ != air_id()) by {
                            assert(DIRT_BLOCK_ID@.len() != air_id().len());
                        }
                        assert(!seq![air_id()].contains(DIRT_BLOCK_ID@)) by {
                            assert(seq![air_id()][0] != DIRT_BLOCK_ID@);
                        }
                    }
                }
                let handle = Arc::new(chunk);
                let ghost s = self.chunks@;
                self.chunks.push((pos, handle.clone()));
                proof {
                    lemma_assoc_map_push(s, pos, handle);
                    lemma_assoc_map_dom(s, pos);
                    assert(self.loaded_chunks@ == old(self).loaded_chunks@);
                    assert forall|i: int, j: int| 0 <= i < j < self.chunks@.len()
                        implies self.chunks@[i].0 != self.chunks@[j].0 by {
                        if j == s.len() {
                            assert(s[i].0 != pos);
                        }
                    }
                    assert forall|p: ChunkCoords| #[trigger] self.loaded().contains_key(p)
                        implies self.all().contains_key(p) && self.loaded()[p] == self.all()[p] by {
                        assert(old(self).loaded().contains_key(p));
                        assert(old(self).all().contains_key(p));
                        assert(p != pos);
                    }
                    assert forall|p: ChunkCoords| #[trigger] self.all().contains_key(p)
                        implies self.all()[p].wf() && self.all()[p].position == p by {
                        if p != pos {
                            assert(old(self).all().contains_key(p));
                        }
                    }
                }
                handle
            },
        }
    }

    /// Loads the chunk at `chunk_pos`: the existing chunk if one was generated
    /// there, else a newly generated one; it becomes (or stays) loaded.
    pub fn load_chunk(&mut self, chunk_pos: ChunkCoords, content: &GameContent) -> (r: Arc<Chunk>)
        requires
            old(self).wf(),
        ensures
            final(self).wf(),
            load_chunk_result(*old(self), chunk_pos, *final(self), r),
    {
        let chunk = self.get_chunk(chunk_pos, content);
        let ghost s = self.loaded_chunks@;
        match find_coords(&self.loaded_chunks, chunk_pos) {
            Some(i) => {
                self.loaded_chunks.set(i, (chunk_pos, chunk.clone()));
                proof {
                    assert(self.loaded_chunks@ =~= s.update(i as int, (s[i as int].0, chunk)));
                    lemma_assoc_map_update(s, i as int, chunk);
                }
            },
            None => {
                self.loaded_chunks.push((chunk_pos, chunk.clone()));
                proof {
                    lemma_assoc_map_push(s, chunk_pos, chunk);
                    lemma_assoc_map_dom(s, chunk_pos);
                    assert forall|i: int, j: int| 0 <= i < j < self.loaded_chunks@.len()
                        implies self.loaded_chunks@[i].0 != self.loaded_chunks@[j].0 by {
                        if j == s.len() {
                            assert(s[i].0 != chunk_pos);
                        }
                    }
                }
            },
        }
        chunk
    }

    /// Removes `chunk_pos` from the loaded set; its chunk stays generated.
    pub fn unload_chunk(&mut self, chunk_pos: ChunkCoords)
        requires
            old(self).wf(),
        ensures
            final(self).wf(),
            final(self).all() == old(self).all(),
            final(self).loaded() == old(self).loaded().remove(chunk_pos),
    {
        let ghost s = self.loaded_chunks@;
        match find_coords(&self.loaded_chunks, chunk_pos) {
            Some(i) => {
                self.loaded_chunks.remove(i);
                proof {
                    lemma_assoc_map_remove(s, i as int);
                    assert(self.chunks@ == old(self).chunks@);
                    assert(self.loaded() == old(self).loaded().remove(chunk_pos));
                    assert forall|p: ChunkCoords| #[trigger] self.loaded().contains_key(p)
                        implies self.all().contains_key(p) && self.loaded()[p] == self.all()[p] by {
                        assert(old(self).loaded().contains_key(p));
                    }
                    assert forall|p: ChunkCoords| #[trigger] self.all().contains_key(p)
                        implies self.all()[p].wf() && self.all()[p].position == p by {
                        assert(old(self).all().contains_key(p));
                    }
                }
            },
            None => {
                assert(self.loaded() =~= old(self).loaded().remove(chunk_pos));
            },
        }
    }

    /// Loads the two starting chunks, at `(0, 0, 0)` and `(2, 0, 0)`.
    pub fn init(&mut self, content: &GameContent)
        requires
            old(self).wf(),
        ensures
            final(self).wf(),
            final(self).loaded().contains_key([0, 0, 0]),
            final(self).loaded().contains_key([2, 0, 0]),
            old(self).all().submap_of(final(self).all()),
    {
        self.load_chunk([0, 0, 0], content);
        self.load_chunk([2, 0, 0], content);
    }

    /// The definition of the block at world voxel `(wx, wy, wz)`; `None` when its
    /// chunk was never generated or its identifier is not registered.
    pub fn get_block_world(&self, wx: i32, wy: i32, wz: i32, content: &GameContent) -> (r: Option<Arc<Block>>)
        requires
            self.wf(),
            content.wf(),
        ensures
            ({
                let p: ChunkCoords = [chunk_of(wx as int) as i32, chunk_of(wy as int) as i32, chunk_of(wz as int) as i32];
                let idx = linear_index(local_of(wx as int), local_of(wy as int), local_of(wz as int));
                if self.all().contains_key(p) {
                    let id = self.all()[p].id_at(idx);
                    r == (if content.blocks@.contains_key(id) { Some(content.blocks@[id]) } else { None })
                } else {
                    r.is_none()
                }
            }),
    {
        let (cx, lx) = to_chunk_coord(wx);
        let (cy, ly) = to_chunk_coord(wy);
        let (cz, lz) = to_chunk_coord(wz);
        let chunk_pos: ChunkCoords = [cx, cy, cz];
        match find_coords(&self.chunks, chunk_pos) {
            Some(i) => {
                proof {
                    lemma_assoc_map_value(self.chunks@, i as int);
                    assert(self.all().contains_key(chunk_pos));
                }
                self.chunks[i].1.get_block(lx as usize, ly as usize, lz as usize, content)
            },
            None => None,
        }
    }
}

} // verus!
