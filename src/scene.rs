//! The streaming controller: keeps the loaded chunks and their meshes in step
//! with the observer's chunk.
use std::sync::Arc;
use vstd::prelude::*;
use crate::assoc::{assoc_map, keys_distinct, lemma_assoc_map_dom, lemma_assoc_map_value};
use crate::block::GameContent;
use crate::chunk::{Chunk, ChunkCoords};
use crate::mesh::{build_chunk_mesh, mesh_empty, BlockUvs, ChunkMesh};
use crate::pack::{all_fit, buffers_view, pack_chunk_meshes, packed, PackedBuffer};
use crate::streaming::{get_all_chunk_pos_in_render, in_render};
use crate::world::{assoc_insert, assoc_remove, coords_eq, is_generated_at, World};

verus! {

/// Whether `m` is what the mesh builder gives for chunk `c` with table `uvs`.
pub open spec fn mesh_ok(m: Option<ChunkMesh>, c: Chunk, uvs: BlockUvs) -> bool {
    &&& m.is_none() <==> mesh_empty(c, uvs)
    &&& m matches Some(mm) ==> mm.is_mesh_of(c, uvs)
}

/// What a streaming step for the observer in chunk `obs` makes of scene `before`:
/// the chunk is recorded; the loaded set is exactly the render region; chunks
/// that stay keep their chunk and mesh; an entering chunk is the one generated
/// there before, else a newly generated one; no generated chunk is lost.
pub open spec fn streaming_step(before: GameScene, obs: ChunkCoords, hori: u32, vert: u32, after: GameScene) -> bool {
    &&& after.current_chunk_pos == Some(obs)
    &&& after.block_uvs == before.block_uvs
    &&& before.world.all().submap_of(after.world.all())
    &&& forall|p: ChunkCoords| #[trigger] after.world.all().contains_key(p)
        ==> before.world.all().contains_key(p) || in_render(p, obs, hori, vert)
    &&& forall|p: ChunkCoords| #[trigger] after.world.loaded().contains_key(p) <==> in_render(p, obs, hori, vert)
    &&& forall|p: ChunkCoords| #[trigger] before.world.loaded().contains_key(p) && in_render(p, obs, hori, vert) ==> (
        after.world.loaded()[p] == before.world.loaded()[p] && after.meshes()[p] == before.meshes()[p])
    &&& forall|p: ChunkCoords| #![trigger after.world.loaded()[p]]
        !before.world.loaded().contains_key(p) && in_render(p, obs, hori, vert) ==> (
        if before.world.all().contains_key(p) {
            after.world.loaded()[p] == before.world.all()[p]
        } else {
            is_generated_at(*after.world.loaded()[p], p)
        })
}

/// Between two streaming steps, the chunks that become loaded are those of the
/// new region outside the old one, the chunks that get unloaded are those of the
/// old region outside the new one, and every chunk loaded before and after keeps
/// its chunk and its mesh.
pub proof fn lemma_transition_diff(
    s0: GameScene,
    s1: GameScene,
    s2: GameScene,
    o1: ChunkCoords,
    o2: ChunkCoords,
    hori: u32,
    vert: u32,
)
    requires
        streaming_step(s0, o1, hori, vert, s1),
        streaming_step(s1, o2, hori, vert, s2),
    ensures
        forall|p: ChunkCoords| s2.world.loaded().contains_key(p) && !s1.world.loaded().contains_key(p)
            <==> in_render(p, o2, hori, vert) && !in_render(p, o1, hori, vert),
        forall|p: ChunkCoords| s1.world.loaded().contains_key(p) && !s2.world.loaded().contains_key(p)
            <==> in_render(p, o1, hori, vert) && !in_render(p, o2, hori, vert),
        forall|p: ChunkCoords| s1.world.loaded().contains_key(p) && s2.world.loaded().contains_key(p) ==> (
            s2.world.loaded()[p] == s1.world.loaded()[p] && s2.meshes()[p] == s1.meshes()[p]),
{
    assert forall|p: ChunkCoords| s1.world.loaded().contains_key(p) && s2.world.loaded().contains_key(p) implies (
        s2.world.loaded()[p] == s1.world.loaded()[p] && s2.meshes()[p] == s1.meshes()[p]) by {
        assert(in_render(p, o2, hori, vert));
    }
}

/// With both radii 0, the region is the observer's chunk alone.
pub proof fn lemma_radius_zero_region(p: ChunkCoords, o: ChunkCoords)
    ensures
        in_render(p, o, 0, 0) <==> p == o,
{
    let dx = p[0] - o[0];
    let dz = p[2] - o[2];
    if in_render(p, o, 0, 0) {
        assert(dx * dx >= 0 && dz * dz >= 0) by (nonlinear_arith);
        assert(dx == 0) by (nonlinear_arith)
            requires
                dx * dx + dz * dz <= 0,
                dz * dz >= 0,
        ;
        assert(dz == 0) by (nonlinear_arith)
            requires
                dx * dx + dz * dz <= 0,
                dx * dx >= 0,
        ;
        assert(p =~= o);
    }
}

/// Moving the observer from chunk `(0, 0, 0)` to `(1, 0, 0)` with both radii 0
/// loads exactly `(1, 0, 0)`, unloads exactly `(0, 0, 0)`, and leaves nothing
/// else loaded.
pub proof fn lemma_unit_step_diff(s0: GameScene, s1: GameScene, s2: GameScene)
    requires
        streaming_step(s0, [0, 0, 0], 0, 0, s1),
        streaming_step(s1, [1, 0, 0], 0, 0, s2),
    ensures
        forall|p: ChunkCoords| s2.world.loaded().contains_key(p) && !s1.world.loaded().contains_key(p) <==> p == [1i32, 0, 0],
        forall|p: ChunkCoords| s1.world.loaded().contains_key(p) && !s2.world.loaded().contains_key(p) <==> p == [0i32, 0, 0],
        forall|p: ChunkCoords| s2.world.loaded().contains_key(p) <==> p == [1i32, 0, 0],
{
    lemma_transition_diff(s0, s1, s2, [0, 0, 0], [1, 0, 0], 0, 0);
    assert forall|p: ChunkCoords| in_render(p, [1i32, 0, 0], 0, 0) <==> p == [1i32, 0, 0] by {
        lemma_radius_zero_region(p, [1, 0, 0]);
    }
    assert forall|p: ChunkCoords| in_render(p, [0i32, 0, 0], 0, 0) <==> p == [0i32, 0, 0] by {
        lemma_radius_zero_region(p, [0, 0, 0]);
    }
    assert([1i32, 0, 0] != [0i32, 0, 0]) by {
        assert([1i32, 0, 0][0] != [0i32, 0, 0][0]);
    }
}

/// Whether coordinate `p` occurs in `v`.
fn contains_coords(v: &Vec<ChunkCoords>, p: ChunkCoords) -> (r: bool)
    ensures
        r == v@.contains(p),
{
    let mut i: usize = 0;
    while i < v.len()
        invariant
            0 <= i <= v@.len(),
            forall|j: int| 0 <= j < i ==> v@[j] != p,
        decreases v@.len() - i,
    {
        if coords_eq(v[i], p) {
            return true;
        }
        i = i + 1;
    }
    false
}

/// The world around the observer, the mesh of every loaded chunk, and the
/// observer's chunk when the loaded set was last brought up to date.
pub struct GameScene {
    pub world: World,
    pub chunk_meshes: Vec<(ChunkCoords, Option<ChunkMesh>)>,
    pub block_uvs: BlockUvs,
    pub current_chunk_pos: Option<ChunkCoords>,
}

impl GameScene {
    /// The recorded meshes, by chunk coordinate.
    pub open spec fn meshes(&self) -> Map<ChunkCoords, Option<ChunkMesh>> {
        assoc_map(self.chunk_meshes@)
    }

    /// Well-formed: the world is; exactly the loaded chunks have a recorded mesh,
    /// and each recorded mesh is the mesh of its chunk.
    pub open spec fn wf(&self) -> bool {
        &&& self.world.wf()
        &&& self.block_uvs.wf()
        &&& keys_distinct(self.chunk_meshes@)
        &&& forall|p: ChunkCoords| #[trigger] self.meshes().contains_key(p) <==> self.world.loaded().contains_key(p)
        &&& forall|p: ChunkCoords| #[trigger] self.meshes().contains_key(p)
            ==> mesh_ok(self.meshes()[p], *self.world.loaded()[p], self.block_uvs)
    }

    /// A scene with an empty world, texturing meshes from `block_uvs`.
    pub fn new(block_uvs: BlockUvs) -> (r: Self)
        requires
            block_uvs.wf(),
        ensures
            r.wf(),
            r.block_uvs == block_uvs,
            r.current_chunk_pos.is_none(),
            r.world.all() == Map::<ChunkCoords, Arc<Chunk>>::empty(),
            r.world.loaded() == Map::<ChunkCoords, Arc<Chunk>>::empty(),
    {
        let r = GameScene {
            world: World::new(),
            chunk_meshes: Vec::new(),
            block_uvs,
            current_chunk_pos: None,
        };
        assert(r.meshes() =~= Map::empty());
        r
    }

    /// Rebuilds the recorded meshes: one for every loaded chunk, none else.
    pub fn build_all_loaded_chunks(&mut self)
        requires
            old(self).world.wf(),
            old(self).block_uvs.wf(),
        ensures
            final(self).wf(),
            final(self).world == old(self).world,
            final(self).block_uvs == old(self).block_uvs,
            final(self).current_chunk_pos == old(self).current_chunk_pos,
    {
        let mut meshes: Vec<(ChunkCoords, Option<ChunkMesh>)> = Vec::new();
        let mut i: usize = 0;
        while i < self.world.loaded_chunks.len()
            invariant
                0 <= i <= self.world.loaded_chunks@.len(),
                *self == *old(self),
                self.world.wf(),
                self.block_uvs.wf(),
                meshes@.len() == i,
                forall|j: int| 0 <= j < i ==> (#[trigger] meshes@[j]).0 == self.world.loaded_chunks@[j].0
                    && mesh_ok(meshes@[j].1, *self.world.loaded_chunks@[j].1, self.block_uvs),
            decreases self.world.loaded_chunks@.len() - i,
        {
            let pos = self.world.loaded_chunks[i].0;
            proof {
                lemma_assoc_map_value(self.world.loaded_chunks@, i as int);
                assert(self.world.loaded().contains_key(pos));
                assert(self.world.all().contains_key(pos));
            }
            let mesh = build_chunk_mesh(&self.world.loaded_chunks[i].1, &self.block_uvs);
            meshes.push((pos, mesh));
            i = i + 1;
        }
        self.chunk_meshes = meshes;
        proof {
            let ls = self.world.loaded_chunks@;
            let ms = self.chunk_meshes@;
            assert(keys_distinct(ms)) by {
                assert forall|a: int, b: int| 0 <= a < b < ms.len() implies ms[a].0 != ms[b].0 by {
                    assert(ms[a].0 == ls[a].0 && ms[b].0 == ls[b].0);
                }
            }
            assert forall|p: ChunkCoords| #[trigger] self.meshes().contains_key(p)
                <==> self.world.loaded().contains_key(p) by {
                lemma_assoc_map_dom(ms, p);
                lemma_assoc_map_dom(ls, p);
                if self.meshes().contains_key(p) {
                    let k = choose|k: int| 0 <= k < ms.len() && ms[k].0 == p;
                    assert(ls[k].0 == p);
                }
                if self.world.loaded().contains_key(p) {
                    let k = choose|k: int| 0 <= k < ls.len() && ls[k].0 == p;
                    assert(ms[k].0 == p);
                }
            }
            assert forall|p: ChunkCoords| #[trigger] self.meshes().contains_key(p)
                implies mesh_ok(self.meshes()[p], *self.world.loaded()[p], self.block_uvs) by {
                lemma_assoc_map_dom(ms, p);
                let k = choose|k: int| 0 <= k < ms.len() && ms[k].0 == p;
                lemma_assoc_map_value(ms, k);
                lemma_assoc_map_value(ls, k);
            }
        }
    }

    /// Builds a mesh for every loaded chunk that has none recorded; recorded
    /// meshes (each of a loaded chunk and exact) are kept.
    pub fn build_all_unbuild_loaded_chunks(&mut self)
        requires
            old(self).world.wf(),
            old(self).block_uvs.wf(),
            keys_distinct(old(self).chunk_meshes@),
            forall|p: ChunkCoords| #[trigger] old(self).meshes().contains_key(p) ==> (
                old(self).world.loaded().contains_key(p)
                && mesh_ok(old(self).meshes()[p], *old(self).world.loaded()[p], old(self).block_uvs)),
        ensures
            final(self).wf(),
            final(self).world == old(self).world,
            final(self).block_uvs == old(self).block_uvs,
            final(self).current_chunk_pos == old(self).current_chunk_pos,
            forall|p: ChunkCoords| #[trigger] old(self).meshes().contains_key(p)
                ==> final(self).meshes()[p] == old(self).meshes()[p],
    {
        let mut i: usize = 0;
        while i < self.world.loaded_chunks.len()
            invariant
                0 <= i <= self.world.loaded_chunks@.len(),
                self.world == old(self).world,
                self.block_uvs == old(self).block_uvs,
                self.current_chunk_pos == old(self).current_chunk_pos,
                self.world.wf(),
                self.block_uvs.wf(),
                keys_distinct(self.chunk_meshes@),
                forall|p: ChunkCoords| #[trigger] self.meshes().contains_key(p) ==> (
                    self.world.loaded().contains_key(p)
                    && mesh_ok(self.meshes()[p], *self.world.loaded()[p], self.block_uvs)),
                forall|p: ChunkCoords| #[trigger] old(self).meshes().contains_key(p)
                    ==> self.meshes().contains_key(p) && self.meshes()[p] == old(self).meshes()[p],
                forall|j: int| 0 <= j < i ==> self.meshes().contains_key(#[trigger] self.world.loaded_chunks@[j].0),
            decreases self.world.loaded_chunks@.len() - i,
        {
            let pos = self.world.loaded_chunks[i].0;
            proof {
                lemma_assoc_map_value(self.world.loaded_chunks@, i as int);
                assert(self.world.loaded().contains_key(pos));
                assert(self.world.all().contains_key(pos));
            }
            let found = crate::world::find_coords(&self.chunk_meshes, pos);
            if let Some(k) = found {
                proof {
                    lemma_assoc_map_value(self.chunk_meshes@, k as int);
                }
            } else {
                let ghost before = *self;
                let mesh = build_chunk_mesh(&self.world.loaded_chunks[i].1, &self.block_uvs);
                assoc_insert(&mut self.chunk_meshes, pos, mesh);
                proof {
                    assert forall|p: ChunkCoords| #[trigger] self.meshes().contains_key(p) implies (
                        self.world.loaded().contains_key(p)
                        && mesh_ok(self.meshes()[p], *self.world.loaded()[p], self.block_uvs)) by {
                        if p != pos {
                            assert(before.meshes().contains_key(p));
                        }
                    }
                    assert forall|p: ChunkCoords| #[trigger] old(self).meshes().contains_key(p)
                        implies self.meshes().contains_key(p) && self.meshes()[p] == old(self).meshes()[p] by {
                        assert(before.meshes().contains_key(p));
                    }
                    assert forall|j: int| 0 <= j < i + 1 implies self.meshes().contains_key(#[trigger] self.world.loaded_chunks@[j].0) by {
                        if j < i {
                            assert(before.meshes().contains_key(self.world.loaded_chunks@[j].0));
                        }
                    }
                }
            }
            i = i + 1;
        }
        proof {
            assert forall|p: ChunkCoords| #[trigger] self.meshes().contains_key(p)
                <==> self.world.loaded().contains_key(p) by {
                if self.world.loaded().contains_key(p) {
                    lemma_assoc_map_dom(self.world.loaded_chunks@, p);
                    let k = choose|k: int| 0 <= k < self.world.loaded_chunks@.len() && self.world.loaded_chunks@[k].0 == p;
                    assert(self.meshes().contains_key(self.world.loaded_chunks@[k].0));
                }
            }
        }
    }

    /// Takes `block_uvs` as the texture table and builds the mesh of every loaded chunk.
    pub fn init_world(&mut self, block_uvs: BlockUvs)
        requires
            old(self).world.wf(),
            block_uvs.wf(),
        ensures
            final(self).wf(),
            final(self).world == old(self).world,
            final(self).block_uvs == block_uvs,
            final(self).current_chunk_pos == old(self).current_chunk_pos,
    {
        self.block_uvs = block_uvs;
        self.build_all_loaded_chunks();
    }

    /// Loads every chunk of `visible` that is not loaded yet and records its mesh.
    fn load_visible(&mut self, visible: &Vec<ChunkCoords>, content: &GameContent)
        requires
            old(self).wf(),
        ensures
            final(self).wf(),
            final(self).block_uvs == old(self).block_uvs,
            final(self).current_chunk_pos == old(self).current_chunk_pos,
            old(self).world.all().submap_of(final(self).world.all()),
            forall|p: ChunkCoords| #[trigger] final(self).world.all().contains_key(p)
                && !old(self).world.all().contains_key(p) ==> final(self).world.loaded().contains_key(p),
            forall|p: ChunkCoords| #[trigger] final(self).world.loaded().contains_key(p)
                <==> (old(self).world.loaded().contains_key(p) || visible@.contains(p)),
            forall|p: ChunkCoords| #[trigger] old(self).world.loaded().contains_key(p) ==> (
                final(self).world.loaded()[p] == old(self).world.loaded()[p]
                && final(self).meshes()[p] == old(self).meshes()[p]),
            forall|p: ChunkCoords| #![trigger final(self).world.loaded()[p]]
                !old(self).world.loaded().contains_key(p) && visible@.contains(p) ==> (
                if old(self).world.all().contains_key(p) {
                    final(self).world.loaded()[p] == old(self).world.all()[p]
                } else {
                    is_generated_at(*final(self).world.loaded()[p], p)
                }),
    {
        let mut i: usize = 0;
        while i < visible.len()
            invariant
                0 <= i <= visible@.len(),
                self.wf(),
                self.block_uvs == old(self).block_uvs,
                self.current_chunk_pos == old(self).current_chunk_pos,
                old(self).world.all().submap_of(self.world.all()),
                forall|p: ChunkCoords| #[trigger] self.world.loaded().contains_key(p)
                    <==> (old(self).world.loaded().contains_key(p) || visible@.take(i as int).contains(p)),
                forall|p: ChunkCoords| #[trigger] old(self).world.loaded().contains_key(p) ==> (
                    self.world.loaded()[p] == old(self).world.loaded()[p]
                    && self.meshes()[p] == old(self).meshes()[p]),
                forall|p: ChunkCoords| #[trigger] self.world.all().contains_key(p)
                    && !old(self).world.all().contains_key(p) ==> self.world.loaded().contains_key(p),
                forall|p: ChunkCoords| #![trigger self.world.loaded()[p]]
                    !old(self).world.loaded().contains_key(p) && self.world.loaded().contains_key(p) ==> (
                    if old(self).world.all().contains_key(p) {
                        self.world.loaded()[p] == old(self).world.all()[p]
                    } else {
                        is_generated_at(*self.world.loaded()[p], p)
                    }),
            decreases visible@.len() - i,
        {
            let p = visible[i];
            let ghost before = *self;
            let loaded = crate::world::find_coords(&self.world.loaded_chunks, p);
            if loaded.is_none() {
                let chunk = self.world.load_chunk(p, content);
                proof {
                    assert(self.world.all().contains_key(p));
                }
                let mesh = build_chunk_mesh(&chunk, &self.block_uvs);
                assoc_insert(&mut self.chunk_meshes, p, mesh);
                proof {
                    assert forall|q: ChunkCoords| #[trigger] self.meshes().contains_key(q)
                        <==> self.world.loaded().contains_key(q) by {
                        if q != p {
                            assert(before.meshes().contains_key(q) == before.world.loaded().contains_key(q));
                        }
                    }
                    assert forall|q: ChunkCoords| #[trigger] self.meshes().contains_key(q)
                        implies mesh_ok(self.meshes()[q], *self.world.loaded()[q], self.block_uvs) by {
                        if q != p {
                            assert(before.meshes().contains_key(q));
                        }
                    }
                    assert forall|q: ChunkCoords| #[trigger] old(self).world.loaded().contains_key(q) implies (
                        self.world.loaded()[q] == old(self).world.loaded()[q]
                        && self.meshes()[q] == old(self).meshes()[q]) by {
                        assert(before.world.loaded().contains_key(q));
                        assert(q != p);
                    }
                    assert forall|q: ChunkCoords| #[trigger] self.world.all().contains_key(q)
                        && !old(self).world.all().contains_key(q) implies self.world.loaded().contains_key(q) by {
                        if q != p {
                            assert(before.world.all().contains_key(q));
                        }
                    }
                    assert(old(self).world.all().submap_of(self.world.all())) by {
                        assert forall|q: ChunkCoords| #[trigger] old(self).world.all().contains_key(q) implies
                            self.world.all().contains_key(q) && self.world.all()[q] == old(self).world.all()[q] by {
                            assert(before.world.all().contains_key(q));
                            if q == p {
                                assert(before.world.all()[q] == old(self).world.all()[q]);
                            }
                        }
                    }
                    assert forall|q: ChunkCoords| #![trigger self.world.loaded()[q]]
                        !old(self).world.loaded().contains_key(q) && self.world.loaded().contains_key(q) implies (
                        if old(self).world.all().contains_key(q) {
                            self.world.loaded()[q] == old(self).world.all()[q]
                        } else {
                            is_generated_at(*self.world.loaded()[q], q)
                        }) by {
                        if q == p {
                            if old(self).world.all().contains_key(q) {
                                assert(before.world.all().contains_key(q));
                            } else {
                                assert(!before.world.all().contains_key(q));
                            }
                        } else {
                            assert(before.world.loaded().contains_key(q));
                        }
                    }
                }
            }
            proof {
                if let Some(j) = loaded {
                    lemma_assoc_map_value(self.world.loaded_chunks@, j as int);
                }
                let t0 = visible@.take(i as int);
                let t1 = visible@.take(i as int + 1);
                assert(t1 =~= t0.push(p));
                assert forall|q: ChunkCoords| #[trigger] self.world.loaded().contains_key(q)
                    <==> (old(self).world.loaded().contains_key(q) || t1.contains(q)) by {
                    if t1.contains(q) && !t0.contains(q) {
                        let k = choose|k: int| 0 <= k < t1.len() && t1[k] == q;
                        if k < i {
                            assert(t0[k] == q);
                        }
                        assert(q == p);
                    }
                    if t0.contains(q) {
                        let k = choose|k: int| 0 <= k < t0.len() && t0[k] == q;
                        assert(t1[k] == q);
                    }
                    if q == p {
                        assert(t1[i as int] == q);
                    }
                }
            }
            i = i + 1;
        }
        assert(visible@.take(visible@.len() as int) =~= visible@);
    }

    /// Unloads every loaded chunk that is not in `visible` and drops its mesh.
    fn unload_invisible(&mut self, visible: &Vec<ChunkCoords>)
        requires
            old(self).wf(),
        ensures
            final(self).wf(),
            final(self).block_uvs == old(self).block_uvs,
            final(self).current_chunk_pos == old(self).current_chunk_pos,
            final(self).world.all() == old(self).world.all(),
            forall|p: ChunkCoords| #[trigger] final(self).world.loaded().contains_key(p)
                <==> (old(self).world.loaded().contains_key(p) && visible@.contains(p)),
            forall|p: ChunkCoords| #[trigger] final(self).world.loaded().contains_key(p) ==> (
                final(self).world.loaded()[p] == old(self).world.loaded()[p]
                && final(self).meshes()[p] == old(self).meshes()[p]),
    {
        let mut keys: Vec<ChunkCoords> = Vec::new();
        let mut j: usize = 0;
        while j < self.world.loaded_chunks.len()
            invariant
                0 <= j <= self.world.loaded_chunks@.len(),
                *self == *old(self),
                keys@.len() == j,
                forall|k: int| 0 <= k < j ==> keys@[k] == self.world.loaded_chunks@[k].0,
            decreases self.world.loaded_chunks@.len() - j,
        {
            keys.push(self.world.loaded_chunks[j].0);
            j = j + 1;
        }
        let mut i: usize = 0;
        while i < keys.len()
            invariant
                0 <= i <= keys@.len(),
                self.wf(),
                self.block_uvs == old(self).block_uvs,
                self.current_chunk_pos == old(self).current_chunk_pos,
                self.world.all() == old(self).world.all(),
                keys@.len() == old(self).world.loaded_chunks@.len(),
                forall|k: int| 0 <= k < keys@.len() ==> keys@[k] == old(self).world.loaded_chunks@[k].0,
                forall|p: ChunkCoords| #[trigger] self.world.loaded().contains_key(p) ==> (
                    old(self).world.loaded().contains_key(p)
                    && self.world.loaded()[p] == old(self).world.loaded()[p]
                    && self.meshes()[p] == old(self).meshes()[p]),
                forall|p: ChunkCoords| #[trigger] old(self).world.loaded().contains_key(p) && visible@.contains(p)
                    ==> self.world.loaded().contains_key(p),
                forall|k: int| 0 <= k < i && !visible@.contains(#[trigger] keys@[k])
                    ==> !self.world.loaded().contains_key(keys@[k]),
            decreases keys@.len() - i,
        {
            let k = keys[i];
            if !contains_coords(visible, k) {
                let ghost before = *self;
                self.world.unload_chunk(k);
                assoc_remove(&mut self.chunk_meshes, k);
                proof {
                    assert forall|q: ChunkCoords| #[trigger] self.meshes().contains_key(q)
                        <==> self.world.loaded().contains_key(q) by {
                        assert(before.meshes().contains_key(q) == before.world.loaded().contains_key(q));
                    }
                    assert forall|q: ChunkCoords| #[trigger] self.meshes().contains_key(q)
                        implies mesh_ok(self.meshes()[q], *self.world.loaded()[q], self.block_uvs) by {
                        assert(before.meshes().contains_key(q));
                    }
                    assert forall|q: ChunkCoords| #[trigger] self.world.loaded().contains_key(q) implies (
                        old(self).world.loaded().contains_key(q)
                        && self.world.loaded()[q] == old(self).world.loaded()[q]
                        && self.meshes()[q] == old(self).meshes()[q]) by {
                        assert(before.world.loaded().contains_key(q));
                    }
                    assert forall|q: ChunkCoords| #[trigger] old(self).world.loaded().contains_key(q) && visible@.contains(q)
                        implies self.world.loaded().contains_key(q) by {
                        assert(before.world.loaded().contains_key(q));
                    }
                    assert forall|m: int| 0 <= m < i + 1 && !visible@.contains(#[trigger] keys@[m])
                        implies !self.world.loaded().contains_key(keys@[m]) by {
                        if m < i {
                            assert(!before.world.loaded().contains_key(keys@[m]));
                        }
                    }
                }
            }
            i = i + 1;
        }
        proof {
            assert forall|p: ChunkCoords| #[trigger] self.world.loaded().contains_key(p)
                implies visible@.contains(p) by {
                lemma_assoc_map_dom(old(self).world.loaded_chunks@, p);
                let k = choose|k: int| 0 <= k < old(self).world.loaded_chunks@.len() && old(self).world.loaded_chunks@[k].0 == p;
                assert(keys@[k] == p);
            }
        }
    }

    /// One streaming step for the observer in chunk `observer_chunk`. When that
    /// chunk differs from the recorded one, the loaded set becomes exactly the
    /// render region (chunks already loaded and still inside keep their chunk and
    /// mesh; chunks entering are loaded and meshed; chunks leaving are unloaded
    /// and their meshes dropped), the chunk is recorded, and `true` is returned so
    /// that the vertex buffers get rebuilt. Otherwise nothing changes.
    pub fn update(&mut self, observer_chunk: ChunkCoords, hori: u32, vert: u32, content: &GameContent) -> (r: bool)
        requires
            old(self).wf(),
            i32::MIN <= observer_chunk[0] - hori,
            observer_chunk[0] + hori <= i32::MAX,
            i32::MIN <= observer_chunk[1] - vert,
            observer_chunk[1] + vert <= i32::MAX,
            i32::MIN <= observer_chunk[2] - hori,
            observer_chunk[2] + hori <= i32::MAX,
        ensures
            final(self).wf(),
            r == (old(self).current_chunk_pos != Some(observer_chunk)),
            !r ==> *final(self) == *old(self),
            r ==> streaming_step(*old(self), observer_chunk, hori, vert, *final(self)),
    {
        let same = match self.current_chunk_pos {
            Some(c) => coords_eq(c, observer_chunk),
            None => false,
        };
        if same {
            return false;
        }
        let visible = get_all_chunk_pos_in_render(observer_chunk, hori, vert);
        self.load_visible(&visible, content);
        let ghost mid = *self;
        self.unload_invisible(&visible);
        let ghost after = *self;
        self.current_chunk_pos = Some(observer_chunk);
        proof {
            assert(self.meshes() == after.meshes());
            assert(self.world == after.world);
            assert forall|p: ChunkCoords| #[trigger] self.world.all().contains_key(p)
                implies old(self).world.all().contains_key(p) || in_render(p, observer_chunk, hori, vert) by {
                if !old(self).world.all().contains_key(p) {
                    assert(mid.world.all().contains_key(p));
                    assert(mid.world.loaded().contains_key(p));
                    if old(self).world.loaded().contains_key(p) {
                        assert(old(self).world.all().contains_key(p));
                    }
                    assert(visible@.contains(p));
                }
            }
            assert forall|p: ChunkCoords| #[trigger] self.meshes().contains_key(p)
                implies mesh_ok(self.meshes()[p], *self.world.loaded()[p], self.block_uvs) by {
                assert(after.meshes().contains_key(p));
            }
            assert forall|p: ChunkCoords| #[trigger] self.meshes().contains_key(p)
                <==> self.world.loaded().contains_key(p) by {
                assert(after.meshes().contains_key(p) <==> after.world.loaded().contains_key(p));
            }
            assert forall|p: ChunkCoords| #[trigger] self.world.loaded().contains_key(p)
                <==> in_render(p, observer_chunk, hori, vert) by {
                if visible@.contains(p) {
                    assert(mid.world.loaded().contains_key(p));
                }
            }
            assert forall|p: ChunkCoords| #![trigger self.world.loaded()[p]]
                !old(self).world.loaded().contains_key(p) && in_render(p, observer_chunk, hori, vert) implies (
                if old(self).world.all().contains_key(p) {
                    self.world.loaded()[p] == old(self).world.all()[p]
                } else {
                    is_generated_at(*self.world.loaded()[p], p)
                }) by {
                assert(mid.world.loaded().contains_key(p));
                assert(self.world.loaded().contains_key(p));
            }
            assert forall|p: ChunkCoords| #[trigger] old(self).world.loaded().contains_key(p)
                && in_render(p, observer_chunk, hori, vert) implies (
                self.world.loaded()[p] == old(self).world.loaded()[p]
                && self.meshes()[p] == old(self).meshes()[p]) by {
                assert(mid.world.loaded().contains_key(p));
                assert(self.world.loaded().contains_key(p));
            }
        }
        true
    }

    /// Packs the meshes' faces that can face the recorded observer chunk into
    /// vertex buffers of at most `max_buffer_size` bytes (see `pack_chunk_meshes`).
    pub fn update_chunk_vertex_buffers(&self, max_buffer_size: u64) -> (r: Option<Vec<PackedBuffer>>)
        requires
            self.current_chunk_pos.is_some(),
        ensures
            r.is_none() <==> !all_fit(self.chunk_meshes@, self.current_chunk_pos.unwrap(), max_buffer_size as int),
            r matches Some(v) ==> buffers_view(v@) == packed(self.chunk_meshes@, self.current_chunk_pos.unwrap(), max_buffer_size as int),
    {
        let observer = match self.current_chunk_pos {
            Some(c) => c,
            None => [0, 0, 0],
        };
        pack_chunk_meshes(&self.chunk_meshes, observer, max_buffer_size)
    }

    /// Number of loaded chunks that have a non-empty mesh.
    pub fn amount_of_chunk_meshes(&self) -> (r: usize)
        ensures
            r == count_meshed(self.chunk_meshes@, self.chunk_meshes@.len() as int),
    {
        let mut n: usize = 0;
        let mut i: usize = 0;
        while i < self.chunk_meshes.len()
            invariant
                0 <= i <= self.chunk_meshes@.len(),
                n == count_meshed(self.chunk_meshes@, i as int),
                n <= i,
            decreases self.chunk_meshes@.len() - i,
        {
            if self.chunk_meshes[i].1.is_some() {
                n = n + 1;
            }
            i = i + 1;
        }
        n
    }

    /// Number of cached meshes; the same count as `amount_of_chunk_meshes`.
    pub fn amount_of_cached_chunk_meshes(&self) -> (r: usize)
        ensures
            r == count_meshed(self.chunk_meshes@, self.chunk_meshes@.len() as int),
    {
        self.amount_of_chunk_meshes()
    }
}

/// How many of the first `n` entries hold a mesh.
pub open spec fn count_meshed(s: Seq<(ChunkCoords, Option<ChunkMesh>)>, n: int) -> int
    decreases n,
{
    if n <= 0 {
        0
    } else {
        count_meshed(s, n - 1) + if s[n - 1].1.is_some() { 1int } else { 0int }
    }
}

} // verus!
