//! Surface extraction: one chunk's voxels to six lists of textured quads, with
//! faces between two solid voxels of the chunk culled.
use vstd::prelude::*;
use crate::assoc::{assoc_map, keys_distinct, lemma_assoc_map_dom, lemma_assoc_map_push,
    lemma_assoc_map_update, lemma_assoc_map_value};
use crate::chunk::{index_x, index_y, index_z, lemma_index_decode, linear_index, Chunk,
    BLOCKS_IN_CHUNK, CHUNK_SIZE};

verus! {

/// A rectangle of the texture atlas, in atlas texels.
#[derive(Debug, Clone, Copy, PartialEq, Eq)]
pub struct AtlasUV {
    pub uv_min: [u32; 2],
    pub uv_max: [u32; 2],
}

/// One mesh vertex. Positions are world-space and counted in half voxels (a cube
/// corner lies half a voxel from the voxel's centre); texture coordinates are
/// atlas texels.
#[derive(Debug, Clone, Copy, PartialEq, Eq)]
pub struct BlockVertex {
    pub position: [i64; 3],
    pub tex_coords: [u32; 2],
}

/// The six axis-aligned face directions.
#[derive(Debug, Clone, Copy, PartialEq, Eq, Structural)]
pub enum Face {
    XPos,
    XNeg,
    YPos,
    YNeg,
    ZPos,
    ZNeg,
}

/// Atlas rectangle of each block identifier, with the whole atlas as the
/// rectangle of an identifier that has none.
pub struct BlockUvs {
    size: [u32; 2],
    entries: Vec<(String, AtlasUV)>,
}

/// The pairs of a UV table with each identifier read as its characters.
pub open spec fn uv_pairs(s: Seq<(String, AtlasUV)>) -> Seq<(Seq<char>, AtlasUV)> {
    s.map_values(|e: (String, AtlasUV)| (e.0@, e.1))
}

impl View for BlockUvs {
    type V = Map<Seq<char>, AtlasUV>;

    closed spec fn view(&self) -> Map<Seq<char>, AtlasUV> {
        assoc_map(uv_pairs(self.entries@))
    }
}

impl BlockUvs {
    /// Well-formed: no identifier is stored twice.
    pub closed spec fn wf(&self) -> bool {
        keys_distinct(uv_pairs(self.entries@))
    }

    /// Width and height of the atlas, in texels.
    pub closed spec fn spec_atlas_size(&self) -> [u32; 2] {
        self.size
    }

    /// The rectangle covering the whole atlas.
    pub open spec fn full_rect(&self) -> AtlasUV {
        AtlasUV { uv_min: [0, 0], uv_max: self.spec_atlas_size() }
    }

    /// Width and height of the atlas, in texels.
    pub fn atlas_size(&self) -> (r: [u32; 2])
        ensures
            r == self.spec_atlas_size(),
    {
        self.size
    }

    /// The rectangle used for identifier `id`.
    pub open spec fn uv_of(&self, id: Seq<char>) -> AtlasUV {
        if self@.contains_key(id) {
            self@[id]
        } else {
            self.full_rect()
        }
    }

    /// An empty table for an atlas of the given size.
    pub fn new(atlas_size: [u32; 2]) -> (r: Self)
        ensures
            r.wf(),
            r.spec_atlas_size() == atlas_size,
            r@ == Map::<Seq<char>, AtlasUV>::empty(),
    {
        let r = BlockUvs { size: atlas_size, entries: Vec::new() };
        assert(uv_pairs(r.entries@) =~= Seq::empty());
        r
    }

    fn find(&self, id: &str) -> (r: Option<usize>)
        requires
            self.wf(),
        ensures
            match r {
                Some(i) => i < self.entries@.len() && self.entries@[i as int].0@ == id@,
                None => !self@.contains_key(id@),
            },
    {
        let key = id.to_owned();
        let mut i: usize = 0;
        while i < self.entries.len()
            invariant
                0 <= i <= self.entries@.len(),
                key@ == id@,
                forall|j: int| 0 <= j < i ==> self.entries@[j].0@ != id@,
            decreases self.entries@.len() - i,
        {
            if self.entries[i].0 == key {
                return Some(i);
            }
            i = i + 1;
        }
        proof {
            lemma_assoc_map_dom(uv_pairs(self.entries@), id@);
        }
        None
    }

    /// Records `uv` as the rectangle of `id`, replacing an earlier one.
    pub fn insert(&mut self, id: &str, uv: AtlasUV)
        requires
            old(self).wf(),
        ensures
            final(self).wf(),
            final(self).spec_atlas_size() == old(self).spec_atlas_size(),
            final(self)@ == old(self)@.insert(id@, uv),
    {
        let ghost s = uv_pairs(self.entries@);
        match self.find(id) {
            Some(i) => {
                let k = self.entries[i].0.clone();
                self.entries.set(i, (k, uv));
                proof {
                    assert(uv_pairs(self.entries@) =~= s.update(i as int, (s[i as int].0, uv)));
                    lemma_assoc_map_update(s, i as int, uv);
                }
            },
            None => {
                self.entries.push((id.to_owned(), uv));
                proof {
                    assert(uv_pairs(self.entries@) =~= s.push((id@, uv)));
                    lemma_assoc_map_push(s, id@, uv);
                    lemma_assoc_map_dom(s, id@);
                }
            },
        }
    }

    /// The rectangle of `id`, or the whole atlas when `id` has none.
    pub fn get(&self, id: &str) -> (r: AtlasUV)
        requires
            self.wf(),
        ensures
            r == self.uv_of(id@),
    {
        match self.find(id) {
            Some(i) => {
                proof {
                    lemma_assoc_map_value(uv_pairs(self.entries@), i as int);
                }
                self.entries[i].1
            },
            None => AtlasUV { uv_min: [0, 0], uv_max: self.size },
        }
    }
}

/// Corner `k` (0 to 5) of the two triangles of a unit-cube face: offset from the
/// voxel centre in half voxels, and template texture coordinate (0 or 1 per axis).
pub open spec fn template(f: Face, k: int) -> (int, int, int, int, int) {
    let t: Seq<(int, int, int, int, int)> = match f {
        Face::XPos => seq![(1, -1, -1, 1, 1), (1, -1, 1, 0, 1), (1, 1, 1, 0, 0), (1, 1, 1, 0, 0), (1, 1, -1, 1, 0), (1, -1, -1, 1, 1)],
        Face::XNeg => seq![(-1, -1, -1, 0, 1), (-1, 1, -1, 0, 0), (-1, 1, 1, 1, 0), (-1, 1, 1, 1, 0), (-1, -1, 1, 1, 1), (-1, -1, -1, 0, 1)],
        Face::YPos => seq![(-1, 1, -1, 1, 1), (1, 1, -1, 0, 1), (1, 1, 1, 0, 0), (1, 1, 1, 0, 0), (-1, 1, 1, 1, 0), (-1, 1, -1, 1, 1)],
        Face::YNeg => seq![(-1, -1, 1, 1, 1), (1, -1, 1, 0, 1), (1, -1, -1, 0, 0), (1, -1, -1, 0, 0), (-1, -1, -1, 1, 0), (-1, -1, 1, 1, 1)],
        Face::ZPos => seq![(-1, -1, 1, 1, 1), (-1, 1, 1, 1, 0), (1, 1, 1, 0, 0), (1, 1, 1, 0, 0), (1, -1, 1, 0, 1), (-1, -1, 1, 1, 1)],
        Face::ZNeg => seq![(-1, -1, -1, 0, 1), (1, -1, -1, 1, 1), (1, 1, -1, 1, 0), (1, 1, -1, 1, 0), (-1, 1, -1, 0, 0), (-1, -1, -1, 0, 1)],
    };
    t[k]
}

/// A template texture coordinate `t` (0 or 1) mapped into the rectangle `lo..hi`.
pub open spec fn remap_uv(lo: u32, hi: u32, t: int) -> int {
    lo + t * (hi - lo)
}

/// Centre of local voxel `(x, y, z)` of a chunk at `cp`, in half voxels, on one axis.
pub open spec fn centre_half(cp: i32, local: int) -> int {
    2 * (cp * 16 + local)
}

/// Vertex `k` of face `f` of the voxel at linear index `idx` of a chunk at `cp`.
pub open spec fn face_vertex(cp: [i32; 3], idx: int, uv: AtlasUV, f: Face, k: int) -> BlockVertex {
    let t = template(f, k);
    BlockVertex {
        position: [
            (centre_half(cp[0], index_x(idx)) + t.0) as i64,
            (centre_half(cp[1], index_y(idx)) + t.1) as i64,
            (centre_half(cp[2], index_z(idx)) + t.2) as i64,
        ],
        tex_coords: [remap_uv(uv.uv_min[0], uv.uv_max[0], t.3) as u32, remap_uv(uv.uv_min[1], uv.uv_max[1], t.4) as u32],
    }
}

/// The six vertices of face `f` of the voxel at `idx`.
pub open spec fn face_vertices(cp: [i32; 3], idx: int, uv: AtlasUV, f: Face) -> Seq<BlockVertex> {
    Seq::new(6, |k: int| face_vertex(cp, idx, uv, f, k))
}

/// Whether face `f` of the voxel at `idx` is exposed: on the chunk boundary in
/// that direction, or next to an air voxel.
pub open spec fn exposed(c: Chunk, idx: int, f: Face) -> bool {
    match f {
        Face::XPos => index_x(idx) == 15 || c.blocks@[idx + 1] == 0,
        Face::XNeg => index_x(idx) == 0 || c.blocks@[idx - 1] == 0,
        Face::YPos => index_y(idx) == 15 || c.blocks@[idx + 16] == 0,
        Face::YNeg => index_y(idx) == 0 || c.blocks@[idx - 16] == 0,
        Face::ZPos => index_z(idx) == 15 || c.blocks@[idx + 256] == 0,
        Face::ZNeg => index_z(idx) == 0 || c.blocks@[idx - 256] == 0,
    }
}

/// Whether the voxel at `idx` contributes face `f`: it is not air and the face is exposed.
pub open spec fn emits(c: Chunk, idx: int, f: Face) -> bool {
    c.blocks@[idx] != 0 && exposed(c, idx, f)
}

/// Vertices of direction `f` contributed by the voxels with index below `n`, in index order.
pub open spec fn faces_upto(c: Chunk, uvs: BlockUvs, f: Face, n: int) -> Seq<BlockVertex>
    decreases n,
{
    if n <= 0 {
        Seq::empty()
    } else {
        faces_upto(c, uvs, f, n - 1) + if emits(c, n - 1, f) {
            face_vertices(c.position, n - 1, uvs.uv_of(c.id_at(n - 1)), f)
        } else {
            Seq::empty()
        }
    }
}

/// All vertices of direction `f` of a chunk's mesh.
pub open spec fn mesh_faces(c: Chunk, uvs: BlockUvs, f: Face) -> Seq<BlockVertex> {
    faces_upto(c, uvs, f, 4096)
}

/// Whether no direction of the chunk has a face.
pub open spec fn mesh_empty(c: Chunk, uvs: BlockUvs) -> bool {
    &&& mesh_faces(c, uvs, Face::XPos).len() == 0
    &&& mesh_faces(c, uvs, Face::XNeg).len() == 0
    &&& mesh_faces(c, uvs, Face::YPos).len() == 0
    &&& mesh_faces(c, uvs, Face::YNeg).len() == 0
    &&& mesh_faces(c, uvs, Face::ZPos).len() == 0
    &&& mesh_faces(c, uvs, Face::ZNeg).len() == 0
}

/// The vertices of one chunk, by face direction.
#[derive(Debug, Clone, Default)]
pub struct ChunkMesh {
    pub x_pos: Vec<BlockVertex>,
    pub y_pos: Vec<BlockVertex>,
    pub z_pos: Vec<BlockVertex>,
    pub x_neg: Vec<BlockVertex>,
    pub y_neg: Vec<BlockVertex>,
    pub z_neg: Vec<BlockVertex>,
}

impl ChunkMesh {
    /// The vertex list of direction `f`.
    pub open spec fn faces(&self, f: Face) -> Seq<BlockVertex> {
        match f {
            Face::XPos => self.x_pos@,
            Face::XNeg => self.x_neg@,
            Face::YPos => self.y_pos@,
            Face::YNeg => self.y_neg@,
            Face::ZPos => self.z_pos@,
            Face::ZNeg => self.z_neg@,
        }
    }

    /// Whether the mesh is exactly the mesh of chunk `c` with table `uvs`.
    pub open spec fn is_mesh_of(&self, c: Chunk, uvs: BlockUvs) -> bool {
        forall|f: Face| #[trigger] self.faces(f) == mesh_faces(c, uvs, f)
    }

    fn is_empty(&self) -> (r: bool)
        ensures
            r == (forall|f: Face| #[trigger] self.faces(f).len() == 0),
    {
        let r = self.x_pos.len() == 0 && self.x_neg.len() == 0 && self.y_pos.len() == 0
            && self.y_neg.len() == 0 && self.z_pos.len() == 0 && self.z_neg.len() == 0;
        proof {
            if !r {
                if self.x_pos.len() != 0 { assert(self.faces(Face::XPos).len() != 0); }
                if self.x_neg.len() != 0 { assert(self.faces(Face::XNeg).len() != 0); }
                if self.y_pos.len() != 0 { assert(self.faces(Face::YPos).len() != 0); }
                if self.y_neg.len() != 0 { assert(self.faces(Face::YNeg).len() != 0); }
                if self.z_pos.len() != 0 { assert(self.faces(Face::ZPos).len() != 0); }
                if self.z_neg.len() != 0 { assert(self.faces(Face::ZNeg).len() != 0); }
            }
        }
        r
    }
}

/// Corner `k` of the template of face `f` (see `template`).
fn template_corner(f: Face, k: usize) -> (r: (i64, i64, i64, u32, u32))
    requires
        k < 6,
    ensures
        r.0 == template(f, k as int).0,
        r.1 == template(f, k as int).1,
        r.2 == template(f, k as int).2,
        r.3 == template(f, k as int).3,
        r.4 == template(f, k as int).4,
        r.3 <= 1,
        r.4 <= 1,
{
    let t: [(i64, i64, i64, u32, u32); 6] = match f {
        Face::XPos => [(1, -1, -1, 1, 1), (1, -1, 1, 0, 1), (1, 1, 1, 0, 0), (1, 1, 1, 0, 0), (1, 1, -1, 1, 0), (1, -1, -1, 1, 1)],
        Face::XNeg => [(-1, -1, -1, 0, 1), (-1, 1, -1, 0, 0), (-1, 1, 1, 1, 0), (-1, 1, 1, 1, 0), (-1, -1, 1, 1, 1), (-1, -1, -1, 0, 1)],
        Face::YPos => [(-1, 1, -1, 1, 1), (1, 1, -1, 0, 1), (1, 1, 1, 0, 0), (1, 1, 1, 0, 0), (-1, 1, 1, 1, 0), (-1, 1, -1, 1, 1)],
        Face::YNeg => [(-1, -1, 1, 1, 1), (1, -1, 1, 0, 1), (1, -1, -1, 0, 0), (1, -1, -1, 0, 0), (-1, -1, -1, 1, 0), (-1, -1, 1, 1, 1)],
        Face::ZPos => [(-1, -1, 1, 1, 1), (-1, 1, 1, 1, 0), (1, 1, 1, 0, 0), (1, 1, 1, 0, 0), (1, -1, 1, 0, 1), (-1, -1, 1, 1, 1)],
        Face::ZNeg => [(-1, -1, -1, 0, 1), (1, -1, -1, 1, 1), (1, 1, -1, 1, 0), (1, 1, -1, 1, 0), (-1, 1, -1, 0, 0), (-1, -1, -1, 0, 1)],
    };
    t[k]
}

/// Appends the six vertices of face `f` of the voxel at `idx` of a chunk at `cp`.
fn push_face(out: &mut Vec<BlockVertex>, cp: [i32; 3], idx: usize, uv: AtlasUV, f: Face)
    requires
        idx < 4096,
    ensures
        final(out)@ == old(out)@ + face_vertices(cp, idx as int, uv, f),
{
    proof {
        lemma_index_decode(idx as int);
    }
    let x = (idx % CHUNK_SIZE) as i64;
    let y = ((idx / CHUNK_SIZE) % CHUNK_SIZE) as i64;
    let z = (idx / (CHUNK_SIZE * CHUNK_SIZE)) as i64;
    let cx = 2 * (cp[0] as i64 * 16 + x);
    let cy = 2 * (cp[1] as i64 * 16 + y);
    let cz = 2 * (cp[2] as i64 * 16 + z);
    let mut k: usize = 0;
    while k < 6
        invariant
            0 <= k <= 6,
            cx == centre_half(cp[0], index_x(idx as int)),
            cy == centre_half(cp[1], index_y(idx as int)),
            cz == centre_half(cp[2], index_z(idx as int)),
            out@ == old(out)@ + face_vertices(cp, idx as int, uv, f).take(k as int),
        decreases 6 - k,
    {
        let t = template_corner(f, k);
        let u = if t.3 == 0 { uv.uv_min[0] } else { uv.uv_max[0] };
        let v = if t.4 == 0 { uv.uv_min[1] } else { uv.uv_max[1] };
        let vert = BlockVertex { position: [cx + t.0, cy + t.1, cz + t.2], tex_coords: [u, v] };
        proof {
            let tt = template(f, k as int);
            assert(u as int == remap_uv(uv.uv_min[0], uv.uv_max[0], tt.3)) by (nonlinear_arith)
                requires
                    tt.3 == 0 || tt.3 == 1,
                    tt.3 == 0 ==> u == uv.uv_min[0],
                    tt.3 == 1 ==> u == uv.uv_max[0],
            ;
            assert(v as int == remap_uv(uv.uv_min[1], uv.uv_max[1], tt.4)) by (nonlinear_arith)
                requires
                    tt.4 == 0 || tt.4 == 1,
                    tt.4 == 0 ==> v == uv.uv_min[1],
                    tt.4 == 1 ==> v == uv.uv_max[1],
            ;
            assert(vert.position =~= face_vertex(cp, idx as int, uv, f, k as int).position);
            assert(vert.tex_coords =~= face_vertex(cp, idx as int, uv, f, k as int).tex_coords);
        }
        out.push(vert);
        proof {
            assert(face_vertices(cp, idx as int, uv, f).take(k as int + 1)
                =~= face_vertices(cp, idx as int, uv, f).take(k as int).push(vert));
        }
        k = k + 1;
    }
    assert(face_vertices(cp, idx as int, uv, f).take(6) =~= face_vertices(cp, idx as int, uv, f));
}

/// A chunk whose voxels are all air has no face in any direction.
pub proof fn lemma_all_air_no_faces(c: Chunk, uvs: BlockUvs, f: Face, n: int)
    requires
        c.blocks@.len() == 4096,
        n <= 4096,
        forall|i: int| 0 <= i < 4096 ==> c.blocks@[i] == 0,
    ensures
        faces_upto(c, uvs, f, n).len() == 0,
    decreases n,
{
    if n > 0 {
        lemma_all_air_no_faces(c, uvs, f, n - 1);
    }
}

/// Builds the mesh of `chunk`: for each non-air voxel, each face that lies on the
/// chunk boundary or next to air, as six vertices textured from `block_uvs`.
/// `None` when no face is produced (in particular for a chunk of air only).
pub fn build_chunk_mesh(chunk: &Chunk, block_uvs: &BlockUvs) -> (r: Option<ChunkMesh>)
    requires
        chunk.wf(),
        block_uvs.wf(),
    ensures
        r.is_none() <==> mesh_empty(*chunk, *block_uvs),
        r matches Some(m) ==> m.is_mesh_of(*chunk, *block_uvs),
{
    if chunk.palette.len() == 1 {
        proof {
            assert forall|i: int| 0 <= i < 4096 implies chunk.blocks@[i] == 0 by {
                assert(chunk.blocks@[i] < chunk.palette@.len());
            }
            lemma_all_air_no_faces(*chunk, *block_uvs, Face::XPos, 4096);
            lemma_all_air_no_faces(*chunk, *block_uvs, Face::XNeg, 4096);
            lemma_all_air_no_faces(*chunk, *block_uvs, Face::YPos, 4096);
            lemma_all_air_no_faces(*chunk, *block_uvs, Face::YNeg, 4096);
            lemma_all_air_no_faces(*chunk, *block_uvs, Face::ZPos, 4096);
            lemma_all_air_no_faces(*chunk, *block_uvs, Face::ZNeg, 4096);
        }
        return None;
    }
    let mut mesh = ChunkMesh {
        x_pos: Vec::new(),
        y_pos: Vec::new(),
        z_pos: Vec::new(),
        x_neg: Vec::new(),
        y_neg: Vec::new(),
        z_neg: Vec::new(),
    };
    let cp = chunk.position;
    let mut idx: usize = 0;
    while idx < BLOCKS_IN_CHUNK
        invariant
            chunk.wf(),
            block_uvs.wf(),
            cp == chunk.position,
            0 <= idx <= 4096,
            forall|f: Face| #[trigger] mesh.faces(f) == faces_upto(*chunk, *block_uvs, f, idx as int),
        decreases 4096 - idx,
    {
        let ghost before = mesh;
        if chunk.is_air_at_idx(idx) {
            idx = idx + 1;
            proof {
                assert forall|f: Face| #[trigger] mesh.faces(f) == faces_upto(*chunk, *block_uvs, f, idx as int) by {
                    assert(before.faces(f) == faces_upto(*chunk, *block_uvs, f, idx - 1));
                    assert(faces_upto(*chunk, *block_uvs, f, idx as int) =~= faces_upto(*chunk, *block_uvs, f, idx - 1));
                }
            }
            continue;
        }
        proof {
            lemma_index_decode(idx as int);
        }
        let palette_idx = chunk.blocks[idx] as usize;
        let uv = block_uvs.get(chunk.palette[palette_idx].as_str());
        let x = idx % CHUNK_SIZE;
        let y = (idx / CHUNK_SIZE) % CHUNK_SIZE;
        let z = idx / (CHUNK_SIZE * CHUNK_SIZE);

        let top_air = y == CHUNK_SIZE - 1 || chunk.is_air_at_idx(idx + CHUNK_SIZE);
        let bottom_air = y == 0 || chunk.is_air_at_idx(idx - CHUNK_SIZE);
        let front_air = z == CHUNK_SIZE - 1 || chunk.is_air_at_idx(idx + CHUNK_SIZE * CHUNK_SIZE);
        let rear_air = z == 0 || chunk.is_air_at_idx(idx - CHUNK_SIZE * CHUNK_SIZE);
        let left_air = x == CHUNK_SIZE - 1 || chunk.is_air_at_idx(idx + 1);
        let right_air = x == 0 || chunk.is_air_at_idx(idx - 1);

        if top_air {
            push_face(&mut mesh.y_pos, cp, idx, uv, Face::YPos);
        }
        if bottom_air {
            push_face(&mut mesh.y_neg, cp, idx, uv, Face::YNeg);
        }
        if front_air {
            push_face(&mut mesh.z_pos, cp, idx, uv, Face::ZPos);
        }
        if rear_air {
            push_face(&mut mesh.z_neg, cp, idx, uv, Face::ZNeg);
        }
        if left_air {
            push_face(&mut mesh.x_pos, cp, idx, uv, Face::XPos);
        }
        if right_air {
            push_face(&mut mesh.x_neg, cp, idx, uv, Face::XNeg);
        }
        proof {
            assert(top_air == exposed(*chunk, idx as int, Face::YPos));
            assert(bottom_air == exposed(*chunk, idx as int, Face::YNeg));
            assert(front_air == exposed(*chunk, idx as int, Face::ZPos));
            assert(rear_air == exposed(*chunk, idx as int, Face::ZNeg));
            assert(left_air == exposed(*chunk, idx as int, Face::XPos));
            assert(right_air == exposed(*chunk, idx as int, Face::XNeg));
            assert(uv == block_uvs.uv_of(chunk.id_at(idx as int)));
            assert forall|f: Face| #[trigger] mesh.faces(f) == faces_upto(*chunk, *block_uvs, f, idx + 1) by {
                assert(before.faces(f) == faces_upto(*chunk, *block_uvs, f, idx as int));
                if emits(*chunk, idx as int, f) {
                    assert(mesh.faces(f) =~= faces_upto(*chunk, *block_uvs, f, idx + 1));
                } else {
                    assert(mesh.faces(f) =~= faces_upto(*chunk, *block_uvs, f, idx + 1));
                }
            }
        }
        idx = idx + 1;
    }
    if mesh.is_empty() {
        proof {
            assert(mesh.faces(Face::XPos).len() == 0);
            assert(mesh.faces(Face::XNeg).len() == 0);
            assert(mesh.faces(Face::YPos).len() == 0);
            assert(mesh.faces(Face::YNeg).len() == 0);
            assert(mesh.faces(Face::ZPos).len() == 0);
            assert(mesh.faces(Face::ZNeg).len() == 0);
        }
        None
    } else {
        proof {
            assert(mesh.faces(Face::XPos) == mesh_faces(*chunk, *block_uvs, Face::XPos));
            assert(mesh.faces(Face::XNeg) == mesh_faces(*chunk, *block_uvs, Face::XNeg));
            assert(mesh.faces(Face::YPos) == mesh_faces(*chunk, *block_uvs, Face::YPos));
            assert(mesh.faces(Face::YNeg) == mesh_faces(*chunk, *block_uvs, Face::YNeg));
            assert(mesh.faces(Face::ZPos) == mesh_faces(*chunk, *block_uvs, Face::ZPos));
            assert(mesh.faces(Face::ZNeg) == mesh_faces(*chunk, *block_uvs, Face::ZNeg));
        }
        Some(mesh)
    }
}

/// A chunk whose every voxel is air has an empty mesh (so the builder gives `None`).
pub proof fn lemma_all_air_mesh_empty(c: Chunk, uvs: BlockUvs)
    requires
        c.blocks@.len() == 4096,
        forall|i: int| 0 <= i < 4096 ==> c.blocks@[i] == 0,
    ensures
        mesh_empty(c, uvs),
{
    lemma_all_air_no_faces(c, uvs, Face::XPos, 4096);
    lemma_all_air_no_faces(c, uvs, Face::XNeg, 4096);
    lemma_all_air_no_faces(c, uvs, Face::YPos, 4096);
    lemma_all_air_no_faces(c, uvs, Face::YNeg, 4096);
    lemma_all_air_no_faces(c, uvs, Face::ZPos, 4096);
    lemma_all_air_no_faces(c, uvs, Face::ZNeg, 4096);
}

/// A voxel strictly inside the chunk whose six neighbours are all non-air
/// contributes no face in any direction.
pub proof fn lemma_occluded_voxel_no_faces(c: Chunk, x: int, y: int, z: int, f: Face)
    requires
        c.blocks@.len() == 4096,
        1 <= x < 15,
        1 <= y < 15,
        1 <= z < 15,
        c.blocks@[linear_index(x + 1, y, z)] != 0,
        c.blocks@[linear_index(x - 1, y, z)] != 0,
        c.blocks@[linear_index(x, y + 1, z)] != 0,
        c.blocks@[linear_index(x, y - 1, z)] != 0,
        c.blocks@[linear_index(x, y, z + 1)] != 0,
        c.blocks@[linear_index(x, y, z - 1)] != 0,
    ensures
        !emits(c, linear_index(x, y, z), f),
{
    crate::chunk::lemma_index_round_trip(x, y, z);
}

} // verus!
