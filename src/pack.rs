//! Packing of the chunk meshes' visible faces into vertex buffers of bounded size.
use vstd::prelude::*;
use crate::chunk::ChunkCoords;
use crate::mesh::{BlockVertex, ChunkMesh};

verus! {

/// Size of one vertex in a GPU vertex buffer: three 32-bit position components
/// and two 32-bit texture coordinates.
pub const VERTEX_BYTES: u64 = 20;

/// The face lists of mesh `m` of the chunk at `c` that can face the observer's
/// chunk `o`, in the order +X, -X, +Y, -Y, +Z, -Z: a positive-side list when the
/// observer is on that side or level with the chunk, a negative-side list likewise.
pub open spec fn faces_toward(m: ChunkMesh, c: ChunkCoords, o: ChunkCoords) -> Seq<BlockVertex> {
    (if o[0] >= c[0] { m.x_pos@ } else { Seq::empty() })
        + (if o[0] <= c[0] { m.x_neg@ } else { Seq::empty() })
        + (if o[1] >= c[1] { m.y_pos@ } else { Seq::empty() })
        + (if o[1] <= c[1] { m.y_neg@ } else { Seq::empty() })
        + (if o[2] >= c[2] { m.z_pos@ } else { Seq::empty() })
        + (if o[2] <= c[2] { m.z_neg@ } else { Seq::empty() })
}

/// The selected vertices of entry `i` (none for a chunk without a mesh).
pub open spec fn selected(ms: Seq<(ChunkCoords, Option<ChunkMesh>)>, o: ChunkCoords, i: int) -> Seq<BlockVertex> {
    match ms[i].1 {
        Some(m) => faces_toward(m, ms[i].0, o),
        None => Seq::empty(),
    }
}

/// Whether `n` vertices fit in a buffer of `cap` bytes.
pub open spec fn fits(n: int, cap: int) -> bool {
    n * VERTEX_BYTES <= cap
}

/// Whether the selection of every meshed entry fits in one buffer on its own.
pub open spec fn all_fit(ms: Seq<(ChunkCoords, Option<ChunkMesh>)>, o: ChunkCoords, cap: int) -> bool {
    forall|i: int| 0 <= i < ms.len() ==> fits(#[trigger] selected(ms, o, i).len() as int, cap)
}

/// The selections of the first `n` entries, concatenated.
pub open spec fn selected_upto(ms: Seq<(ChunkCoords, Option<ChunkMesh>)>, o: ChunkCoords, n: int) -> Seq<BlockVertex>
    decreases n,
{
    if n <= 0 {
        Seq::empty()
    } else {
        selected_upto(ms, o, n - 1) + selected(ms, o, n - 1)
    }
}

/// Greedy single-pass packing after the first `n` entries: the finished buffers
/// (each tagged with the last chunk that contributed to it), the vertices being
/// gathered, and the last chunk that contributed to them.
pub open spec fn pack_state(ms: Seq<(ChunkCoords, Option<ChunkMesh>)>, o: ChunkCoords, cap: int, n: int)
    -> (Seq<(ChunkCoords, Seq<BlockVertex>)>, Seq<BlockVertex>, Option<ChunkCoords>)
    decreases n,
{
    if n <= 0 {
        (Seq::empty(), Seq::empty(), None)
    } else {
        let st = pack_state(ms, o, cap, n - 1);
        match ms[n - 1].1 {
            None => st,
            Some(m) => {
                let c = faces_toward(m, ms[n - 1].0, o);
                if fits((st.1.len() + c.len()) as int, cap) {
                    (st.0, st.1 + c, Some(ms[n - 1].0))
                } else {
                    match st.2 {
                        Some(t) => (st.0.push((t, st.1)), c, Some(ms[n - 1].0)),
                        None => (st.0, c, Some(ms[n - 1].0)),
                    }
                }
            },
        }
    }
}

/// The buffers that greedy packing of all entries produces.
pub open spec fn packed(ms: Seq<(ChunkCoords, Option<ChunkMesh>)>, o: ChunkCoords, cap: int) -> Seq<(ChunkCoords, Seq<BlockVertex>)> {
    let st = pack_state(ms, o, cap, ms.len() as int);
    match st.2 {
        Some(t) => st.0.push((t, st.1)),
        None => st.0,
    }
}

/// All vertices of a list of buffers, in order.
pub open spec fn flatten(bufs: Seq<(ChunkCoords, Seq<BlockVertex>)>) -> Seq<BlockVertex>
    decreases bufs.len(),
{
    if bufs.len() == 0 {
        Seq::empty()
    } else {
        flatten(bufs.drop_last()) + bufs.last().1
    }
}

/// One vertex buffer's contents, tagged with the last chunk that contributed to it.
#[derive(Debug, Clone)]
pub struct PackedBuffer {
    pub last_chunk: ChunkCoords,
    pub vertices: Vec<BlockVertex>,
}

/// The buffers as tag/contents pairs.
pub open spec fn buffers_view(v: Seq<PackedBuffer>) -> Seq<(ChunkCoords, Seq<BlockVertex>)> {
    v.map_values(|b: PackedBuffer| (b.last_chunk, b.vertices@))
}

/// Appends every vertex of `src` to `dst`.
fn append_vertices(dst: &mut Vec<BlockVertex>, src: &Vec<BlockVertex>)
    ensures
        final(dst)@ == old(dst)@ + src@,
{
    let mut i: usize = 0;
    while i < src.len()
        invariant
            0 <= i <= src@.len(),
            dst@ == old(dst)@ + src@.take(i as int),
        decreases src@.len() - i,
    {
        dst.push(src[i]);
        assert(src@.take(i as int + 1) =~= src@.take(i as int).push(src@[i as int]));
        i = i + 1;
    }
    assert(src@.take(src@.len() as int) =~= src@);
}

/// The face lists of `m` that can face the observer's chunk `observer`.
pub fn select_faces(m: &ChunkMesh, chunk_pos: ChunkCoords, observer: ChunkCoords) -> (r: Vec<BlockVertex>)
    ensures
        r@ == faces_toward(*m, chunk_pos, observer),
{
    let mut r: Vec<BlockVertex> = Vec::new();
    if observer[0] >= chunk_pos[0] {
        append_vertices(&mut r, &m.x_pos);
    }
    if observer[0] <= chunk_pos[0] {
        append_vertices(&mut r, &m.x_neg);
    }
    if observer[1] >= chunk_pos[1] {
        append_vertices(&mut r, &m.y_pos);
    }
    if observer[1] <= chunk_pos[1] {
        append_vertices(&mut r, &m.y_neg);
    }
    if observer[2] >= chunk_pos[2] {
        append_vertices(&mut r, &m.z_pos);
    }
    if observer[2] <= chunk_pos[2] {
        append_vertices(&mut r, &m.z_neg);
    }
    assert(r@ =~= faces_toward(*m, chunk_pos, observer));
    r
}

/// Packs the faces of `meshes` that can face `observer` into buffers of at most
/// `max_buffer_size` bytes, greedily in the given order: a chunk's selection
/// joins the current buffer when it fits, else the current buffer is finished
/// and a new one starts with it. `None` when one chunk's selection alone does
/// not fit.
pub fn pack_chunk_meshes(
    meshes: &Vec<(ChunkCoords, Option<ChunkMesh>)>,
    observer: ChunkCoords,
    max_buffer_size: u64,
) -> (r: Option<Vec<PackedBuffer>>)
    ensures
        r.is_none() <==> !all_fit(meshes@, observer, max_buffer_size as int),
        r matches Some(v) ==> buffers_view(v@) == packed(meshes@, observer, max_buffer_size as int),
{
    let ghost ms = meshes@;
    let ghost cap = max_buffer_size as int;
    let mut bufs: Vec<PackedBuffer> = Vec::new();
    let mut acc: Vec<BlockVertex> = Vec::new();
    let mut tag: Option<ChunkCoords> = None;
    let mut i: usize = 0;
    while i < meshes.len()
        invariant
            0 <= i <= ms.len(),
            ms == meshes@,
            cap == max_buffer_size,
            forall|j: int| 0 <= j < i ==> fits(#[trigger] selected(ms, observer, j).len() as int, cap),
            buffers_view(bufs@) == pack_state(ms, observer, cap, i as int).0,
            acc@ == pack_state(ms, observer, cap, i as int).1,
            tag == pack_state(ms, observer, cap, i as int).2,
        decreases ms.len() - i,
    {
        match &meshes[i].1 {
            None => {},
            Some(m) => {
                let pos = meshes[i].0;
                let mut chunk_vertices = select_faces(m, pos, observer);
                if (chunk_vertices.len() as u128) * (VERTEX_BYTES as u128) > max_buffer_size as u128 {
                    proof {
                        assert(!fits(selected(ms, observer, i as int).len() as int, cap));
                    }
                    return None;
                }
                if (acc.len() as u128 + chunk_vertices.len() as u128) * (VERTEX_BYTES as u128)
                    <= max_buffer_size as u128 {
                    acc.append(&mut chunk_vertices);
                } else {
                    match tag {
                        Some(t) => {
                            let ghost b = bufs@;
                            let ghost full = acc@;
                            bufs.push(PackedBuffer { last_chunk: t, vertices: acc });
                            acc = chunk_vertices;
                            proof {
                                assert(buffers_view(bufs@) =~= buffers_view(b).push((t, full)));
                            }
                        },
                        None => {
                            acc = chunk_vertices;
                        },
                    }
                }
                tag = Some(pos);
            },
        }
        i = i + 1;
    }
    match tag {
        Some(t) => {
            let ghost b = bufs@;
            bufs.push(PackedBuffer { last_chunk: t, vertices: acc });
            proof {
                assert(buffers_view(bufs@) =~= buffers_view(b).push((t, pack_state(ms, observer, cap, ms.len() as int).1)));
            }
        },
        None => {},
    }
    Some(bufs)
}

proof fn lemma_flatten_push(bufs: Seq<(ChunkCoords, Seq<BlockVertex>)>, b: (ChunkCoords, Seq<BlockVertex>))
    ensures
        flatten(bufs.push(b)) == flatten(bufs) + b.1,
{
    assert(bufs.push(b).drop_last() =~= bufs);
}

proof fn lemma_pack_state(ms: Seq<(ChunkCoords, Option<ChunkMesh>)>, o: ChunkCoords, cap: int, n: int)
    requires
        all_fit(ms, o, cap),
        0 <= cap,
        0 <= n <= ms.len(),
    ensures
        forall|i: int| 0 <= i < pack_state(ms, o, cap, n).0.len()
            ==> fits(#[trigger] pack_state(ms, o, cap, n).0[i].1.len() as int, cap),
        fits(pack_state(ms, o, cap, n).1.len() as int, cap),
        flatten(pack_state(ms, o, cap, n).0) + pack_state(ms, o, cap, n).1 == selected_upto(ms, o, n),
        pack_state(ms, o, cap, n).2.is_none()
            ==> pack_state(ms, o, cap, n).0.len() == 0 && pack_state(ms, o, cap, n).1.len() == 0,
    decreases n,
{
    if n > 0 {
        lemma_pack_state(ms, o, cap, n - 1);
        let prev = pack_state(ms, o, cap, n - 1);
        let st = pack_state(ms, o, cap, n);
        assert(fits(selected(ms, o, n - 1).len() as int, cap));
        match ms[n - 1].1 {
            None => {
                assert(selected_upto(ms, o, n) =~= selected_upto(ms, o, n - 1));
            },
            Some(m) => {
                let c = faces_toward(m, ms[n - 1].0, o);
                if fits((prev.1.len() + c.len()) as int, cap) {
                    assert(flatten(st.0) + st.1 =~= selected_upto(ms, o, n));
                } else {
                    match prev.2 {
                        Some(t) => {
                            lemma_flatten_push(prev.0, (t, prev.1));
                            assert(flatten(st.0) + st.1 =~= selected_upto(ms, o, n));
                            assert forall|i: int| 0 <= i < st.0.len() implies fits(#[trigger] st.0[i].1.len() as int, cap) by {
                                if i < prev.0.len() {
                                    assert(st.0[i] == prev.0[i]);
                                }
                            }
                        },
                        None => {
                            assert(prev.1.len() == 0);
                            assert(false) by (nonlinear_arith)
                                requires
                                    !fits((prev.1.len() + c.len()) as int, cap),
                                    prev.1.len() == 0,
                                    fits(c.len() as int, cap),
                            ;
                        },
                    }
                }
            },
        }
    } else {
        let st = pack_state(ms, o, cap, n);
        assert(flatten(st.0) + st.1 =~= selected_upto(ms, o, n));
    }
}

/// Greedy packing never produces a buffer larger than the byte budget, and the
/// buffers hold every selected vertex of every meshed chunk exactly once, in
/// order (so the vertex counts add up to the selected total), whenever each
/// chunk's selection fits in one buffer on its own.
pub proof fn lemma_packing_bound(ms: Seq<(ChunkCoords, Option<ChunkMesh>)>, o: ChunkCoords, cap: int)
    requires
        0 <= cap,
        all_fit(ms, o, cap),
    ensures
        forall|i: int| 0 <= i < packed(ms, o, cap).len() ==> fits(#[trigger] packed(ms, o, cap)[i].1.len() as int, cap),
        flatten(packed(ms, o, cap)) == selected_upto(ms, o, ms.len() as int),
        flatten(packed(ms, o, cap)).len() == selected_upto(ms, o, ms.len() as int).len(),
{
    lemma_pack_state(ms, o, cap, ms.len() as int);
    let st = pack_state(ms, o, cap, ms.len() as int);
    match st.2 {
        Some(t) => {
            lemma_flatten_push(st.0, (t, st.1));
            assert forall|i: int| 0 <= i < packed(ms, o, cap).len() implies fits(#[trigger] packed(ms, o, cap)[i].1.len() as int, cap) by {
                if i < st.0.len() {
                    assert(packed(ms, o, cap)[i] == st.0[i]);
                }
            }
        },
        None => {
            assert(st.1 =~= Seq::<BlockVertex>::empty());
            assert(flatten(st.0) + st.1 =~= flatten(st.0));
        },
    }
}

} // verus!
