//! Which chunks should be resident around the observer.
use vstd::prelude::*;
use crate::chunk::ChunkCoords;
use crate::world::{chunk_of, to_chunk_coord};

verus! {

/// Whether chunk `c` lies in the render region around the observer's chunk `o`:
/// within `vert` chunks vertically, and within a horizontal circle of radius `hori`.
pub open spec fn in_render(c: ChunkCoords, o: ChunkCoords, hori: u32, vert: u32) -> bool {
    let dx = c[0] - o[0];
    let dy = c[1] - o[1];
    let dz = c[2] - o[2];
    &&& -(vert as int) <= dy <= vert
    &&& dx * dx + dz * dz <= hori * hori
}

/// Whether `a` comes strictly before `b` in X-major, then Y, then Z order.
pub open spec fn coords_before(a: ChunkCoords, b: (int, int, int)) -> bool {
    a[0] < b.0 || (a[0] == b.0 && (a[1] < b.1 || (a[1] == b.1 && a[2] < b.2)))
}

/// The chunk holding the world position `pos` (floored division on each axis).
pub fn observer_chunk(pos: [i32; 3]) -> (r: ChunkCoords)
    ensures
        r[0] == chunk_of(pos[0] as int),
        r[1] == chunk_of(pos[1] as int),
        r[2] == chunk_of(pos[2] as int),
{
    let (cx, _) = to_chunk_coord(pos[0]);
    let (cy, _) = to_chunk_coord(pos[1]);
    let (cz, _) = to_chunk_coord(pos[2]);
    [cx, cy, cz]
}

/// A square is at most another when the magnitudes are ordered.
proof fn lemma_square_bound(d: int, h: int)
    requires
        0 <= h,
        d * d <= h * h,
    ensures
        -h <= d <= h,
{
    if d > h {
        assert(d * d > h * h) by (nonlinear_arith)
            requires
                d > h,
                h >= 0,
        ;
    }
    if d < -h {
        assert(d * d > h * h) by (nonlinear_arith)
            requires
                d < -h,
                h >= 0,
        ;
    }
}

/// A chunk in the render region is within `hori` on X and Z and within `vert` on Y.
proof fn lemma_in_render_bounds(q: ChunkCoords, o: ChunkCoords, hori: u32, vert: u32)
    requires
        in_render(q, o, hori, vert),
    ensures
        -(hori as int) <= q[0] - o[0] <= hori,
        -(hori as int) <= q[2] - o[2] <= hori,
        -(vert as int) <= q[1] - o[1] <= vert,
{
    let dx = q[0] - o[0];
    let dz = q[2] - o[2];
    assert(dx * dx >= 0 && dz * dz >= 0) by (nonlinear_arith);
    lemma_square_bound(dx, hori as int);
    lemma_square_bound(dz, hori as int);
}

/// Every chunk coordinate in the render region around `center`, each once, in
/// X-major, then Y, then Z order.
pub fn get_all_chunk_pos_in_render(center: ChunkCoords, hori: u32, vert: u32) -> (r: Vec<ChunkCoords>)
    requires
        i32::MIN <= center[0] - hori,
        center[0] + hori <= i32::MAX,
        i32::MIN <= center[1] - vert,
        center[1] + vert <= i32::MAX,
        i32::MIN <= center[2] - hori,
        center[2] + hori <= i32::MAX,
    ensures
        forall|p: ChunkCoords| r@.contains(p) <==> in_render(p, center, hori, vert),
        r@.no_duplicates(),
        forall|i: int, j: int| 0 <= i < j < r@.len() ==> coords_before(r@[i], (r@[j][0] as int, r@[j][1] as int, r@[j][2] as int)),
{
    let h = hori as i64;
    let v = vert as i64;
    let ox = center[0] as i64;
    let oy = center[1] as i64;
    let oz = center[2] as i64;
    assert(0 <= hori * hori <= 0x1_0000_0000_0000_0000) by (nonlinear_arith)
        requires
            0 <= hori <= 0xffff_ffff,
    ;
    let hh: i128 = (hori as i128) * (hori as i128);
    let mut out: Vec<ChunkCoords> = Vec::new();
    let mut x: i64 = ox - h;
    proof {
        assert forall|q: ChunkCoords| !(in_render(q, center, hori, vert) && coords_before(q, (x as int, i32::MIN as int, i32::MIN as int))) by {
            if in_render(q, center, hori, vert) {
                lemma_in_render_bounds(q, center, hori, vert);
            }
        }
    }
    while x <= ox + h
        invariant
            ox - h <= x <= ox + h + 1,
            h == hori, v == vert, ox == center[0], oy == center[1], oz == center[2],
            hh == hori * hori,
            i32::MIN <= ox - h, ox + h <= i32::MAX,
            i32::MIN <= oy - v, oy + v <= i32::MAX,
            i32::MIN <= oz - h, oz + h <= i32::MAX,
            forall|p: ChunkCoords| out@.contains(p) <==> (in_render(p, center, hori, vert) && coords_before(p, (x as int, i32::MIN as int, i32::MIN as int))),
            forall|i: int, j: int| 0 <= i < j < out@.len() ==> coords_before(out@[i], (out@[j][0] as int, out@[j][1] as int, out@[j][2] as int)),
            forall|i: int| 0 <= i < out@.len() ==> coords_before(out@[i], (x as int, i32::MIN as int, i32::MIN as int)),
        decreases ox + h + 1 - x,
    {
        let mut y: i64 = oy - v;
        proof {
            assert forall|q: ChunkCoords| (in_render(q, center, hori, vert) && coords_before(q, (x as int, y as int, i32::MIN as int)))
                <==> (in_render(q, center, hori, vert) && coords_before(q, (x as int, i32::MIN as int, i32::MIN as int))) by {
                if in_render(q, center, hori, vert) {
                    lemma_in_render_bounds(q, center, hori, vert);
                }
            }
        }
        while y <= oy + v
            invariant
                ox - h <= x <= ox + h,
                oy - v <= y <= oy + v + 1,
                h == hori, v == vert, ox == center[0], oy == center[1], oz == center[2],
                hh == hori * hori,
                i32::MIN <= ox - h, ox + h <= i32::MAX,
                i32::MIN <= oy - v, oy + v <= i32::MAX,
                i32::MIN <= oz - h, oz + h <= i32::MAX,
                forall|p: ChunkCoords| out@.contains(p) <==> (in_render(p, center, hori, vert) && coords_before(p, (x as int, y as int, i32::MIN as int))),
                forall|i: int, j: int| 0 <= i < j < out@.len() ==> coords_before(out@[i], (out@[j][0] as int, out@[j][1] as int, out@[j][2] as int)),
                forall|i: int| 0 <= i < out@.len() ==> coords_before(out@[i], (x as int, y as int, i32::MIN as int)),
            decreases oy + v + 1 - y,
        {
            let mut z: i64 = oz - h;
            proof {
                assert forall|q: ChunkCoords| (in_render(q, center, hori, vert) && coords_before(q, (x as int, y as int, z as int)))
                    <==> (in_render(q, center, hori, vert) && coords_before(q, (x as int, y as int, i32::MIN as int))) by {
                    if in_render(q, center, hori, vert) {
                        lemma_in_render_bounds(q, center, hori, vert);
                    }
                }
            }
            while z <= oz + h
                invariant
                    ox - h <= x <= ox + h,
                    oy - v <= y <= oy + v,
                    oz - h <= z <= oz + h + 1,
                    h == hori, v == vert, ox == center[0], oy == center[1], oz == center[2],
                    hh == hori * hori,
                    i32::MIN <= ox - h, ox + h <= i32::MAX,
                    i32::MIN <= oy - v, oy + v <= i32::MAX,
                    i32::MIN <= oz - h, oz + h <= i32::MAX,
                    forall|p: ChunkCoords| out@.contains(p) <==> (in_render(p, center, hori, vert) && coords_before(p, (x as int, y as int, z as int))),
                    forall|i: int, j: int| 0 <= i < j < out@.len() ==> coords_before(out@[i], (out@[j][0] as int, out@[j][1] as int, out@[j][2] as int)),
                    forall|i: int| 0 <= i < out@.len() ==> coords_before(out@[i], (x as int, y as int, z as int)),
                decreases oz + h + 1 - z,
            {
                let dx = (x - ox) as i128;
                let dz = (z - oz) as i128;
                assert(0 <= dx * dx <= 0x1_0000_0000_0000_0000 && 0 <= dz * dz <= 0x1_0000_0000_0000_0000) by (nonlinear_arith)
                    requires
                        -0xffff_ffff <= dx <= 0xffff_ffff,
                        -0xffff_ffff <= dz <= 0xffff_ffff,
                ;
                let p: ChunkCoords = [x as i32, y as i32, z as i32];
                let ghost before = out@;
                if dx * dx + dz * dz <= hh {
                    out.push(p);
                }
                proof {
                    assert forall|q: ChunkCoords| out@.contains(q) <==> (in_render(q, center, hori, vert) && coords_before(q, (x as int, y as int, z + 1))) by {
                        if out@.contains(q) && !before.contains(q) {
                            let k = choose|k: int| 0 <= k < out@.len() && out@[k] == q;
                            assert(k == before.len());
                            assert(q == p);
                        }
                        if in_render(q, center, hori, vert) && coords_before(q, (x as int, y as int, z + 1)) {
                            if q[0] == x && q[1] == y && q[2] == z {
                                assert(q =~= p);
                                assert(out@[out@.len() - 1] == p);
                            } else {
                                assert(before.contains(q));
                                let k = choose|k: int| 0 <= k < before.len() && before[k] == q;
                                assert(out@[k] == q);
                            }
                        }
                        if before.contains(q) {
                            let k = choose|k: int| 0 <= k < before.len() && before[k] == q;
                            assert(out@[k] == q);
                        }
                    }
                }
                z = z + 1;
            }
            proof {
                assert forall|q: ChunkCoords| in_render(q, center, hori, vert) && coords_before(q, (x as int, y + 1, i32::MIN as int))
                    implies coords_before(q, (x as int, y as int, z as int)) by {
                    lemma_in_render_bounds(q, center, hori, vert);
                }
            }
            y = y + 1;
        }
        proof {
            assert forall|q: ChunkCoords| in_render(q, center, hori, vert) && coords_before(q, (x + 1, i32::MIN as int, i32::MIN as int))
                implies coords_before(q, (x as int, y as int, i32::MIN as int)) by {
            }
        }
        x = x + 1;
    }
    proof {
        assert forall|q: ChunkCoords| in_render(q, center, hori, vert)
            implies coords_before(q, (x as int, i32::MIN as int, i32::MIN as int)) by {
            lemma_in_render_bounds(q, center, hori, vert);
        }
        assert forall|i: int, j: int| 0 <= i < out@.len() && 0 <= j < out@.len() && i != j
            implies out@[i] != out@[j] by {
            if i < j {
                assert(coords_before(out@[i], (out@[j][0] as int, out@[j][1] as int, out@[j][2] as int)));
            } else {
                assert(coords_before(out@[j], (out@[i][0] as int, out@[i][1] as int, out@[i][2] as int)));
            }
        }
    }
    out
}

} // verus!
