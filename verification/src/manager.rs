//! Active-tile-set bookkeeping.
//!
//! On a viewpoint change (edge triggered, never polled) the manager
//! computes the tile coordinates the new viewpoint needs, diffs them
//! against the currently active set, retires every active tile that is
//! no longer needed, and reports the newly needed coordinates so that
//! fetch, decode and build work can be started for them.
//!
//! Two tile-set shapes exist.  Region mode needs an `N` by `N` block
//! anchored at the tile containing the viewpoint, `N` the number of
//! zoom levels above the mode's minimum zoom (clipped to the tile grid
//! at the map edge).  Globe mode needs the fixed radius-2 ring around a
//! center tile, wrapped modulo the grid; on any center or zoom change
//! it tears the whole ring down and rebuilds it rather than diffing —
//! a deliberate, documented simplicity, not an optimization target.
//!
//! Work runs to completion off the control loop and is never cancelled:
//! when a unit reports back, its result is kept only if the viewpoint
//! it was started for — zoom and position — is still current, and is
//! discarded silently otherwise.

use vstd::prelude::*;

verus! {

use vstd::seq_lib::lemma_seq_contains_after_push;
use vstd::arithmetic::power2::pow2;
use vstd::arithmetic::power2::lemma_pow2_pos;
use crate::coords::TileCoordinate;
use crate::coords::MercatorPoint;
use crate::coords::MAX_ZOOM;
use crate::coords::deg2num;

/// Lowest zoom level the region viewer shows; the block edge is the
/// number of zoom levels above this.
pub const REGION_MIN_ZOOM: u32 = 9;

/// A viewpoint: where the user looks and how deep.
#[derive(Clone, Copy, Debug, PartialEq, Eq, Structural, Hash)]
pub struct Viewpoint {
    pub pos: MercatorPoint,
    pub zoom: u32,
}

impl Viewpoint {
    /// The position is on the map and the zoom is supported.
    pub open spec fn wf(self) -> bool {
        self.pos.wf() && self.zoom <= MAX_ZOOM
    }
}

/// One unit of completed tile work: which tile of which viewpoint it
/// was built for, and the cached rasters it used.
#[derive(Clone, Debug)]
pub struct TileInfo {
    /// Viewpoint position the work was started for.
    pub base: MercatorPoint,
    /// Column offset inside the region block.
    pub x_offset: u32,
    /// Row offset inside the region block.
    pub y_offset: u32,
    /// Zoom the work was started for.
    pub z: u32,
    /// Cached elevation raster path.
    pub topo_filename: String,
    /// Cached imagery path.
    pub image_filename: String,
}

/// Edge length of the region block at `zoom`: one zoom level above the
/// minimum needs a single tile, each further level one more per axis,
/// and at or below the minimum nothing is shown.
pub open spec fn spec_block_edge(zoom: int, min_zoom: int) -> int {
    if zoom > min_zoom {
        zoom - min_zoom
    } else {
        0
    }
}

/// Whether tile `t` belongs to the `n` by `n` block anchored at `a`
/// (clipped to the tile grid).
pub open spec fn in_block(a: TileCoordinate, n: int, t: TileCoordinate) -> bool {
    &&& t.z == a.z
    &&& a.x <= t.x < a.x + n
    &&& a.y <= t.y < a.y + n
    &&& t.wf()
}

/// The tile coordinates the region viewer needs for `vp`: the block of
/// edge `zoom - min_zoom` anchored at the tile containing the
/// viewpoint, without duplicates.  At or below `min_zoom` no tile is
/// needed.
pub fn region_tiles(vp: Viewpoint, min_zoom: u32) -> (out: Vec<TileCoordinate>)
    requires
        vp.wf(),
    ensures
        forall|t: TileCoordinate| #[trigger]
            out@.contains(t) <==> in_block(
                deg2num_spec_tile(vp),
                spec_block_edge(vp.zoom as int, min_zoom as int),
                t,
            ),
        forall|k1: int, k2: int| 0 <= k1 < k2 < out@.len() ==> out@[k1] != out@[k2],
        forall|k: int| 0 <= k < out@.len() ==> #[trigger] out@[k].wf(),
        (deg2num_spec_tile(vp).x + spec_block_edge(vp.zoom as int, min_zoom as int) <= pow2(
            vp.zoom as nat,
        ) && deg2num_spec_tile(vp).y + spec_block_edge(vp.zoom as int, min_zoom as int) <= pow2(
            vp.zoom as nat,
        )) ==> out@.len() == spec_block_edge(vp.zoom as int, min_zoom as int) * spec_block_edge(
            vp.zoom as int,
            min_zoom as int,
        ),
{
    let mut out: Vec<TileCoordinate> = Vec::new();
    if vp.zoom <= min_zoom {
        return out;
    }
    let n = vp.zoom - min_zoom;
    let anchor = deg2num(vp.pos, vp.zoom);
    let ghost a = anchor;
    let edge = crate::coords::tiles_per_axis(vp.zoom);
    proof {
        lemma_pow2_pos(vp.zoom as nat);
        if (vp.zoom as nat) < 28 {
            vstd::arithmetic::power2::lemma_pow2_strictly_increases(vp.zoom as nat, 28);
        }
        vstd::arithmetic::power2::lemma2_to64();
    }
    let mut i: u32 = 0;
    while i < n
        invariant
            anchor.wf(),
            a == anchor,
            edge == pow2(anchor.z as nat),
            edge <= 0x1000_0000,
            i <= n,
            n <= 32,
            forall|t: TileCoordinate| #[trigger]
                out@.contains(t) <==> (in_block(a, n as int, t) && t.x - a.x < i),
            forall|k1: int, k2: int| 0 <= k1 < k2 < out@.len() ==> out@[k1] != out@[k2],
            forall|k: int| 0 <= k < out@.len() ==> #[trigger] out@[k].wf(),
            (a.x + n <= pow2(a.z as nat) && a.y + n <= pow2(a.z as nat)) ==> out@.len() == i * n,
        decreases n - i,
    {
        let mut j: u32 = 0;
        while j < n
            invariant
                anchor.wf(),
                a == anchor,
                edge == pow2(anchor.z as nat),
                edge <= 0x1000_0000,
                i < n,
                j <= n,
                n <= 32,
                forall|t: TileCoordinate| #[trigger]
                    out@.contains(t) <==> (in_block(a, n as int, t) && (t.x - a.x < i || (t.x - a.x
                        == i && t.y - a.y < j))),
                forall|k1: int, k2: int| 0 <= k1 < k2 < out@.len() ==> out@[k1] != out@[k2],
                forall|k: int| 0 <= k < out@.len() ==> #[trigger] out@[k].wf(),
                (a.x + n <= pow2(a.z as nat) && a.y + n <= pow2(a.z as nat)) ==> out@.len() == i * n
                    + j,
            decreases n - j,
        {
            if (anchor.x as u64) + (i as u64) < edge && (anchor.y as u64) + (j as u64) < edge {
                let t = TileCoordinate { x: anchor.x + i, y: anchor.y + j, z: anchor.z };
                let ghost before = out@;
                proof {
                    assert(!before.contains(t));
                }
                out.push(t);
                proof {
                    assert forall|t2: TileCoordinate| #[trigger] out@.contains(t2) <==> (in_block(
                        a,
                        n as int,
                        t2,
                    ) && (t2.x - a.x < i || (t2.x - a.x == i && t2.y - a.y < j + 1))) by {
                        lemma_seq_contains_after_push(before, t, t2);
                    }
                }
            }
            j = j + 1;
        }
        i = i + 1;
        proof {
            assert((i - 1) * n + n == i * n) by (nonlinear_arith);
        }
    }
    out
}

/// The anchor tile of a viewpoint: the tile containing it.
pub open spec fn deg2num_spec_tile(vp: Viewpoint) -> TileCoordinate {
    (TileCoordinate {
        x: crate::coords::xtile_of(vp.pos.lon_micro as int, vp.zoom as nat) as u32,
        y: crate::coords::ytile_of(vp.pos.merc_y as int, vp.zoom as nat) as u32,
        z: vp.zoom,
    })
}

/// Whether `v` occurs in `tiles`.
pub fn contains_tile(tiles: &Vec<TileCoordinate>, t: TileCoordinate) -> (r: bool)
    ensures
        r == tiles@.contains(t),
{
    let mut i: usize = 0;
    while i < tiles.len()
        invariant
            i <= tiles@.len(),
            forall|k: int| 0 <= k < i ==> tiles@[k] != t,
        decreases tiles@.len() - i,
    {
        if tiles[i] == t {
            return true;
        }
        i = i + 1;
    }
    false
}

/// The tiles of `from` that do not occur in `minus`: retiring is
/// `diff(active, needed)`, enqueueing is `diff(needed, active)`.
pub fn diff_tiles(from: &Vec<TileCoordinate>, minus: &Vec<TileCoordinate>) -> (out: Vec<
    TileCoordinate,
>)
    ensures
        forall|t: TileCoordinate| #[trigger]
            out@.contains(t) <==> (from@.contains(t) && !minus@.contains(t)),
        forall|k: int| 0 <= k < out@.len() ==> minus@.contains(#[trigger] out@[k]) == false,
        (forall|k1: int, k2: int| 0 <= k1 < k2 < from@.len() ==> from@[k1] != from@[k2])
            ==> forall|k1: int, k2: int| 0 <= k1 < k2 < out@.len() ==> out@[k1] != out@[k2],
{
    let ghost from_distinct = forall|k1: int, k2: int|
        0 <= k1 < k2 < from@.len() ==> from@[k1] != from@[k2];
    let mut out: Vec<TileCoordinate> = Vec::new();
    let mut i: usize = 0;
    while i < from.len()
        invariant
            i <= from@.len(),
            from_distinct == (forall|k1: int, k2: int|
                0 <= k1 < k2 < from@.len() ==> from@[k1] != from@[k2]),
            forall|t: TileCoordinate| #[trigger]
                out@.contains(t) <==> (from@.subrange(0, i as int).contains(t) && !minus@.contains(
                    t,
                )),
            forall|k: int| 0 <= k < out@.len() ==> minus@.contains(#[trigger] out@[k]) == false,
            from_distinct ==> forall|k1: int, k2: int|
                0 <= k1 < k2 < out@.len() ==> out@[k1] != out@[k2],
        decreases from@.len() - i,
    {
        let t = from[i];
        proof {
            assert(from@.subrange(0, i + 1).drop_last() =~= from@.subrange(0, i as int));
            assert(from@.subrange(0, i + 1).last() == from@[i as int]);
        }
        if !contains_tile(minus, t) {
            let ghost before = out@;
            proof {
                if from_distinct {
                    if before.contains(t) {
                        assert(from@.subrange(0, i as int).contains(t));
                        let k = choose|k: int|
                            0 <= k < i && from@.subrange(0, i as int)[k] == t;
                        assert(from@[k] == t && from@[i as int] == t);
                    }
                    assert(!before.contains(t));
                }
            }
            out.push(t);
            proof {
                assert forall|t2: TileCoordinate| #[trigger] out@.contains(t2) <==> (from@.subrange(
                    0,
                    i + 1,
                ).contains(t2) && !minus@.contains(t2)) by {
                    lemma_seq_contains_after_push(before, t, t2);
                    lemma_contains_in_extended(from@, i as int, t2);
                }
            }
        } else {
            proof {
                assert forall|t2: TileCoordinate| #[trigger] out@.contains(t2) <==> (from@.subrange(
                    0,
                    i + 1,
                ).contains(t2) && !minus@.contains(t2)) by {
                    lemma_contains_in_extended(from@, i as int, t2);
                }
            }
        }
        i = i + 1;
    }
    proof {
        assert(from@.subrange(0, from@.len() as int) =~= from@);
    }
    out
}

/// Extending a prefix by one element extends what it contains by
/// exactly that element.
proof fn lemma_contains_in_extended(s: Seq<TileCoordinate>, i: int, t: TileCoordinate)
    requires
        0 <= i < s.len(),
    ensures
        s.subrange(0, i + 1).contains(t) <==> (s.subrange(0, i).contains(t) || s[i] == t),
{
    let pre = s.subrange(0, i);
    let ext = s.subrange(0, i + 1);
    assert(ext.drop_last() =~= pre);
    assert(ext.last() == s[i]);
    if ext.contains(t) {
        let k = choose|k: int| 0 <= k < ext.len() && ext[k] == t;
        if k < i {
            assert(pre[k] == t);
        }
    }
    if pre.contains(t) {
        let k = choose|k: int| 0 <= k < pre.len() && pre[k] == t;
        assert(ext[k] == t);
    }
    if s[i] == t {
        assert(ext[i] == t);
    }
}

/// A camera state of the globe viewer, reduced to the tile it centers.
#[derive(Clone, Copy, Debug, PartialEq, Eq, Structural, Hash)]
pub struct GlobeView {
    pub tile_x: u32,
    pub tile_y: u32,
    pub zoom: u32,
}

/// Globe mode rebuilds the whole visible ring exactly when the center
/// tile or the zoom changed; nothing is diffed incrementally.
pub fn globe_needs_rebuild(current: GlobeView, new_view: GlobeView) -> (r: bool)
    ensures
        r == (current != new_view),
{
    current.tile_x != new_view.tile_x || current.tile_y != new_view.tile_y || current.zoom
        != new_view.zoom
}

/// `v` wrapped into `[0, n)`, the euclidean remainder.
pub open spec fn spec_wrap(v: int, n: int) -> int {
    v % n
}

/// The `k`-th tile of the radius-2 ring around `(cx, cy)`: offsets
/// `-2..=2` on both axes in row-major order, wrapped modulo the grid.
pub open spec fn spec_ring_tile(cx: int, cy: int, z: nat, k: int) -> TileCoordinate {
    (TileCoordinate {
        x: spec_wrap(cx + k / 5 - 2, pow2(z) as int) as u32,
        y: spec_wrap(cy + k % 5 - 2, pow2(z) as int) as u32,
        z: z as u32,
    })
}

/// The fixed radius-2 neighborhood of the center tile, wrapped modulo
/// the grid: always 25 entries, with duplicates at very low zoom,
/// where the ring wraps onto itself.
pub fn globe_ring(center: TileCoordinate) -> (out: Vec<TileCoordinate>)
    requires
        center.wf(),
    ensures
        out@.len() == 25,
        forall|k: int|
            0 <= k < 25 ==> #[trigger] out@[k] == spec_ring_tile(
                center.x as int,
                center.y as int,
                center.z as nat,
                k,
            ),
        forall|k: int| 0 <= k < 25 ==> #[trigger] out@[k].wf(),
{
    let n = crate::coords::tiles_per_axis(center.z);
    proof {
        lemma_pow2_pos(center.z as nat);
        if (center.z as nat) < 28 {
            vstd::arithmetic::power2::lemma_pow2_strictly_increases(center.z as nat, 28);
        }
        vstd::arithmetic::power2::lemma2_to64();
    }
    let mut out: Vec<TileCoordinate> = Vec::new();
    let mut dx: u32 = 0;
    while dx < 5
        invariant
            center.wf(),
            n == pow2(center.z as nat),
            1 <= n <= 0x1_0000_0000,
            dx <= 5,
            out@.len() == dx * 5,
            forall|k: int|
                0 <= k < out@.len() ==> #[trigger] out@[k] == spec_ring_tile(
                    center.x as int,
                    center.y as int,
                    center.z as nat,
                    k,
                ),
            forall|k: int| 0 <= k < out@.len() ==> #[trigger] out@[k].wf(),
        decreases 5 - dx,
    {
        let mut dy: u32 = 0;
        while dy < 5
            invariant
                center.wf(),
                n == pow2(center.z as nat),
                1 <= n <= 0x1_0000_0000,
                dx < 5,
                dy <= 5,
                out@.len() == dx * 5 + dy,
                forall|k: int|
                    0 <= k < out@.len() ==> #[trigger] out@[k] == spec_ring_tile(
                        center.x as int,
                        center.y as int,
                        center.z as nat,
                        k,
                    ),
                forall|k: int| 0 <= k < out@.len() ==> #[trigger] out@[k].wf(),
            decreases 5 - dy,
        {
            let wx: u64 = ((center.x as u64) + (dx as u64) + 2 * n - 2) % n;
            let wy: u64 = ((center.y as u64) + (dy as u64) + 2 * n - 2) % n;
            let ghost k = (dx * 5 + dy) as int;
            proof {
                vstd::arithmetic::div_mod::lemma_fundamental_div_mod_converse_div(
                    k,
                    5,
                    dx as int,
                    dy as int,
                );
                vstd::arithmetic::div_mod::lemma_fundamental_div_mod_converse_mod(
                    k,
                    5,
                    dx as int,
                    dy as int,
                );
                lemma_wrap_shifted(center.x as int, dx as int, n as int);
                lemma_wrap_shifted(center.y as int, dy as int, n as int);
                vstd::arithmetic::div_mod::lemma_mod_division_less_than_divisor(
                    (center.x as u64 + dx as u64 + 2 * n - 2) as int,
                    n as int,
                );
                vstd::arithmetic::div_mod::lemma_mod_division_less_than_divisor(
                    (center.y as u64 + dy as u64 + 2 * n - 2) as int,
                    n as int,
                );
            }
            let t = TileCoordinate { x: wx as u32, y: wy as u32, z: center.z };
            out.push(t);
            dy = dy + 1;
        }
        dx = dx + 1;
    }
    out
}

/// Adding twice the modulus before wrapping does not change the
/// remainder: the shifted non-negative form computes the euclidean wrap
/// of the possibly negative offset.
proof fn lemma_wrap_shifted(c: int, d: int, n: int)
    requires
        0 < n,
    ensures
        (c + d + 2 * n - 2) % n == spec_wrap(c + d - 2, n),
{
    vstd::arithmetic::div_mod::lemma_mod_add_multiples_vanish((c + d - 2) + n, n);
    vstd::arithmetic::div_mod::lemma_mod_add_multiples_vanish(c + d - 2, n);
}

/// An active tile is retired when its viewpoint no longer matches:
/// other zoom, or other viewpoint position.
pub fn tile_is_stale(info: &TileInfo, vp: Viewpoint) -> (r: bool)
    ensures
        r == (info.z != vp.zoom || info.base != vp.pos),
{
    info.z != vp.zoom || info.base != vp.pos
}

/// A completed unit of work is kept exactly when the viewpoint it was
/// started for is still current, zoom and position both; a stale
/// result is discarded silently, never cancelled early.
pub fn keep_completed(info: &TileInfo, vp: Viewpoint) -> (r: bool)
    ensures
        r == (info.z == vp.zoom && info.base == vp.pos),
{
    info.z == vp.zoom && info.base == vp.pos
}

} // verus!
