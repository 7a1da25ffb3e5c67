//! Heightmap-to-mesh conversion.
//!
//! All geometry is integer fixed point: a coordinate of 1.0 is the
//! integer `MILLI` (1000), and texture coordinates scale 1.0 to
//! `UV_ONE` (1_000_000).  The height scale and the scale factor are
//! given in thousandths.  For each grid vertex:
//!
//! - `height = (sample - min) * 256 * height_scale / (max - min)`,
//!   with the factor defined as zero when `max == min`, so a flat grid
//!   yields an all-zero relief and no division by zero ever happens;
//! - four neighbor vectors point one unit along +x, -x, +y and -y, each
//!   carrying the neighbor's raw sample times the height scale as its
//!   vertical component; at grid edges (the first two and the last
//!   columns and rows) zero is substituted instead of reading out of
//!   bounds;
//! - the normal is the average of `cross(target->top, target->right)`
//!   and `cross(target->bottom, target->left)`, deliberately not
//!   renormalized to unit length;
//! - `position = (x, height, y) * scale_factor` and `uv = (x / width,
//!   y / length)`.
//!
//! The triangulation is fixed: two triangles per grid quad, in the
//! winding (NW, SW, NE) then (NE, SW, SE), indices row major with
//! stride `width`.

use vstd::prelude::*;

verus! {

use crate::grid::HeightGrid;
use crate::grid::MAX_GRID_DIM;
use crate::grid::lemma_min_le_all;
use crate::grid::lemma_max_ge_all;
use crate::grid::lemma_grid_index_in_bounds;
use vstd::arithmetic::div_mod::lemma_fundamental_div_mod_converse_div;
use vstd::arithmetic::div_mod::lemma_fundamental_div_mod_converse_mod;
use vstd::arithmetic::div_mod::lemma_multiply_divide_le;
use vstd::arithmetic::mul::lemma_mul_inequality;

/// Fixed-point unit of geometry: 1.0 is represented as 1000.
pub const MILLI: i64 = 1000;

/// Fixed-point unit of texture coordinates: 1.0 is represented as 1_000_000.
pub const UV_ONE: i64 = 1_000_000;

/// Largest accepted height scale, in thousandths (a factor of 1000.0).
pub const MAX_HEIGHT_SCALE: u32 = 1_000_000;

/// Largest accepted scale factor, in thousandths (a factor of 1000.0).
pub const MAX_SCALE_FACTOR: u32 = 1_000_000;

/// How a height grid is turned into a mesh: the grid dimensions the
/// mesh must cover and the vertical exaggeration in thousandths.
#[derive(Clone, Copy, Debug, PartialEq, Eq, Structural)]
pub struct TerrainMeshOptions {
    /// Columns of the vertex grid.
    pub width: u32,
    /// Rows of the vertex grid.
    pub length: u32,
    /// Vertical exaggeration in thousandths: 100 is a factor of 0.1.
    pub height_scale: u32,
}

/// An integer fixed-point 3-vector; 1.0 is `MILLI`.
#[derive(Clone, Copy, Debug, PartialEq, Eq, Structural, Hash)]
pub struct Vec3I {
    pub x: i64,
    pub y: i64,
    pub z: i64,
}

/// An integer fixed-point texture coordinate; 1.0 is `UV_ONE`.
#[derive(Clone, Copy, Debug, PartialEq, Eq, Structural, Hash)]
pub struct UvI {
    pub u: i64,
    pub v: i64,
}

/// One mesh vertex: position, (un-normalized) normal, texture coordinate.
#[derive(Clone, Copy, Debug, PartialEq, Eq, Structural)]
pub struct VertexData {
    pub position: Vec3I,
    pub normal: Vec3I,
    pub uv: UvI,
}

/// Scaled relief height of the vertex at `(x, y)`:
/// `(sample - min) * 256 * height_scale / (max - min)`, or zero on a
/// flat grid.
pub open spec fn spec_height_milli(g: HeightGrid, hs: int, x: int, y: int) -> int {
    if g.max > g.min {
        ((g.sample_at(x, y) - g.min) * 256 * hs) / (g.max - g.min)
    } else {
        0
    }
}

/// Vertical component a neighbor contributes: its raw sample times the
/// height scale (in thousandths, so the result is in `MILLI` units).
pub open spec fn spec_up(g: HeightGrid, hs: int, x: int, y: int) -> int {
    g.sample_at(x, y) * hs
}

/// Vertical component of the +x neighbor, zero at the east edge.
pub open spec fn spec_right_up(g: HeightGrid, hs: int, x: int, y: int) -> int {
    if x >= g.width - 1 {
        0
    } else {
        spec_up(g, hs, x + 1, y)
    }
}

/// Vertical component of the -x neighbor, zero on the two west columns.
pub open spec fn spec_left_up(g: HeightGrid, hs: int, x: int, y: int) -> int {
    if x <= 1 {
        0
    } else {
        spec_up(g, hs, x - 1, y)
    }
}

/// Vertical component of the +y neighbor, zero at the south edge.
pub open spec fn spec_top_up(g: HeightGrid, hs: int, x: int, y: int) -> int {
    if y >= g.length - 1 {
        0
    } else {
        spec_up(g, hs, x, y + 1)
    }
}

/// Vertical component of the -y neighbor, zero on the two north rows.
pub open spec fn spec_bottom_up(g: HeightGrid, hs: int, x: int, y: int) -> int {
    if y <= 1 {
        0
    } else {
        spec_up(g, hs, x, y - 1)
    }
}

/// Cross product of two 3-vectors.
pub open spec fn spec_cross(
    a: (int, int, int),
    b: (int, int, int),
) -> (int, int, int) {
    (a.1 * b.2 - a.2 * b.1, a.2 * b.0 - a.0 * b.2, a.0 * b.1 - a.1 * b.0)
}

/// Componentwise difference `a - b`.
pub open spec fn spec_sub3(a: (int, int, int), b: (int, int, int)) -> (int, int, int) {
    (a.0 - b.0, a.1 - b.1, a.2 - b.2)
}

/// The vertex normal: average of the two corner cross products, not
/// renormalized.
pub open spec fn spec_vertex_normal(g: HeightGrid, hs: int, x: int, y: int) -> (int, int, int) {
    let h = spec_height_milli(g, hs, x, y);
    let target = (0int, h, 0int);
    let right = (MILLI as int, spec_right_up(g, hs, x, y), 0int);
    let left = (-(MILLI as int), spec_left_up(g, hs, x, y), 0int);
    let top = (0int, spec_top_up(g, hs, x, y), MILLI as int);
    let bottom = (0int, spec_bottom_up(g, hs, x, y), -(MILLI as int));
    let n1 = spec_cross(spec_sub3(top, target), spec_sub3(right, target));
    let n2 = spec_cross(spec_sub3(bottom, target), spec_sub3(left, target));
    ((n1.0 + n2.0) / 2, (n1.1 + n2.1) / 2, (n1.2 + n2.2) / 2)
}

/// The vertex position: `(x, height, y)` scaled by the scale factor in
/// thousandths (`x * sf` is exact; the vertical component is floored).
pub open spec fn spec_position(g: HeightGrid, hs: int, sf: int, x: int, y: int) -> (int, int, int) {
    (x * sf, (spec_height_milli(g, hs, x, y) * sf) / (MILLI as int), y * sf)
}

/// The vertex texture coordinate: `(x / width, y / length)` in `UV_ONE`
/// units, floored.
pub open spec fn spec_uv(g: HeightGrid, x: int, y: int) -> (int, int) {
    ((x * UV_ONE) / (g.width as int), (y * UV_ONE) / (g.length as int))
}

/// The vertex at flat index `j` of the row-major vertex buffer.
pub open spec fn spec_vertex_at(g: HeightGrid, hs: int, sf: int, j: int) -> VertexData {
    spec_vertex(g, hs, sf, j % (g.width as int), j / (g.width as int))
}

/// All three attributes of the vertex at `(x, y)`, as a `VertexData`
/// whose fixed-point fields hold the spec values.
pub open spec fn spec_vertex(g: HeightGrid, hs: int, sf: int, x: int, y: int) -> VertexData {
    (VertexData {
        position: (Vec3I {
            x: spec_position(g, hs, sf, x, y).0 as i64,
            y: spec_position(g, hs, sf, x, y).1 as i64,
            z: spec_position(g, hs, sf, x, y).2 as i64,
        }),
        normal: (Vec3I {
            x: spec_vertex_normal(g, hs, x, y).0 as i64,
            y: spec_vertex_normal(g, hs, x, y).1 as i64,
            z: spec_vertex_normal(g, hs, x, y).2 as i64,
        }),
        uv: (UvI { u: spec_uv(g, x, y).0 as i64, v: spec_uv(g, x, y).1 as i64 }),
    })
}

/// Floor division by two, for possibly negative sums.
fn half_floor(v: i64) -> (r: i64)
    requires
        i64::MIN < v,
    ensures
        r == (v as int) / 2,
{
    if v >= 0 {
        ((v as u64) / 2) as i64
    } else {
        let m: u64 = (-v) as u64;
        let q: u64 = (m + 1) / 2;
        proof {
            vstd::arithmetic::div_mod::lemma_fundamental_div_mod((m + 1) as int, 2);
            lemma_fundamental_div_mod_converse_div(
                -(m as int),
                2,
                -(q as int),
                1 - ((m + 1) as int % 2),
            );
        }
        -(q as i64)
    }
}

/// Cross product.  The bounds keep every product inside `i64`: the
/// horizontal components are unit steps, the vertical components carry
/// scaled samples.
fn cross(a: Vec3I, b: Vec3I) -> (r: Vec3I)
    requires
        -2000 <= a.x <= 2000,
        -2000 <= a.z <= 2000,
        -2000 <= b.x <= 2000,
        -2000 <= b.z <= 2000,
        -0x4000_0000_0000 <= a.y <= 0x4000_0000_0000,
        -0x4000_0000_0000 <= b.y <= 0x4000_0000_0000,
    ensures
        (r.x as int, r.y as int, r.z as int) == spec_cross(
            (a.x as int, a.y as int, a.z as int),
            (b.x as int, b.y as int, b.z as int),
        ),
        -0x0800_0000_0000_0000 <= r.x <= 0x0800_0000_0000_0000,
        -0x0800_0000_0000_0000 <= r.y <= 0x0800_0000_0000_0000,
        -0x0800_0000_0000_0000 <= r.z <= 0x0800_0000_0000_0000,
{
    proof {
        assert(-0x0400_0000_0000_0000 < (a.y as int) * (b.z as int) < 0x0400_0000_0000_0000
            && -0x0400_0000_0000_0000 < (a.z as int) * (b.y as int) < 0x0400_0000_0000_0000
            && -0x0400_0000_0000_0000 < (a.z as int) * (b.x as int) < 0x0400_0000_0000_0000
            && -0x0400_0000_0000_0000 < (a.x as int) * (b.z as int) < 0x0400_0000_0000_0000
            && -0x0400_0000_0000_0000 < (a.x as int) * (b.y as int) < 0x0400_0000_0000_0000
            && -0x0400_0000_0000_0000 < (a.y as int) * (b.x as int) < 0x0400_0000_0000_0000)
            by (nonlinear_arith)
            requires
                -2000 <= a.x <= 2000,
                -2000 <= a.z <= 2000,
                -2000 <= b.x <= 2000,
                -2000 <= b.z <= 2000,
                -0x4000_0000_0000 <= a.y <= 0x4000_0000_0000,
                -0x4000_0000_0000 <= b.y <= 0x4000_0000_0000,
        ;
    }
    let nx = a.y * b.z - a.z * b.y;
    let ny = a.z * b.x - a.x * b.z;
    let nz = a.x * b.y - a.y * b.x;
    Vec3I { x: nx, y: ny, z: nz }
}

/// Normal of the triangle corner `v1` with edges toward `v2` and `v3`:
/// `cross(v2 - v1, v3 - v1)`.
fn get_normal(v1: Vec3I, v2: Vec3I, v3: Vec3I) -> (r: Vec3I)
    requires
        -1000 <= v1.x <= 1000,
        -1000 <= v1.z <= 1000,
        -1000 <= v2.x <= 1000,
        -1000 <= v2.z <= 1000,
        -1000 <= v3.x <= 1000,
        -1000 <= v3.z <= 1000,
        -0x2000_0000_0000 <= v1.y <= 0x2000_0000_0000,
        -0x2000_0000_0000 <= v2.y <= 0x2000_0000_0000,
        -0x2000_0000_0000 <= v3.y <= 0x2000_0000_0000,
    ensures
        (r.x as int, r.y as int, r.z as int) == spec_cross(
            spec_sub3(
                (v2.x as int, v2.y as int, v2.z as int),
                (v1.x as int, v1.y as int, v1.z as int),
            ),
            spec_sub3(
                (v3.x as int, v3.y as int, v3.z as int),
                (v1.x as int, v1.y as int, v1.z as int),
            ),
        ),
        -0x0800_0000_0000_0000 <= r.x <= 0x0800_0000_0000_0000,
        -0x0800_0000_0000_0000 <= r.y <= 0x0800_0000_0000_0000,
        -0x0800_0000_0000_0000 <= r.z <= 0x0800_0000_0000_0000,
{
    let a = Vec3I { x: v2.x - v1.x, y: v2.y - v1.y, z: v2.z - v1.z };
    let b = Vec3I { x: v3.x - v1.x, y: v3.y - v1.y, z: v3.z - v1.z };
    cross(a, b)
}

/// Raw sample at `(x, y)` times the height scale.
fn scaled_sample(g: &HeightGrid, hs: u32, x: usize, y: usize) -> (r: i64)
    requires
        g.wf(),
        hs <= MAX_HEIGHT_SCALE,
        x < g.width,
        y < g.length,
    ensures
        r == spec_up(*g, hs as int, x as int, y as int),
        -0x2000_0000_0000 <= r <= 0x2000_0000_0000,
{
    proof {
        lemma_grid_index_in_bounds(*g, x as int, y as int);
    }
    let s = g.samples[x + y * g.width];
    proof {
        assert(-0x2000_0000_0000 <= (s as int) * (hs as int) <= 0x2000_0000_0000)
            by (nonlinear_arith)
            requires
                -10_000_000 <= s <= 10_000_000,
                0 <= hs <= 1_000_000,
        ;
    }
    s * (hs as i64)
}

/// Relief height and normal of the vertex at `(x, y)`.
pub fn sample_heightmap(g: &HeightGrid, hs: u32, x: usize, y: usize) -> (r: (i64, Vec3I))
    requires
        g.wf(),
        hs <= MAX_HEIGHT_SCALE,
        x < g.width,
        y < g.length,
    ensures
        r.0 == spec_height_milli(*g, hs as int, x as int, y as int),
        0 <= r.0 <= 256 * MAX_HEIGHT_SCALE,
        (r.1.x as int, r.1.y as int, r.1.z as int) == spec_vertex_normal(
            *g,
            hs as int,
            x as int,
            y as int,
        ),
{
    proof {
        lemma_grid_index_in_bounds(*g, x as int, y as int);
        lemma_min_le_all(g.samples@);
        lemma_max_ge_all(g.samples@);
        crate::grid::lemma_extrema_bounded(g.samples@);
    }
    let s = g.samples[x + y * g.width];
    let height: i64 = if g.max > g.min {
        let diff: u64 = (s - g.min) as u64;
        proof {
            assert((diff as int) * 256 * (hs as int) <= 0x2000_0000_0000_0000
                && (diff as int) * 256 * (hs as int) == (diff as int) * (256 * (hs as int)))
                by (nonlinear_arith)
                requires
                    0 <= diff <= 20_000_000,
                    0 <= hs <= 1_000_000,
            ;
        }
        let num: u64 = diff * 256 * (hs as u64);
        let den: u64 = (g.max - g.min) as u64;
        proof {
            lemma_mul_inequality(diff as int, (g.max - g.min) as int, 256 * (hs as int));
            assert((den as int) * (256 * (hs as int)) <= 0x2000_0000_0000_0000)
                by (nonlinear_arith)
                requires
                    0 < den <= 20_000_000,
                    0 <= hs <= 1_000_000,
            ;
            lemma_multiply_divide_le(num as int, den as int, 256 * (hs as int));
            vstd::arithmetic::div_mod::lemma_div_pos_is_pos(num as int, den as int);
            assert(256 * (hs as int) <= 256 * (MAX_HEIGHT_SCALE as int));
        }
        (num / den) as i64
    } else {
        0
    };

    let target = Vec3I { x: 0, y: height, z: 0 };
    let right_up: i64 = if x >= g.width - 1 {
        0
    } else {
        scaled_sample(g, hs, x + 1, y)
    };
    let left_up: i64 = if x <= 1 {
        0
    } else {
        scaled_sample(g, hs, x - 1, y)
    };
    let top_up: i64 = if y >= g.length - 1 {
        0
    } else {
        scaled_sample(g, hs, x, y + 1)
    };
    let bottom_up: i64 = if y <= 1 {
        0
    } else {
        scaled_sample(g, hs, x, y - 1)
    };
    let right = Vec3I { x: MILLI, y: right_up, z: 0 };
    let left = Vec3I { x: -MILLI, y: left_up, z: 0 };
    let top = Vec3I { x: 0, y: top_up, z: MILLI };
    let bottom = Vec3I { x: 0, y: bottom_up, z: -MILLI };

    let n1 = get_normal(target, top, right);
    let n2 = get_normal(target, bottom, left);
    let normal = Vec3I {
        x: half_floor(n1.x + n2.x),
        y: half_floor(n1.y + n2.y),
        z: half_floor(n1.z + n2.z),
    };
    (height, normal)
}

/// Build the row-major vertex buffer of the mesh: one `VertexData` per
/// grid sample, positions and relief from the fixed-point formulas
/// above.
pub fn mesh_from_heightmap(g: &HeightGrid, opts: &TerrainMeshOptions, scale_factor: u32) -> (out:
    Vec<VertexData>)
    requires
        g.wf(),
        opts.width == g.width,
        opts.length == g.length,
        opts.height_scale <= MAX_HEIGHT_SCALE,
        scale_factor <= MAX_SCALE_FACTOR,
    ensures
        out@.len() == g.width * g.length,
        forall|j: int|
            0 <= j < out@.len() ==> #[trigger] out@[j] == spec_vertex_at(
                *g,
                opts.height_scale as int,
                scale_factor as int,
                j,
            ),
        forall|x: int, y: int|
            0 <= x < g.width && 0 <= y < g.length ==> out@[x + y * g.width] == spec_vertex(
                *g,
                opts.height_scale as int,
                scale_factor as int,
                x,
                y,
            ),
{
    let w = g.width;
    let l = g.length;
    let hs = opts.height_scale;
    let mut out: Vec<VertexData> = Vec::new();
    let mut y: usize = 0;
    while y < l
        invariant
            g.wf(),
            w == g.width,
            l == g.length,
            hs <= MAX_HEIGHT_SCALE,
            scale_factor <= MAX_SCALE_FACTOR,
            y <= l,
            out@.len() == y * w,
            forall|j: int|
                0 <= j < out@.len() ==> out@[j] == spec_vertex_at(
                    *g,
                    hs as int,
                    scale_factor as int,
                    j,
                ),
        decreases l - y,
    {
        let mut x: usize = 0;
        while x < w
            invariant
                g.wf(),
                w == g.width,
                l == g.length,
                hs <= MAX_HEIGHT_SCALE,
                scale_factor <= MAX_SCALE_FACTOR,
                y < l,
                x <= w,
                out@.len() == y * w + x,
                forall|j: int|
                    0 <= j < out@.len() ==> out@[j] == spec_vertex_at(
                        *g,
                        hs as int,
                        scale_factor as int,
                        j,
                    ),
            decreases w - x,
        {
            proof {
                assert(y * w + x < w * l && y * w + x + w >= 0) by (nonlinear_arith)
                    requires
                        0 <= x < w,
                        0 <= y < l,
                ;
            }
            let (height, normal) = sample_heightmap(g, hs, x, y);
            proof {
                assert((x as int) * (scale_factor as int) <= 0x4_0000_0000
                    && (y as int) * (scale_factor as int) <= 0x4_0000_0000
                    && (x as int) * (UV_ONE as int) <= 0x4_0000_0000
                    && (y as int) * (UV_ONE as int) <= 0x4_0000_0000
                    && (height as int) * (scale_factor as int) <= 0x1_0000_0000_0000)
                    by (nonlinear_arith)
                    requires
                        0 <= x < w <= 4096,
                        0 <= y < l <= 4096,
                        0 <= scale_factor <= 1_000_000,
                        0 <= height <= 256_000_000,
                ;
                vstd::arithmetic::div_mod::lemma_div_nonincreasing(
                    ((height as int) * (scale_factor as int)),
                    MILLI as int,
                );
                vstd::arithmetic::div_mod::lemma_div_pos_is_pos(
                    ((height as int) * (scale_factor as int)),
                    MILLI as int,
                );
                vstd::arithmetic::div_mod::lemma_div_nonincreasing(
                    ((x as int) * (UV_ONE as int)),
                    w as int,
                );
                vstd::arithmetic::div_mod::lemma_div_pos_is_pos(
                    ((x as int) * (UV_ONE as int)),
                    w as int,
                );
                vstd::arithmetic::div_mod::lemma_div_nonincreasing(
                    ((y as int) * (UV_ONE as int)),
                    l as int,
                );
                vstd::arithmetic::div_mod::lemma_div_pos_is_pos(
                    ((y as int) * (UV_ONE as int)),
                    l as int,
                );
            }
            let px: i64 = (x as i64) * (scale_factor as i64);
            let py: i64 = (((height as u64) * (scale_factor as u64)) / (MILLI as u64)) as i64;
            let pz: i64 = (y as i64) * (scale_factor as i64);
            let u: i64 = (((x as u64) * (UV_ONE as u64)) / (w as u64)) as i64;
            let v: i64 = (((y as u64) * (UV_ONE as u64)) / (l as u64)) as i64;
            let vert = VertexData {
                position: Vec3I { x: px, y: py, z: pz },
                normal,
                uv: UvI { u, v },
            };
            proof {
                let j = (y * w + x) as int;
                lemma_fundamental_div_mod_converse_div(j, w as int, y as int, x as int);
                lemma_fundamental_div_mod_converse_mod(j, w as int, y as int, x as int);
                assert(spec_vertex_at(*g, hs as int, scale_factor as int, j) == spec_vertex(
                    *g,
                    hs as int,
                    scale_factor as int,
                    x as int,
                    y as int,
                ));
            }
            out.push(vert);
            x = x + 1;
        }
        y = y + 1;
        proof {
            assert((y - 1) * w + w == y * w) by (nonlinear_arith);
        }
    }
    proof {
        assert(out@.len() == g.width * g.length) by (nonlinear_arith)
            requires
                out@.len() == (l as int) * (w as int),
                w == g.width,
                l == g.length,
        ;
        assert forall|x: int, y: int| 0 <= x < g.width && 0 <= y < g.length implies out@[x + y
            * g.width] == spec_vertex(*g, hs as int, scale_factor as int, x, y) by {
            let j = x + y * (g.width as int);
            assert(0 <= j < out@.len()) by (nonlinear_arith)
                requires
                    0 <= x < g.width,
                    0 <= y < g.length,
                    out@.len() == g.width * g.length,
                    j == x + y * g.width,
            ;
            lemma_fundamental_div_mod_converse_div(j, g.width as int, y, x);
            lemma_fundamental_div_mod_converse_mod(j, g.width as int, y, x);
        }
    }
    out
}

/// The `k`-th entry of the fixed triangulation of a `w` by `l` vertex
/// grid: quads in row-major order, six indices per quad, two triangles
/// wound (NW, SW, NE) then (NE, SW, SE).
pub open spec fn spec_tri_index(w: int, l: int, k: int) -> int {
    let q = k / 6;
    let r = k % 6;
    let qx = q % (w - 1);
    let qy = q / (w - 1);
    if r == 0 {
        qx + qy * w
    } else if r == 1 {
        qx + (qy + 1) * w
    } else if r == 2 {
        qx + 1 + qy * w
    } else if r == 3 {
        qx + 1 + qy * w
    } else if r == 4 {
        qx + (qy + 1) * w
    } else {
        qx + 1 + (qy + 1) * w
    }
}

/// The fixed triangulation of a `w` by `l` vertex grid: exactly
/// `2 * (w - 1) * (l - 1)` triangles, `6 * (w - 1) * (l - 1)` indices,
/// every index inside the vertex buffer.
pub fn grid_indices(width: usize, length: usize) -> (out: Vec<u32>)
    requires
        1 <= width <= MAX_GRID_DIM,
        1 <= length <= MAX_GRID_DIM,
    ensures
        out@.len() == 6 * (width - 1) * (length - 1),
        forall|k: int|
            0 <= k < out@.len() ==> #[trigger] out@[k] == spec_tri_index(
                width as int,
                length as int,
                k,
            ),
        forall|k: int| 0 <= k < out@.len() ==> 0 <= #[trigger] out@[k] < width * length,
{
    let w = width;
    let l = length;
    let mut out: Vec<u32> = Vec::new();
    let mut y: usize = 0;
    while y < l - 1
        invariant
            1 <= w <= MAX_GRID_DIM,
            1 <= l <= MAX_GRID_DIM,
            y <= l - 1,
            out@.len() == 6 * (y * (w - 1)),
            forall|k: int|
                0 <= k < out@.len() ==> #[trigger] out@[k] == spec_tri_index(w as int, l as int, k),
            forall|k: int| 0 <= k < out@.len() ==> 0 <= #[trigger] out@[k] < w * l,
        decreases l - 1 - y,
    {
        let mut x: usize = 0;
        while x < w - 1
            invariant
                1 <= w <= MAX_GRID_DIM,
                1 <= l <= MAX_GRID_DIM,
                y < l - 1,
                x <= w - 1,
                out@.len() == 6 * (y * (w - 1) + x),
                forall|k: int|
                    0 <= k < out@.len() ==> #[trigger] out@[k] == spec_tri_index(
                        w as int,
                        l as int,
                        k,
                    ),
                forall|k: int| 0 <= k < out@.len() ==> 0 <= #[trigger] out@[k] < w * l,
            decreases w - 1 - x,
        {
            proof {
                assert(y * (w - 1) + x < (l - 1) * (w - 1) && (l - 1) * (w - 1) <= 0x100_0000 && (x
                    + 1) + (y + 1) * w < w * l && w * l <= 0x100_0000 && 0 <= y * w && y * w <= w
                    * l && (y + 1) * w <= w * l && x + y * w < w * l && x + 1 + y * w < w * l && x
                    + (y + 1) * w < w * l) by (nonlinear_arith)
                    requires
                        0 <= x < w - 1,
                        0 <= y < l - 1,
                        w <= MAX_GRID_DIM,
                        l <= MAX_GRID_DIM,
                ;
            }
            let i00: u32 = (x + y * w) as u32;
            let i01: u32 = (x + (y + 1) * w) as u32;
            let i10: u32 = (x + 1 + y * w) as u32;
            let i11: u32 = (x + 1 + (y + 1) * w) as u32;
            let ghost q = (y * (w - 1) + x) as int;
            let ghost j0 = out@.len() as int;
            proof {
                lemma_fundamental_div_mod_converse_div(q, (w - 1) as int, y as int, x as int);
                lemma_fundamental_div_mod_converse_mod(q, (w - 1) as int, y as int, x as int);
                assert forall|i: int| 0 <= i < 6 implies #[trigger] ((j0 + i) / 6) == q && (j0 + i)
                    % 6 == i by {
                    lemma_fundamental_div_mod_converse_div(j0 + i, 6, q, i);
                    lemma_fundamental_div_mod_converse_mod(j0 + i, 6, q, i);
                }
            }
            out.push(i00);
            out.push(i01);
            out.push(i10);
            out.push(i10);
            out.push(i01);
            out.push(i11);
            x = x + 1;
        }
        y = y + 1;
        proof {
            assert(6 * ((y - 1) * (w - 1) + (w - 1)) == 6 * (y * (w - 1))) by (nonlinear_arith);
        }
    }
    proof {
        assert(6 * (((l - 1) as int) * ((w - 1) as int)) == 6 * ((width - 1) as int) * ((length
            - 1) as int)) by (nonlinear_arith)
            requires
                w == width,
                l == length,
                1 <= w,
                1 <= l,
        ;
    }
    out
}

/// A terrain mesh: parallel vertex attribute buffers plus the fixed
/// triangulation.
pub struct TerrainMesh {
    pub positions: Vec<Vec3I>,
    pub normals: Vec<Vec3I>,
    pub uvs: Vec<UvI>,
    pub indices: Vec<u32>,
}

impl TerrainMesh {
    /// The attribute buffers are parallel and every triangle index
    /// points inside them.
    pub open spec fn wf(self) -> bool {
        &&& self.normals@.len() == self.positions@.len()
        &&& self.uvs@.len() == self.positions@.len()
        &&& forall|k: int|
            0 <= k < self.indices@.len() ==> 0 <= #[trigger] self.indices@[k]
                < self.positions@.len()
    }
}

/// Assemble the full mesh of a height grid: the vertex buffer split
/// into parallel position / normal / uv sequences, plus the fixed
/// triangulation of the grid.
pub fn build_terrain_mesh(g: &HeightGrid, opts: &TerrainMeshOptions, scale_factor: u32) -> (out:
    TerrainMesh)
    requires
        g.wf(),
        opts.width == g.width,
        opts.length == g.length,
        opts.height_scale <= MAX_HEIGHT_SCALE,
        scale_factor <= MAX_SCALE_FACTOR,
    ensures
        out.wf(),
        out.positions@.len() == g.width * g.length,
        forall|j: int|
            0 <= j < out.positions@.len() ==> #[trigger] out.positions@[j] == spec_vertex_at(
                *g,
                opts.height_scale as int,
                scale_factor as int,
                j,
            ).position,
        forall|j: int|
            0 <= j < out.positions@.len() ==> #[trigger] out.normals@[j] == spec_vertex_at(
                *g,
                opts.height_scale as int,
                scale_factor as int,
                j,
            ).normal,
        forall|j: int|
            0 <= j < out.positions@.len() ==> #[trigger] out.uvs@[j] == spec_vertex_at(
                *g,
                opts.height_scale as int,
                scale_factor as int,
                j,
            ).uv,
        out.indices@.len() == 6 * (g.width - 1) * (g.length - 1),
        forall|k: int|
            0 <= k < out.indices@.len() ==> #[trigger] out.indices@[k] == spec_tri_index(
                g.width as int,
                g.length as int,
                k,
            ),
{
    let vertices = mesh_from_heightmap(g, opts, scale_factor);
    let ghost hs = opts.height_scale as int;
    let ghost sf = scale_factor as int;
    let n = vertices.len();
    let mut positions: Vec<Vec3I> = Vec::new();
    let mut normals: Vec<Vec3I> = Vec::new();
    let mut uvs: Vec<UvI> = Vec::new();
    let mut j: usize = 0;
    while j < n
        invariant
            n == vertices@.len(),
            j <= n,
            positions@.len() == j,
            normals@.len() == j,
            uvs@.len() == j,
            forall|i: int|
                0 <= i < vertices@.len() ==> #[trigger] vertices@[i] == spec_vertex_at(
                    *g,
                    hs,
                    sf,
                    i,
                ),
            forall|i: int| 0 <= i < j ==> #[trigger] positions@[i] == vertices@[i].position,
            forall|i: int| 0 <= i < j ==> #[trigger] normals@[i] == vertices@[i].normal,
            forall|i: int| 0 <= i < j ==> #[trigger] uvs@[i] == vertices@[i].uv,
        decreases n - j,
    {
        let vert = vertices[j];
        positions.push(vert.position);
        normals.push(vert.normal);
        uvs.push(vert.uv);
        j = j + 1;
    }
    let indices = grid_indices(g.width, g.length);
    proof {
        assert forall|k: int| 0 <= k < indices@.len() implies 0 <= #[trigger] indices@[k]
            < positions@.len() by {
            assert(indices@[k] < g.width * g.length);
        }
    }
    TerrainMesh { positions, normals, uvs, indices }
}

/// On a flat grid (equal extrema) the relief factor is defined as zero,
/// so every vertex height and every scaled vertical position is exactly
/// zero: the division by `max - min` is guarded and the output carries
/// no undefined value.
pub proof fn lemma_flat_grid_zero_relief(g: HeightGrid, hs: int, sf: int, x: int, y: int)
    requires
        g.wf(),
        g.min == g.max,
        0 <= x < g.width,
        0 <= y < g.length,
    ensures
        spec_height_milli(g, hs, x, y) == 0,
        spec_position(g, hs, sf, x, y).1 == 0,
{
    assert((0int * sf) == 0) by (nonlinear_arith);
    assert((0int) / (MILLI as int) == 0);
}

/// On a constant-elevation grid every interior vertex (far enough from
/// the edge substitutions) has the same normal, the straight-up
/// fixed-point vector `(0, MILLI * MILLI, 0)`: the relief is flat and
/// the neighbor contributions cancel exactly.
pub proof fn lemma_constant_grid_uniform_normal(g: HeightGrid, hs: int, x: int, y: int)
    requires
        g.wf(),
        g.min == g.max,
        2 <= x < g.width - 1,
        2 <= y < g.length - 1,
    ensures
        spec_vertex_normal(g, hs, x, y) == (0int, (MILLI * MILLI) as int, 0int),
{
    lemma_min_le_all(g.samples@);
    lemma_max_ge_all(g.samples@);
    lemma_grid_index_in_bounds(g, x, y);
    lemma_grid_index_in_bounds(g, x + 1, y);
    lemma_grid_index_in_bounds(g, x - 1, y);
    lemma_grid_index_in_bounds(g, x, y + 1);
    lemma_grid_index_in_bounds(g, x, y - 1);
    assert(g.sample_at(x + 1, y) == g.min);
    assert(g.sample_at(x - 1, y) == g.min);
    assert(g.sample_at(x, y + 1) == g.min);
    assert(g.sample_at(x, y - 1) == g.min);
    assert(spec_height_milli(g, hs, x, y) == 0);
    let u = (g.min as int) * hs;
    assert(spec_right_up(g, hs, x, y) == u);
    assert(spec_left_up(g, hs, x, y) == u);
    assert(spec_top_up(g, hs, x, y) == u);
    assert(spec_bottom_up(g, hs, x, y) == u);
    let m = MILLI as int;
    assert((u - 0) * (0 - 0) == 0 && (0 - 0) * (u - 0) == 0 && (0 - 0) * (0 - 0) == 0 && (m - 0) * (
    u - 0) == m * u && (u - 0) * (m - 0) == m * u && (-m - 0) * (u - 0) == -(m * u) && (u - 0) * (-m
        - 0) == -(m * u) && (m - 0) * (m - 0) == m * m && (-m - 0) * (-m - 0) == m * m)
        by (nonlinear_arith);
}

/// Any two interior vertices of a constant-elevation grid carry the
/// identical normal.
pub proof fn lemma_constant_grid_normals_equal(
    g: HeightGrid,
    hs: int,
    x1: int,
    y1: int,
    x2: int,
    y2: int,
)
    requires
        g.wf(),
        g.min == g.max,
        2 <= x1 < g.width - 1,
        2 <= y1 < g.length - 1,
        2 <= x2 < g.width - 1,
        2 <= y2 < g.length - 1,
    ensures
        spec_vertex_normal(g, hs, x1, y1) == spec_vertex_normal(g, hs, x2, y2),
{
    lemma_constant_grid_uniform_normal(g, hs, x1, y1);
    lemma_constant_grid_uniform_normal(g, hs, x2, y2);
}

} // verus!
