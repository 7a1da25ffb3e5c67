//! Cubic-spline resampling of a height grid to a target size.
//!
//! A raster whose resolution differs from the mesh grid is resampled
//! with a separable Catmull-Rom cubic: for each target sample the four
//! horizontal interpolations over the 4x4 source neighborhood are
//! followed by one vertical interpolation.  Sample positions are fixed
//! point with `FRAC_ONE` (1024) steps per source cell; edge
//! neighborhoods clamp their coordinates into the grid.  Every
//! interpolation stage floors its division and clamps its value into
//! the source extrema, which keeps the arithmetic inside `i64` and the
//! resampled raster inside the source's elevation range.  A raster
//! already at the target size is passed through unchanged.

use vstd::prelude::*;

verus! {

use crate::grid::HeightGrid;
use crate::grid::DecodeError;
use crate::grid::MAX_GRID_DIM;
use crate::grid::MAX_ELEVATION;
use crate::grid::height_grid_from_samples;
use crate::grid::lemma_min_le_all;
use crate::grid::lemma_max_ge_all;
use crate::grid::lemma_extrema_bounded;
use vstd::arithmetic::div_mod::lemma_fundamental_div_mod;
use vstd::arithmetic::div_mod::lemma_fundamental_div_mod_converse_div;
use vstd::arithmetic::div_mod::lemma_div_pos_is_pos;
use vstd::arithmetic::div_mod::lemma_mod_division_less_than_divisor;

/// Fixed-point steps per source cell when placing target samples.
pub const FRAC_ONE: i64 = 1024;

/// `v` clamped into `[lo, hi]`.
pub open spec fn spec_clamp(v: int, lo: int, hi: int) -> int {
    if v < lo {
        lo
    } else if v > hi {
        hi
    } else {
        v
    }
}

/// Fixed-point position of target sample `i` of `dst` on a source axis
/// of `srcn` samples: `i * (srcn - 1) / (dst - 1)` source cells, scaled
/// by `FRAC_ONE` and floored.  A single target sample sits at the
/// origin.
pub open spec fn spec_axis_pos(i: int, dst: int, srcn: int) -> int {
    if dst <= 1 {
        0
    } else {
        (i * (srcn - 1) * FRAC_ONE) / (dst - 1)
    }
}

/// Source sample at `(x, y)` with both coordinates clamped into the
/// grid.
pub open spec fn spec_sample_clamped(g: HeightGrid, x: int, y: int) -> int {
    g.sample_at(spec_clamp(x, 0, g.width - 1), spec_clamp(y, 0, g.length - 1))
}

/// Catmull-Rom interpolation between `p1` and `p2` at fraction
/// `t / FRAC_ONE`, with `p0` and `p3` the outer support samples; one
/// floored division at the end.
pub open spec fn spec_catmull(p0: int, p1: int, p2: int, p3: int, t: int) -> int {
    let f = FRAC_ONE as int;
    (2 * p1 * (f * f * f) + (p2 - p0) * t * (f * f) + (2 * p0 - 5 * p1 + 4 * p2 - p3) * (t * t) * f
        + (3 * p1 - p0 - 3 * p2 + p3) * (t * t * t)) / (2 * (f * f * f))
}

/// One resampled value: four horizontal Catmull-Rom passes over the
/// 4x4 neighborhood, each clamped into the source extrema, then one
/// vertical pass, clamped again.
pub open spec fn spec_resampled_at(g: HeightGrid, tw: int, tl: int, i: int, j: int) -> int {
    let px = spec_axis_pos(i, tw, g.width as int);
    let py = spec_axis_pos(j, tl, g.length as int);
    let xb = px / (FRAC_ONE as int);
    let tx = px % (FRAC_ONE as int);
    let yb = py / (FRAC_ONE as int);
    let ty = py % (FRAC_ONE as int);
    let r0 = spec_row_value(g, xb, tx, yb - 1);
    let r1 = spec_row_value(g, xb, tx, yb);
    let r2 = spec_row_value(g, xb, tx, yb + 1);
    let r3 = spec_row_value(g, xb, tx, yb + 2);
    spec_clamp(spec_catmull(r0, r1, r2, r3, ty), g.min as int, g.max as int)
}

/// The horizontal pass on source row `y`: Catmull-Rom at column
/// position `xb + tx / FRAC_ONE`, clamped into the source extrema.
pub open spec fn spec_row_value(g: HeightGrid, xb: int, tx: int, y: int) -> int {
    spec_clamp(
        spec_catmull(
            spec_sample_clamped(g, xb - 1, y),
            spec_sample_clamped(g, xb, y),
            spec_sample_clamped(g, xb + 1, y),
            spec_sample_clamped(g, xb + 2, y),
            tx,
        ),
        g.min as int,
        g.max as int,
    )
}

/// Floored division for a possibly negative numerator.
fn div_floor(num: i64, den: i64) -> (r: i64)
    requires
        0 < den < 0x1_0000_0000,
        -0x4000_0000_0000_0000 < num < 0x4000_0000_0000_0000,
    ensures
        r == (num as int) / (den as int),
{
    if num >= 0 {
        proof {
            lemma_div_pos_is_pos(num as int, den as int);
            vstd::arithmetic::div_mod::lemma_div_nonincreasing(num as int, den as int);
        }
        ((num as u64) / (den as u64)) as i64
    } else {
        let m: u64 = (-num) as u64;
        let d: u64 = den as u64;
        let q: u64 = (m + d - 1) / d;
        proof {
            lemma_fundamental_div_mod((m + d - 1) as int, d as int);
            lemma_div_pos_is_pos((m + d - 1) as int, d as int);
            vstd::arithmetic::div_mod::lemma_div_nonincreasing((m + d - 1) as int, d as int);
            let qi = q as int;
            let mi = m as int;
            let di = d as int;
            assert(di * qi >= mi && di * qi < mi + di);
            assert((-mi) == di * (-qi) + (di * qi - mi)) by (nonlinear_arith);
            lemma_fundamental_div_mod_converse_div(-mi, di, -qi, di * qi - mi);
        }
        -(q as i64)
    }
}

/// `v` clamped into `[lo, hi]`.
fn clamp_i64(v: i64, lo: i64, hi: i64) -> (r: i64)
    requires
        lo <= hi,
    ensures
        r == spec_clamp(v as int, lo as int, hi as int),
        lo <= r <= hi,
{
    if v < lo {
        lo
    } else if v > hi {
        hi
    } else {
        v
    }
}

/// Catmull-Rom at `t / FRAC_ONE` between `p1` and `p2`, clamped into
/// `[lo, hi]`.
fn catmull_clamped(p0: i64, p1: i64, p2: i64, p3: i64, t: i64, lo: i64, hi: i64) -> (r: i64)
    requires
        -MAX_ELEVATION <= p0 <= MAX_ELEVATION,
        -MAX_ELEVATION <= p1 <= MAX_ELEVATION,
        -MAX_ELEVATION <= p2 <= MAX_ELEVATION,
        -MAX_ELEVATION <= p3 <= MAX_ELEVATION,
        0 <= t < FRAC_ONE,
        lo <= hi,
    ensures
        r == spec_clamp(spec_catmull(p0 as int, p1 as int, p2 as int, p3 as int, t as int), lo as int, hi as int),
        lo <= r <= hi,
{
    let f: i64 = FRAC_ONE;
    let f3: i64 = f * f * f;
    proof {
        lemma_catmull_terms_bounded(p0 as int, p1 as int, p2 as int, p3 as int, t as int);
        assert((2 * (p1 as int)) * (f3 as int) == 2 * (p1 as int) * (1024 * 1024 * 1024)
            && ((p2 as int) - (p0 as int)) * (t as int) * (((f as int) * (f as int))) == ((
        p2 as int) - (p0 as int)) * (t as int) * (1024 * 1024) && (2 * (p0 as int) - 5 * (
        p1 as int) + 4 * (p2 as int) - (p3 as int)) * ((t as int) * (t as int)) * (f as int) == (2
            * (p0 as int) - 5 * (p1 as int) + 4 * (p2 as int) - (p3 as int)) * ((t as int) * (
        t as int)) * 1024) by (nonlinear_arith)
            requires
                f == 1024,
                f3 == 1024 * 1024 * 1024,
        ;
        assert(0 <= (t as int) * (t as int) < 0x10_0000 && 0 <= ((t as int) * (t as int)) * (
        t as int) < 0x4000_0000 && -0x10_0000_0000_0000 < ((p2 as int) - (p0 as int)) * (t as int)
            < 0x10_0000_0000_0000 && -0x1000_0000_0000_0000 < (2 * (p0 as int) - 5 * (p1 as int) + 4
            * (p2 as int) - (p3 as int)) * ((t as int) * (t as int)) < 0x1000_0000_0000_0000)
            by (nonlinear_arith)
            requires
                -10_000_000 <= p0 <= 10_000_000,
                -10_000_000 <= p1 <= 10_000_000,
                -10_000_000 <= p2 <= 10_000_000,
                -10_000_000 <= p3 <= 10_000_000,
                0 <= t < 1024,
        ;
    }
    let num: i64 = 2 * p1 * f3 + (p2 - p0) * t * (f * f) + (2 * p0 - 5 * p1 + 4 * p2 - p3) * (t * t)
        * f + (3 * p1 - p0 - 3 * p2 + p3) * (t * t * t);
    let v = div_floor(num, 2 * f3);
    clamp_i64(v, lo, hi)
}

/// Every term of the Catmull-Rom numerator, and their sum, stays well
/// inside `i64` for bounded samples and a sub-cell fraction.
proof fn lemma_catmull_terms_bounded(p0: int, p1: int, p2: int, p3: int, t: int)
    requires
        -MAX_ELEVATION <= p0 <= MAX_ELEVATION,
        -MAX_ELEVATION <= p1 <= MAX_ELEVATION,
        -MAX_ELEVATION <= p2 <= MAX_ELEVATION,
        -MAX_ELEVATION <= p3 <= MAX_ELEVATION,
        0 <= t < FRAC_ONE,
    ensures
        -0x1000_0000_0000_0000 < 2 * p1 * (1024 * 1024 * 1024) < 0x1000_0000_0000_0000,
        -0x1000_0000_0000_0000 < (p2 - p0) * t * (1024 * 1024) < 0x1000_0000_0000_0000,
        -0x1000_0000_0000_0000 < (2 * p0 - 5 * p1 + 4 * p2 - p3) * (t * t) * 1024
            < 0x1000_0000_0000_0000,
        -0x1000_0000_0000_0000 < (3 * p1 - p0 - 3 * p2 + p3) * (t * t * t) < 0x1000_0000_0000_0000,
{
    assert(-0x1000_0000_0000_0000 < 2 * p1 * (1024 * 1024 * 1024) < 0x1000_0000_0000_0000
        && -0x1000_0000_0000_0000 < (p2 - p0) * t * (1024 * 1024) < 0x1000_0000_0000_0000
        && -0x1000_0000_0000_0000 < (2 * p0 - 5 * p1 + 4 * p2 - p3) * (t * t) * 1024
        < 0x1000_0000_0000_0000 && -0x1000_0000_0000_0000 < (3 * p1 - p0 - 3 * p2 + p3) * (t * t
        * t) < 0x1000_0000_0000_0000) by (nonlinear_arith)
        requires
            -MAX_ELEVATION <= p0 <= MAX_ELEVATION,
            -MAX_ELEVATION <= p1 <= MAX_ELEVATION,
            -MAX_ELEVATION <= p2 <= MAX_ELEVATION,
            -MAX_ELEVATION <= p3 <= MAX_ELEVATION,
            0 <= t < 1024,
    ;
}

/// Source sample with clamped coordinates.
fn sample_clamped(g: &HeightGrid, x: i64, y: i64) -> (r: i64)
    requires
        g.wf(),
        -0x1_0000_0000 < x < 0x1_0000_0000,
        -0x1_0000_0000 < y < 0x1_0000_0000,
    ensures
        r == spec_sample_clamped(*g, x as int, y as int),
        -MAX_ELEVATION <= r <= MAX_ELEVATION,
{
    let xc: usize = clamp_i64(x, 0, (g.width - 1) as i64) as usize;
    let yc: usize = clamp_i64(y, 0, (g.length - 1) as i64) as usize;
    proof {
        crate::grid::lemma_grid_index_in_bounds(*g, xc as int, yc as int);
    }
    g.samples[xc + yc * g.width]
}

/// The horizontal Catmull-Rom pass on source row `y`.
fn row_value(g: &HeightGrid, xb: i64, tx: i64, y: i64) -> (r: i64)
    requires
        g.wf(),
        -0x8000_0000 < xb < 0x8000_0000,
        -0x8000_0000 < y < 0x8000_0000,
        0 <= tx < FRAC_ONE,
        g.min <= g.max,
    ensures
        r == spec_row_value(*g, xb as int, tx as int, y as int),
        g.min <= r <= g.max,
{
    proof {
        lemma_extrema_bounded(g.samples@);
    }
    let p0 = sample_clamped(g, xb - 1, y);
    let p1 = sample_clamped(g, xb, y);
    let p2 = sample_clamped(g, xb + 1, y);
    let p3 = sample_clamped(g, xb + 2, y);
    catmull_clamped(p0, p1, p2, p3, tx, g.min, g.max)
}

/// Resample `src` to `width` by `length` samples with the separable
/// clamped Catmull-Rom cubic; a raster already at the target size is
/// returned unchanged.  The result is a well-formed grid whose samples
/// all lie inside the source extrema.
pub fn resample_grid(src: &HeightGrid, width: usize, length: usize) -> (r: Result<
    HeightGrid,
    DecodeError,
>)
    requires
        src.wf(),
    ensures
        r matches Ok(g) ==> {
            &&& g.wf()
            &&& g.width == width
            &&& g.length == length
        },
        src.width == width && src.length == length ==> (r matches Ok(g) && g.samples@
            == src.samples@),
        r.is_ok() <==> (1 <= width <= MAX_GRID_DIM && 1 <= length <= MAX_GRID_DIM),
        r matches Ok(g) ==> (src.width != width || src.length != length) ==> forall|i: int, j: int|
            0 <= i < width && 0 <= j < length ==> g.samples@[i + j * width] == spec_resampled_at(
                *src,
                width as int,
                length as int,
                i,
                j,
            ),
{
    if width < 1 || length < 1 {
        return Err(DecodeError::ZeroDimension);
    }
    if width > MAX_GRID_DIM || length > MAX_GRID_DIM {
        return Err(DecodeError::TooLarge);
    }
    if src.width == width && src.length == length {
        let copy = HeightGrid {
            width: src.width,
            length: src.length,
            samples: src.samples.clone(),
            min: src.min,
            max: src.max,
        };
        proof {
            assert(copy.samples@ =~= src.samples@);
        }
        return Ok(copy);
    }
    proof {
        lemma_min_le_all(src.samples@);
        lemma_max_ge_all(src.samples@);
        lemma_extrema_bounded(src.samples@);
        crate::grid::lemma_grid_index_in_bounds(*src, 0, 0);
    }
    let mut samples: Vec<i64> = Vec::new();
    let mut j: usize = 0;
    while j < length
        invariant
            src.wf(),
            src.min <= src.max,
            -MAX_ELEVATION <= src.min,
            src.max <= MAX_ELEVATION,
            1 <= width <= MAX_GRID_DIM,
            1 <= length <= MAX_GRID_DIM,
            j <= length,
            samples@.len() == j * width,
            forall|a: int, b: int|
                0 <= a < width && 0 <= b < j ==> samples@[a + b * width] == spec_resampled_at(
                    *src,
                    width as int,
                    length as int,
                    a,
                    b,
                ),
        decreases length - j,
    {
        let py = axis_pos(j, length, src.length);
        let yb = py / FRAC_ONE;
        let ty = py % FRAC_ONE;
        proof {
            lemma_div_pos_is_pos(py as int, FRAC_ONE as int);
            vstd::arithmetic::div_mod::lemma_div_nonincreasing(py as int, FRAC_ONE as int);
            lemma_mod_division_less_than_divisor(py as int, FRAC_ONE as int);
        }
        let mut i: usize = 0;
        while i < width
            invariant
                src.wf(),
                src.min <= src.max,
                -MAX_ELEVATION <= src.min,
                src.max <= MAX_ELEVATION,
                1 <= width <= MAX_GRID_DIM,
                1 <= length <= MAX_GRID_DIM,
                j < length,
                i <= width,
                py == spec_axis_pos(j as int, length as int, src.length as int),
                0 <= py <= 0x1_0000_0000,
                yb == py / FRAC_ONE,
                ty == py % FRAC_ONE,
                0 <= yb <= 0x1_0000_0000,
                0 <= ty < FRAC_ONE,
                samples@.len() == j * width + i,
                forall|a: int, b: int|
                    0 <= a < width && 0 <= b < j ==> samples@[a + b * width] == spec_resampled_at(
                        *src,
                        width as int,
                        length as int,
                        a,
                        b,
                    ),
                forall|a: int|
                    0 <= a < i ==> samples@[j * width + a] == spec_resampled_at(
                        *src,
                        width as int,
                        length as int,
                        a,
                        j as int,
                    ),
        decreases width - i,
        {
            let px = axis_pos(i, width, src.width);
            let xb = px / FRAC_ONE;
            let tx = px % FRAC_ONE;
            proof {
                lemma_div_pos_is_pos(px as int, FRAC_ONE as int);
                vstd::arithmetic::div_mod::lemma_div_nonincreasing(px as int, FRAC_ONE as int);
                lemma_mod_division_less_than_divisor(px as int, FRAC_ONE as int);
            }
            let r0 = row_value(src, xb, tx, yb - 1);
            let r1 = row_value(src, xb, tx, yb);
            let r2 = row_value(src, xb, tx, yb + 1);
            let r3 = row_value(src, xb, tx, yb + 2);
            proof {
                lemma_extrema_bounded(src.samples@);
            }
            let v = catmull_clamped(r0, r1, r2, r3, ty, src.min, src.max);
            let ghost before = samples@;
            samples.push(v);
            proof {
                assert forall|a: int, b: int| 0 <= a < width && 0 <= b < j implies samples@[a + b
                    * width] == spec_resampled_at(*src, width as int, length as int, a, b) by {
                    assert(a + b * width < before.len()) by (nonlinear_arith)
                        requires
                            0 <= a < width,
                            0 <= b < j,
                            before.len() == j * width + i,
                            i >= 0,
                    ;
                    assert(before[a + b * width] == spec_resampled_at(
                        *src,
                        width as int,
                        length as int,
                        a,
                        b,
                    ));
                }
            }
            i = i + 1;
        }
        j = j + 1;
        proof {
            assert((j - 1) * width + width == j * width) by (nonlinear_arith);
        }
    }
    let ghost flat = samples@;
    proof {
        assert((length as int) * (width as int) == (width as int) * (length as int))
            by (nonlinear_arith);
    }
    let out = height_grid_from_samples(width, length, samples);
    proof {
        assert(flat.len() == width * length);
        assert(crate::grid::raster_ok(width as int, length as int, flat)) by {
            assert forall|k: int| 0 <= k < flat.len() implies -MAX_ELEVATION <= #[trigger] flat[k]
                <= MAX_ELEVATION by {
                let a = k % (width as int);
                let b = k / (width as int);
                lemma_fundamental_div_mod(k, width as int);
                lemma_mod_division_less_than_divisor(k, width as int);
                assert(0 <= b < length) by (nonlinear_arith)
                    requires
                        k == (width as int) * b + a,
                        0 <= a < width,
                        0 <= k < width * length,
                        width >= 1,
                ;
                assert(flat[a + b * width] == spec_resampled_at(
                    *src,
                    width as int,
                    length as int,
                    a,
                    b,
                ));
            }
        }
    }
    out
}

/// Fixed-point position of target sample `i` on the source axis.
fn axis_pos(i: usize, dst: usize, srcn: usize) -> (r: i64)
    requires
        i < dst,
        dst <= MAX_GRID_DIM,
        1 <= srcn <= MAX_GRID_DIM,
    ensures
        r == spec_axis_pos(i as int, dst as int, srcn as int),
        0 <= r <= 0x1_0000_0000,
{
    if dst <= 1 {
        0
    } else {
        proof {
            assert((i as int) * ((srcn - 1) as int) * 1024 <= 4096 * 4096 * 1024 && (i as int) * ((
            srcn - 1) as int) * 1024 <= ((dst - 1) as int) * (((srcn - 1) as int) * 1024))
                by (nonlinear_arith)
                requires
                    0 <= i < dst,
                    dst <= 4096,
                    1 <= srcn <= 4096,
            ;
        }
        let num: u64 = (i as u64) * ((srcn - 1) as u64) * 1024;
        let den: u64 = (dst - 1) as u64;
        proof {
            lemma_div_pos_is_pos(num as int, den as int);
            vstd::arithmetic::div_mod::lemma_multiply_divide_le(
                num as int,
                den as int,
                ((srcn - 1) as int) * 1024,
            );
        }
        (num / den) as i64
    }
}

} // verus!
