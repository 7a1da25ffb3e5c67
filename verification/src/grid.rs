//! The height grid: a rectangular raster of elevation samples with its
//! extrema.
//!
//! Samples are integer elevations (the unit is the shell's choice),
//! row major, `width` columns by `length` rows.  The extrema are
//! computed over the decoded samples; at the specification level they
//! fall back to zero on an empty sequence, while the constructor
//! rejects an empty raster outright — like every decode failure, the
//! rejection yields an absent tile, never an abort.  Dimensions and
//! sample magnitudes are bounded so that every product the mesh
//! builder forms stays inside `i64`.

use vstd::prelude::*;

verus! {

/// Largest accepted grid dimension, per axis.
pub const MAX_GRID_DIM: usize = 4096;

/// Largest accepted elevation magnitude.
pub const MAX_ELEVATION: i64 = 10_000_000;

/// Why a raster was rejected.  Any of these yields an absent tile, never
/// an abort.
#[derive(Clone, Copy, Debug, PartialEq, Eq, Structural)]
pub enum DecodeError {
    /// A zero width or length.
    ZeroDimension,
    /// A width or length above `MAX_GRID_DIM`.
    TooLarge,
    /// The sample buffer does not hold exactly `width * length` values.
    LengthMismatch,
    /// A sample beyond `MAX_ELEVATION` in magnitude.
    OutOfRange,
}

/// Least sample of `s`, or zero when `s` is empty.
pub open spec fn spec_min_or_zero(s: Seq<i64>) -> int
    decreases s.len(),
{
    if s.len() == 0 {
        0
    } else if s.len() == 1 {
        s[0] as int
    } else {
        let m = spec_min_or_zero(s.drop_last());
        if s.last() < m {
            s.last() as int
        } else {
            m
        }
    }
}

/// Greatest sample of `s`, or zero when `s` is empty.
pub open spec fn spec_max_or_zero(s: Seq<i64>) -> int
    decreases s.len(),
{
    if s.len() == 0 {
        0
    } else if s.len() == 1 {
        s[0] as int
    } else {
        let m = spec_max_or_zero(s.drop_last());
        if s.last() > m {
            s.last() as int
        } else {
            m
        }
    }
}

/// The minimum is no larger than any sample.
pub proof fn lemma_min_le_all(s: Seq<i64>)
    ensures
        forall|i: int| 0 <= i < s.len() ==> spec_min_or_zero(s) <= s[i],
    decreases s.len(),
{
    if s.len() > 1 {
        lemma_min_le_all(s.drop_last());
        assert forall|i: int| 0 <= i < s.len() implies spec_min_or_zero(s) <= s[i] by {
            if i < s.len() - 1 {
                assert(s.drop_last()[i] == s[i]);
            }
        }
    }
}

/// The maximum is no smaller than any sample.
pub proof fn lemma_max_ge_all(s: Seq<i64>)
    ensures
        forall|i: int| 0 <= i < s.len() ==> s[i] <= spec_max_or_zero(s),
    decreases s.len(),
{
    if s.len() > 1 {
        lemma_max_ge_all(s.drop_last());
        assert forall|i: int| 0 <= i < s.len() implies s[i] <= spec_max_or_zero(s) by {
            if i < s.len() - 1 {
                assert(s.drop_last()[i] == s[i]);
            }
        }
    }
}

/// On samples all within the elevation bound, both extrema are within
/// the elevation bound too.
pub proof fn lemma_extrema_bounded(s: Seq<i64>)
    requires
        forall|i: int| 0 <= i < s.len() ==> -MAX_ELEVATION <= #[trigger] s[i] <= MAX_ELEVATION,
    ensures
        -MAX_ELEVATION <= spec_min_or_zero(s) <= MAX_ELEVATION,
        -MAX_ELEVATION <= spec_max_or_zero(s) <= MAX_ELEVATION,
    decreases s.len(),
{
    if s.len() > 1 {
        assert(forall|i: int|
            0 <= i < s.drop_last().len() ==> -MAX_ELEVATION <= #[trigger] s.drop_last()[i]
                <= MAX_ELEVATION);
        lemma_extrema_bounded(s.drop_last());
    }
}

/// A rectangular elevation raster with its extrema.
#[derive(Debug)]
pub struct HeightGrid {
    /// Columns.
    pub width: usize,
    /// Rows.
    pub length: usize,
    /// Row-major samples: the sample at column `x`, row `y` is
    /// `samples[x + y * width]`.
    pub samples: Vec<i64>,
    /// Least sample (zero for an empty raster).
    pub min: i64,
    /// Greatest sample (zero for an empty raster).
    pub max: i64,
}

impl HeightGrid {
    /// Shape, extrema and bounds all hold.
    pub open spec fn wf(self) -> bool {
        &&& 1 <= self.width <= MAX_GRID_DIM
        &&& 1 <= self.length <= MAX_GRID_DIM
        &&& self.samples@.len() == self.width * self.length
        &&& self.min == spec_min_or_zero(self.samples@)
        &&& self.max == spec_max_or_zero(self.samples@)
        &&& forall|i: int|
            0 <= i < self.samples@.len() ==> -MAX_ELEVATION <= #[trigger] self.samples@[i]
                <= MAX_ELEVATION
    }

    /// Sample at column `x`, row `y`.
    pub open spec fn sample_at(self, x: int, y: int) -> int {
        self.samples@[x + y * self.width] as int
    }
}

/// The flat index of `(x, y)` is inside the sample buffer of a
/// well-formed grid.
pub proof fn lemma_grid_index_in_bounds(g: HeightGrid, x: int, y: int)
    requires
        g.wf(),
        0 <= x < g.width,
        0 <= y < g.length,
    ensures
        0 <= y * g.width,
        x + y * g.width < g.samples@.len(),
        g.samples@.len() <= 0x100_0000,
{
    assert(x + y * g.width < g.width * g.length && 0 <= y * g.width && g.width * g.length
        <= 0x100_0000) by (nonlinear_arith)
        requires
            0 <= x < g.width,
            0 <= y < g.length,
            g.width <= MAX_GRID_DIM,
            g.length <= MAX_GRID_DIM,
    ;
}

/// Whether a raster of these dimensions and samples is accepted.
pub open spec fn raster_ok(width: int, length: int, s: Seq<i64>) -> bool {
    &&& 1 <= width <= MAX_GRID_DIM
    &&& 1 <= length <= MAX_GRID_DIM
    &&& s.len() == width * length
    &&& forall|i: int| 0 <= i < s.len() ==> -MAX_ELEVATION <= #[trigger] s[i] <= MAX_ELEVATION
}

/// Build a `HeightGrid` from decoded samples, computing the extrema over
/// the samples.  Accepts exactly the rasters within the documented
/// bounds; every rejection names its reason.
pub fn height_grid_from_samples(width: usize, length: usize, samples: Vec<i64>) -> (r: Result<
    HeightGrid,
    DecodeError,
>)
    ensures
        r matches Ok(g) ==> {
            &&& g.wf()
            &&& g.width == width
            &&& g.length == length
            &&& g.samples@ == samples@
        },
        r.is_ok() <==> raster_ok(width as int, length as int, samples@),
        r matches Err(e) ==> {
            &&& (e == DecodeError::ZeroDimension <==> (width == 0 || length == 0))
            &&& e == DecodeError::TooLarge ==> (width > MAX_GRID_DIM || length > MAX_GRID_DIM)
            &&& e == DecodeError::LengthMismatch ==> samples@.len() != width * length
            &&& e == DecodeError::OutOfRange ==> exists|i: int|
                0 <= i < samples@.len() && !(-MAX_ELEVATION <= #[trigger] samples@[i]
                    <= MAX_ELEVATION)
        },
{
    if width == 0 || length == 0 {
        return Err(DecodeError::ZeroDimension);
    }
    if width > MAX_GRID_DIM || length > MAX_GRID_DIM {
        return Err(DecodeError::TooLarge);
    }
    if samples.len() / width != length || samples.len() % width != 0 {
        proof {
            if samples@.len() == width * length {
                vstd::arithmetic::div_mod::lemma_fundamental_div_mod_converse_div(
                    samples@.len() as int,
                    width as int,
                    length as int,
                    0,
                );
                vstd::arithmetic::div_mod::lemma_fundamental_div_mod_converse_mod(
                    samples@.len() as int,
                    width as int,
                    length as int,
                    0,
                );
            }
        }
        return Err(DecodeError::LengthMismatch);
    }
    proof {
        vstd::arithmetic::div_mod::lemma_fundamental_div_mod(samples@.len() as int, width as int);
    }
    let n = samples.len();
    let mut min: i64 = 0;
    let mut max: i64 = 0;
    let mut i: usize = 0;
    while i < n
        invariant
            n == samples@.len(),
            1 <= width <= MAX_GRID_DIM,
            1 <= length <= MAX_GRID_DIM,
            n == width * length,
            i <= n,
            min == spec_min_or_zero(samples@.subrange(0, i as int)),
            max == spec_max_or_zero(samples@.subrange(0, i as int)),
            forall|j: int| 0 <= j < i ==> -MAX_ELEVATION <= #[trigger] samples@[j] <= MAX_ELEVATION,
        decreases n - i,
    {
        let s = samples[i];
        if s < -MAX_ELEVATION || s > MAX_ELEVATION {
            proof {
                assert(exists|j: int|
                    0 <= j < samples@.len() && !(-MAX_ELEVATION <= #[trigger] samples@[j]
                        <= MAX_ELEVATION)) by {
                    assert(!(-MAX_ELEVATION <= samples@[i as int] <= MAX_ELEVATION));
                }
            }
            return Err(DecodeError::OutOfRange);
        }
        proof {
            assert(samples@.subrange(0, i + 1).drop_last() =~= samples@.subrange(0, i as int));
        }
        if i == 0 {
            min = s;
            max = s;
        } else {
            if s < min {
                min = s;
            }
            if s > max {
                max = s;
            }
        }
        i = i + 1;
    }
    proof {
        assert(samples@.subrange(0, n as int) =~= samples@);
    }
    Ok(HeightGrid { width, length, samples, min, max })
}

} // verus!
