//! Tile-addressing math for Web-Mercator slippy-map tiles.
//!
//! The map is the square [-180°, 180°) of longitude crossed with the
//! Mercator-projected latitude axis.  Longitude is carried in integer
//! microdegrees.  The projected latitude axis is carried as a binary
//! fraction of `MERC_ONE` (2^32): 0 at the north edge of the map, just
//! under `MERC_ONE` at the south edge.  Evaluating the projection itself
//! (`(1 - asinh(tan(lat)) / pi) / 2`) takes transcendental arithmetic and
//! is left to the unverified shell; every quantization decision made from
//! the projected value is verified here.
//!
//! At zoom `z` the map is divided into `pow2(z)` tiles per axis.
//! `deg2num` maps a point to the tile that contains it; `num2deg` maps a
//! tile index to its north-west corner, with longitude rounded down to
//! the enclosing microdegree.
//!
//! A deliberate departure from the raw slippy-map convention: that
//! formula, fed a latitude beyond the Mercator limit (about 85
//! degrees), silently yields an out-of-grid tile index.  Here such a
//! latitude has no projected value in `[0, MERC_ONE)` at all, so
//! `deg2num` requires an on-map point and always returns a valid tile;
//! the shell clamps the projection to the map edge before calling in.

use vstd::prelude::*;

verus! {

use vstd::arithmetic::power2::pow2;
use vstd::arithmetic::power2::lemma_pow2_adds;
use vstd::arithmetic::power2::lemma_pow2_pos;
use vstd::arithmetic::power2::lemma_pow2_strictly_increases;
use vstd::arithmetic::power2::lemma2_to64;
use vstd::arithmetic::div_mod::lemma_fundamental_div_mod;
use vstd::arithmetic::div_mod::lemma_div_is_ordered;
use vstd::arithmetic::div_mod::lemma_div_plus_one;
use vstd::arithmetic::div_mod::lemma_div_pos_is_pos;
use vstd::arithmetic::div_mod::lemma_div_multiples_vanish;
use vstd::arithmetic::div_mod::lemma_multiply_divide_lt;
use vstd::arithmetic::mul::lemma_mul_inequality;
use vstd::arithmetic::mul::lemma_mul_strict_inequality;

/// Width of the whole map in microdegrees of longitude.
pub const LON_SPAN_MICRO: u64 = 360_000_000;

/// Half the longitude span: the distance from the west map edge to the meridian.
pub const LON_HALF_MICRO: i64 = 180_000_000;

/// The projected latitude axis spans [0, MERC_ONE): one unit is 2^-32 of the map height.
pub const MERC_ONE: u64 = 0x1_0000_0000;

/// Largest zoom level the tile math supports.  Up to here a single
/// microdegree of longitude still separates adjacent tile columns, so the
/// microdegree corners returned by `num2deg` stay strictly ordered.
pub const MAX_ZOOM: u32 = 28;

/// A Web-Mercator tile address: column `x` from the west edge, row `y`
/// from the north edge, at zoom `z`.
#[derive(Clone, Copy, Debug, PartialEq, Eq, Structural, Hash)]
pub struct TileCoordinate {
    pub x: u32,
    pub y: u32,
    pub z: u32,
}

impl TileCoordinate {
    /// A tile address is valid when the zoom is supported and both
    /// indices lie inside the zoom level's grid.
    pub open spec fn wf(self) -> bool {
        self.z <= MAX_ZOOM && self.x < pow2(self.z as nat) && self.y < pow2(self.z as nat)
    }
}

/// A point on the map: longitude in microdegrees, projected latitude as a
/// fraction of `MERC_ONE`.
#[derive(Clone, Copy, Debug, PartialEq, Eq, Structural, Hash)]
pub struct MercatorPoint {
    pub lon_micro: i64,
    pub merc_y: u64,
}

impl MercatorPoint {
    /// The point lies on the map: longitude west of the east edge
    /// (longitude is not wrapped here), projection inside the unit range.
    pub open spec fn wf(self) -> bool {
        -LON_HALF_MICRO <= self.lon_micro < LON_HALF_MICRO && self.merc_y < MERC_ONE
    }
}

/// Tile column containing longitude `lon` (microdegrees) at zoom `z`.
pub open spec fn xtile_of(lon: int, z: nat) -> int {
    ((lon + LON_HALF_MICRO) * pow2(z)) / (LON_SPAN_MICRO as int)
}

/// Tile row containing projected latitude `m` (fraction of `MERC_ONE`) at zoom `z`.
pub open spec fn ytile_of(m: int, z: nat) -> int {
    (m * pow2(z)) / (MERC_ONE as int)
}

/// Longitude in microdegrees of the west edge of tile column `x` at zoom
/// `z`, rounded down to the enclosing microdegree.
pub open spec fn west_micro_of(x: int, z: nat) -> int {
    (x * (LON_SPAN_MICRO as int)) / (pow2(z) as int) - LON_HALF_MICRO
}

/// Projected latitude of the north edge of tile row `y` at zoom `z`;
/// exact, since `pow2(z)` divides `MERC_ONE`.
pub open spec fn north_merc_of(y: int, z: nat) -> int {
    y * pow2((32 - z) as nat)
}

/// Number of tiles per axis at zoom `z`.
pub fn tiles_per_axis(z: u32) -> (n: u64)
    requires
        z <= 32,
    ensures
        n == pow2(z as nat),
        n >= 1,
{
    let mut i: u32 = 0;
    let mut n: u64 = 1;
    proof {
        lemma2_to64();
    }
    while i < z
        invariant
            i <= z <= 32,
            n == pow2(i as nat),
            pow2(32) == 0x1_0000_0000,
        decreases z - i,
    {
        proof {
            if (i as nat) < 32 {
                lemma_pow2_strictly_increases(i as nat, 32);
            }
            lemma_pow2_adds(i as nat, 1);
            lemma2_to64();
        }
        n = n * 2;
        i = i + 1;
    }
    proof {
        lemma_pow2_pos(z as nat);
    }
    n
}

/// Tile containing the given point, per the slippy-map convention:
/// `x = floor((lon + 180) / 360 * 2^z)` and `y = floor(merc * 2^z)` with
/// `merc` the projected latitude fraction.  The result is a valid tile
/// address for every point on the map.
pub fn deg2num(p: MercatorPoint, zoom: u32) -> (t: TileCoordinate)
    requires
        p.wf(),
        zoom <= MAX_ZOOM,
    ensures
        t.z == zoom,
        t.x == xtile_of(p.lon_micro as int, zoom as nat),
        t.y == ytile_of(p.merc_y as int, zoom as nat),
        t.wf(),
{
    let n = tiles_per_axis(zoom);
    proof {
        if (zoom as nat) < 32 {
            lemma_pow2_strictly_increases(zoom as nat, 32);
        }
        lemma2_to64();
    }
    let shifted: u64 = (p.lon_micro + LON_HALF_MICRO) as u64;
    proof {
        assert((shifted as int) * (n as int) < 0x8000_0000_0000_0000) by (nonlinear_arith)
            requires
                shifted < 360_000_000,
                n < 0x1_0000_0000,
        ;
        assert((p.merc_y as int) * (n as int) < 0x1_0000_0000_0000_0000) by (nonlinear_arith)
            requires
                p.merc_y < 0x1_0000_0000,
                n < 0x1_0000_0000,
        ;
    }
    let x64: u64 = (shifted * n) / LON_SPAN_MICRO;
    let y64: u64 = (p.merc_y * n) / MERC_ONE;
    proof {
        lemma_mul_strict_inequality(shifted as int, LON_SPAN_MICRO as int, n as int);
        lemma_multiply_divide_lt(
            (shifted * n) as int,
            LON_SPAN_MICRO as int,
            n as int,
        );
        lemma_mul_strict_inequality(p.merc_y as int, MERC_ONE as int, n as int);
        lemma_multiply_divide_lt((p.merc_y * n) as int, MERC_ONE as int, n as int);
    }
    TileCoordinate { x: x64 as u32, y: y64 as u32, z: zoom }
}

/// North-west corner of tile `(x, y)` at zoom `zoom`.  `x` and `y` may
/// equal `2^zoom`, addressing the south-east corner of the last tile.
/// The longitude is rounded down to the enclosing microdegree; the
/// projected latitude is exact.
pub fn num2deg(x: u32, y: u32, zoom: u32) -> (r: (i64, u64))
    requires
        zoom <= MAX_ZOOM,
        x <= pow2(zoom as nat),
        y <= pow2(zoom as nat),
    ensures
        r.0 == west_micro_of(x as int, zoom as nat),
        r.1 == north_merc_of(y as int, zoom as nat),
        -LON_HALF_MICRO <= r.0 <= LON_HALF_MICRO,
        r.1 <= MERC_ONE,
{
    let n = tiles_per_axis(zoom);
    proof {
        if (zoom as nat) < 32 {
            lemma_pow2_strictly_increases(zoom as nat, 32);
        }
        lemma2_to64();
        lemma_mul_inequality(x as int, n as int, LON_SPAN_MICRO as int);
        vstd::arithmetic::div_mod::lemma_multiply_divide_le(
            (x as u64 * LON_SPAN_MICRO) as int,
            n as int,
            LON_SPAN_MICRO as int,
        );
        lemma_div_pos_is_pos((x as u64 * LON_SPAN_MICRO) as int, n as int);
    }
    let lon: i64 = ((x as u64 * LON_SPAN_MICRO) / n) as i64 - LON_HALF_MICRO;
    proof {
        lemma_pow2_adds(zoom as nat, (32 - zoom) as nat);
        lemma_mul_inequality(y as int, pow2(zoom as nat) as int, pow2((32 - zoom) as nat) as int);
    }
    let step: u64 = MERC_ONE / n;
    proof {
        lemma_div_multiples_vanish(pow2((32 - zoom) as nat) as int, n as int);
        assert(n * pow2((32 - zoom) as nat) == pow2(zoom as nat) * pow2((32 - zoom) as nat));
    }
    let merc: u64 = y as u64 * step;
    (lon, merc)
}

/// For a fixed zoom the west corner returned by `num2deg` is strictly
/// increasing in the tile column: distinct columns have distinct,
/// correctly ordered longitudes over the whole row `[0, 2^z]`.
pub proof fn lemma_num2deg_lon_strictly_increasing(x1: int, x2: int, z: nat)
    requires
        z <= MAX_ZOOM,
        0 <= x1 < x2 <= pow2(z),
    ensures
        west_micro_of(x1, z) < west_micro_of(x2, z),
{
    let s = LON_SPAN_MICRO as int;
    let n = pow2(z) as int;
    lemma_pow2_pos(z);
    if z < 28 {
        lemma_pow2_strictly_increases(z, 28);
    }
    lemma2_to64();
    assert(n <= s);
    lemma_mul_inequality(x1 + 1, x2, s);
    assert((x1 + 1) * s == x1 * s + s) by (nonlinear_arith);
    assert(x1 * s + n <= x2 * s);
    lemma_div_plus_one(x1 * s, n);
    lemma_div_is_ordered(x1 * s + n, x2 * s, n);
    assert((n + x1 * s) / n == 1 + (x1 * s) / n);
    assert((x1 * s) / n < (x2 * s) / n);
}

/// Corner-snapping round trip on the longitude axis: `deg2num` picks the
/// tile column whose `num2deg` corners enclose the original longitude.
/// The west corner is exact or rounded down, so containment on the east
/// side is up to the microdegree rounding of `num2deg`.
pub proof fn lemma_roundtrip_lon(lon: int, z: nat)
    requires
        z <= MAX_ZOOM,
        -(LON_HALF_MICRO as int) <= lon < LON_HALF_MICRO as int,
    ensures
        0 <= xtile_of(lon, z) < pow2(z),
        west_micro_of(xtile_of(lon, z), z) <= lon,
        lon <= west_micro_of(xtile_of(lon, z) + 1, z),
{
    let s = LON_SPAN_MICRO as int;
    let n = pow2(z) as int;
    let l = lon + LON_HALF_MICRO;
    let x = xtile_of(lon, z);
    lemma_pow2_pos(z);
    if z < 28 {
        lemma_pow2_strictly_increases(z, 28);
    }
    lemma2_to64();

    // Bounds: 0 <= x < 2^z.
    lemma_mul_inequality(0, l, n);
    lemma_div_pos_is_pos(l * n, s);
    lemma_mul_strict_inequality(l, s, n);
    assert(l * n < s * n);
    assert(s * n == n * s) by (nonlinear_arith);
    lemma_multiply_divide_lt(l * n, s, n);

    // West side: x * s <= l * n, hence (x * s) / n <= l.
    lemma_fundamental_div_mod(l * n, s);
    assert(l * n == s * x + (l * n) % s);
    assert(x * s <= l * n) by (nonlinear_arith)
        requires
            l * n == s * x + (l * n) % s,
            (l * n) % s >= 0,
    ;
    lemma_div_is_ordered(x * s, l * n, n);
    lemma_div_multiples_vanish(l, n);
    assert((l * n) / n == (n * l) / n) by (nonlinear_arith);
    assert((x * s) / n <= l);

    // East side: l * n < (x + 1) * s, hence l <= ((x + 1) * s) / n.
    assert(l * n < (x + 1) * s) by (nonlinear_arith)
        requires
            l * n == s * x + (l * n) % s,
            (l * n) % s < s,
    ;
    lemma_div_is_ordered(l * n, (x + 1) * s, n);
    assert(l <= ((x + 1) * s) / n);
}

/// Exact round trip on the projected latitude axis: `deg2num` picks the
/// tile row whose `num2deg` corners strictly enclose the original
/// projected latitude.
pub proof fn lemma_roundtrip_merc(m: int, z: nat)
    requires
        z <= MAX_ZOOM,
        0 <= m < MERC_ONE as int,
    ensures
        0 <= ytile_of(m, z) < pow2(z),
        north_merc_of(ytile_of(m, z), z) <= m,
        m < north_merc_of(ytile_of(m, z) + 1, z),
{
    let one = MERC_ONE as int;
    let n = pow2(z) as int;
    let q = pow2((32 - z) as nat) as int;
    let y = ytile_of(m, z);
    lemma_pow2_pos(z);
    lemma_pow2_pos((32 - z) as nat);
    lemma_pow2_adds(z, (32 - z) as nat);
    lemma2_to64();
    assert(n * q == one);

    // Bounds: 0 <= y < 2^z.
    lemma_mul_inequality(0, m, n);
    lemma_div_pos_is_pos(m * n, one);
    lemma_mul_strict_inequality(m, one, n);
    assert(m * n < one * n);
    assert(one * n == n * one) by (nonlinear_arith);
    lemma_multiply_divide_lt(m * n, one, n);

    // North side: y * one <= m * n, and dividing the exact multiple by n
    // cancels to y * q <= m.
    lemma_fundamental_div_mod(m * n, one);
    assert(m * n == one * y + (m * n) % one);
    assert(y * q <= m) by (nonlinear_arith)
        requires
            m * n == one * y + (m * n) % one,
            (m * n) % one >= 0,
            n * q == one,
            n > 0,
    ;
    // South side: m * n < (y + 1) * one, cancelling n gives m < (y + 1) * q.
    assert(m < (y + 1) * q) by (nonlinear_arith)
        requires
            m * n == one * y + (m * n) % one,
            (m * n) % one < one,
            n * q == one,
            n > 0,
    ;
}

/// Corner-snapping round trip: for any on-map point, `deg2num` picks
/// the tile whose `num2deg` corners enclose the point — exactly on the
/// projected latitude axis, and up to the microdegree rounding of the
/// corner longitude on the longitude axis.
pub proof fn lemma_deg2num_num2deg_roundtrip(p: MercatorPoint, z: nat)
    requires
        p.wf(),
        z <= MAX_ZOOM,
    ensures
        0 <= xtile_of(p.lon_micro as int, z) < pow2(z),
        0 <= ytile_of(p.merc_y as int, z) < pow2(z),
        west_micro_of(xtile_of(p.lon_micro as int, z), z) <= p.lon_micro,
        p.lon_micro <= west_micro_of(xtile_of(p.lon_micro as int, z) + 1, z),
        north_merc_of(ytile_of(p.merc_y as int, z), z) <= p.merc_y,
        p.merc_y < north_merc_of(ytile_of(p.merc_y as int, z) + 1, z),
{
    lemma_roundtrip_lon(p.lon_micro as int, z);
    lemma_roundtrip_merc(p.merc_y as int, z);
}

} // verus!
