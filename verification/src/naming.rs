//! Tile resource naming: the URL of each remote request and the local
//! file name it is cached under.
//!
//! The file name doubles as the cache key, so it must be reproduced
//! byte-for-byte across runs; the contracts here pin every character.
//! Imagery and the compressed elevation raster are addressed by tile
//! indices alone, so their URLs and file names are pinned byte for
//! byte.  The bounding-box elevation query embeds the corner
//! coordinates of the tile in degrees, written as a fixed six-digit
//! fraction: exact for the microdegree values the library carries, but
//! a corner whose exact position falls between microdegrees is rounded
//! down to one first, so this one URL family is pinned only up to
//! microdegree quantization.

use vstd::prelude::*;

verus! {

use vstd::string::StringExecFns;
use crate::coords::TileCoordinate;
use vstd::arithmetic::power2::pow2;
use vstd::arithmetic::power2::lemma_pow2_pos;

/// Referer header sent with every tile request.
pub const TILE_REFERER: &'static str = "https://www.google.com/maps";

/// Decimal digit character for `d` in [0, 10).
pub open spec fn digit_char(d: int) -> char {
    if d == 0 {
        '0'
    } else if d == 1 {
        '1'
    } else if d == 2 {
        '2'
    } else if d == 3 {
        '3'
    } else if d == 4 {
        '4'
    } else if d == 5 {
        '5'
    } else if d == 6 {
        '6'
    } else if d == 7 {
        '7'
    } else if d == 8 {
        '8'
    } else {
        '9'
    }
}

/// Decimal digits of `n`, most significant first, no leading zeros
/// (a single `'0'` for zero).
pub open spec fn dec_digits(n: nat) -> Seq<char>
    decreases n,
{
    if n < 10 {
        seq![digit_char(n as int)]
    } else {
        dec_digits(n / 10) + seq![digit_char((n % 10) as int)]
    }
}

/// Six decimal digits of `f` in [0, 1_000_000), zero padded.
pub open spec fn frac6_digits(f: nat) -> Seq<char> {
    seq![
        digit_char(((f / 100_000) % 10) as int),
        digit_char(((f / 10_000) % 10) as int),
        digit_char(((f / 1_000) % 10) as int),
        digit_char(((f / 100) % 10) as int),
        digit_char(((f / 10) % 10) as int),
        digit_char((f % 10) as int),
    ]
}

/// A microdegree value written as degrees: optional minus sign, integer
/// degrees without leading zeros, a point, then exactly six fraction
/// digits.
pub open spec fn micro_deg_chars(v: int) -> Seq<char> {
    if v < 0 {
        seq!['-'] + micro_deg_mag_chars((-v) as nat)
    } else {
        micro_deg_mag_chars(v as nat)
    }
}

/// Magnitude part of `micro_deg_chars`.
pub open spec fn micro_deg_mag_chars(a: nat) -> Seq<char> {
    dec_digits(a / 1_000_000) + seq!['.'] + frac6_digits(a % 1_000_000)
}

/// One-character string for decimal digit `d`.
fn digit_str(d: u32) -> (s: &'static str)
    requires
        d < 10,
    ensures
        s@ == seq![digit_char(d as int)],
{
    proof {
        reveal_strlit("0");
        reveal_strlit("1");
        reveal_strlit("2");
        reveal_strlit("3");
        reveal_strlit("4");
        reveal_strlit("5");
        reveal_strlit("6");
        reveal_strlit("7");
        reveal_strlit("8");
        reveal_strlit("9");
    }
    let s: &'static str = if d == 0 {
        "0"
    } else if d == 1 {
        "1"
    } else if d == 2 {
        "2"
    } else if d == 3 {
        "3"
    } else if d == 4 {
        "4"
    } else if d == 5 {
        "5"
    } else if d == 6 {
        "6"
    } else if d == 7 {
        "7"
    } else if d == 8 {
        "8"
    } else {
        "9"
    };
    proof {
        assert(s@ =~= seq![digit_char(d as int)]);
    }
    s
}

/// Append the decimal digits of `n` to `out`.
pub fn push_decimal(out: &mut String, n: u32)
    ensures
        final(out)@ == old(out)@ + dec_digits(n as nat),
    decreases n,
{
    if n < 10 {
        out.append(digit_str(n));
    } else {
        proof {
            assert(n / 10 < n) by (nonlinear_arith)
                requires
                    n >= 10,
            ;
        }
        push_decimal(out, n / 10);
        out.append(digit_str(n % 10));
        proof {
            assert(final(out)@ =~= old(out)@ + dec_digits(n as nat));
        }
    }
}

/// The decimal digits of `n` as a string.
pub fn decimal_string(n: u32) -> (s: String)
    ensures
        s@ == dec_digits(n as nat),
{
    let mut s = String::new();
    push_decimal(&mut s, n);
    proof {
        assert(s@ =~= dec_digits(n as nat));
    }
    s
}

/// Append a microdegree value written as degrees (see `micro_deg_chars`).
pub fn push_micro_deg(out: &mut String, v: i64)
    requires
        -1_000_000_000 <= v <= 1_000_000_000,
    ensures
        final(out)@ == old(out)@ + micro_deg_chars(v as int),
{
    proof {
        reveal_strlit("-");
        reveal_strlit(".");
    }
    let a: i64 = if v < 0 {
        out.append("-");
        -v
    } else {
        v
    };
    let whole: u32 = (a / 1_000_000) as u32;
    let frac: u32 = (a % 1_000_000) as u32;
    push_decimal(out, whole);
    out.append(".");
    out.append(digit_str((frac / 100_000) % 10));
    out.append(digit_str((frac / 10_000) % 10));
    out.append(digit_str((frac / 1_000) % 10));
    out.append(digit_str((frac / 100) % 10));
    out.append(digit_str((frac / 10) % 10));
    out.append(digit_str(frac % 10));
    proof {
        assert(final(out)@ =~= old(out)@ + micro_deg_chars(v as int));
    }
}

/// Tile column addressed by the imagery service: the service counts
/// columns from the opposite edge, so column `x` is requested and cached
/// as `2^z - x - 1`.
pub open spec fn flipped_x(t: TileCoordinate) -> int {
    pow2(t.z as nat) - t.x - 1
}

/// Characters of the cached imagery file name for tile `t`.
pub open spec fn imagery_filename_chars(t: TileCoordinate) -> Seq<char> {
    "assets/images/imagery_"@ + dec_digits(flipped_x(t) as nat) + "_"@ + dec_digits(
        t.y as nat,
    ) + "_"@ + dec_digits(t.z as nat) + ".jpeg"@
}

/// Characters of the imagery tile URL for tile `t`.
pub open spec fn imagery_url_chars(t: TileCoordinate) -> Seq<char> {
    "https://server.arcgisonline.com/ArcGIS/rest/services/World_Imagery/MapServer/tile/"@
        + dec_digits(t.z as nat) + "/"@ + dec_digits(t.y as nat) + "/"@ + dec_digits(
        flipped_x(t) as nat,
    )
}

/// Characters of the cached compressed-elevation file name for tile `t`.
pub open spec fn lerc_filename_chars(t: TileCoordinate) -> Seq<char> {
    "assets/images/topo_"@ + dec_digits(t.x as nat) + "_"@ + dec_digits(t.y as nat) + "_"@
        + dec_digits(t.z as nat) + ".lerc"@
}

/// Characters of the compressed-elevation tile URL for tile `t`.
pub open spec fn lerc_url_chars(t: TileCoordinate) -> Seq<char> {
    "https://services.arcgisonline.com/arcgis/rest/services/WorldElevation3D/Terrain3D/ImageServer/tile/"@
        + dec_digits(t.z as nat) + "/"@ + dec_digits(t.y as nat) + "/"@ + dec_digits(t.x as nat)
}

/// Characters of the cached bounding-box elevation file name for tile `t`.
pub open spec fn dem_filename_chars(t: TileCoordinate) -> Seq<char> {
    "assets/images/topo_"@ + dec_digits(t.x as nat) + "_"@ + dec_digits(t.y as nat) + "_"@
        + dec_digits(t.z as nat) + ".tiff"@
}

/// Characters of the bounding-box elevation query URL, corners in degrees.
pub open spec fn dem_url_chars(west: int, east: int, south: int, north: int) -> Seq<char> {
    "https://portal.opentopography.org/API/globaldem?demtype=SRTMGL1&west="@ + micro_deg_chars(west)
        + "&east="@ + micro_deg_chars(east) + "&south="@ + micro_deg_chars(south) + "&north="@
        + micro_deg_chars(north) + "&outputFormat=GTiff"@
}

/// A remote fetch paired with the local path it is cached under.
pub struct FetchRequest {
    pub url: String,
    pub filename: String,
}

/// At a supported zoom the grid is at most `pow2(MAX_ZOOM)` tiles wide.
proof fn lemma_zoom_grid_small(z: nat)
    requires
        z <= crate::coords::MAX_ZOOM,
    ensures
        pow2(z) <= 0x1000_0000,
{
    if z < 28 {
        vstd::arithmetic::power2::lemma_pow2_strictly_increases(z, 28);
    }
    vstd::arithmetic::power2::lemma2_to64();
}

/// Exec counterpart of `flipped_x`.
fn flip_x(t: TileCoordinate) -> (r: u32)
    requires
        t.wf(),
    ensures
        r == flipped_x(t),
{
    let n = crate::coords::tiles_per_axis(t.z);
    proof {
        lemma_zoom_grid_small(t.z as nat);
    }
    (n - t.x as u64 - 1) as u32
}

/// Build the imagery request for tile `t`: URL and cache file name, both
/// keyed by the flipped column.
pub fn imagery_request(t: TileCoordinate) -> (r: FetchRequest)
    requires
        t.wf(),
    ensures
        r.url@ == imagery_url_chars(t),
        r.filename@ == imagery_filename_chars(t),
{
    let xf = flip_x(t);
    let mut url = String::new();
    url.append(
        "https://server.arcgisonline.com/ArcGIS/rest/services/World_Imagery/MapServer/tile/",
    );
    push_decimal(&mut url, t.z);
    url.append("/");
    push_decimal(&mut url, t.y);
    url.append("/");
    push_decimal(&mut url, xf);
    let mut filename = String::new();
    filename.append("assets/images/imagery_");
    push_decimal(&mut filename, xf);
    filename.append("_");
    push_decimal(&mut filename, t.y);
    filename.append("_");
    push_decimal(&mut filename, t.z);
    filename.append(".jpeg");
    proof {
        assert(url@ =~= imagery_url_chars(t));
        assert(filename@ =~= imagery_filename_chars(t));
    }
    FetchRequest { url, filename }
}

/// Build the compressed-elevation request for tile `t`.
pub fn lerc_request(t: TileCoordinate) -> (r: FetchRequest)
    requires
        t.wf(),
    ensures
        r.url@ == lerc_url_chars(t),
        r.filename@ == lerc_filename_chars(t),
{
    let mut url = String::new();
    url.append(
        "https://services.arcgisonline.com/arcgis/rest/services/WorldElevation3D/Terrain3D/ImageServer/tile/",
    );
    push_decimal(&mut url, t.z);
    url.append("/");
    push_decimal(&mut url, t.y);
    url.append("/");
    push_decimal(&mut url, t.x);
    let filename = topo_filename(t, ".lerc");
    proof {
        assert(url@ =~= lerc_url_chars(t));
        assert(filename@ =~= lerc_filename_chars(t));
    }
    FetchRequest { url, filename }
}

/// Cached elevation file name for tile `t` with the given extension.
fn topo_filename(t: TileCoordinate, ext: &str) -> (r: String)
    ensures
        r@ == "assets/images/topo_"@ + dec_digits(t.x as nat) + "_"@ + dec_digits(t.y as nat)
            + "_"@ + dec_digits(t.z as nat) + ext@,
{
    let mut filename = String::new();
    filename.append("assets/images/topo_");
    push_decimal(&mut filename, t.x);
    filename.append("_");
    push_decimal(&mut filename, t.y);
    filename.append("_");
    push_decimal(&mut filename, t.z);
    filename.append(ext);
    proof {
        assert(filename@ =~= "assets/images/topo_"@ + dec_digits(t.x as nat) + "_"@ + dec_digits(
            t.y as nat,
        ) + "_"@ + dec_digits(t.z as nat) + ext@);
    }
    filename
}

/// Build the bounding-box elevation request for tile `t`.  The west and
/// east corner longitudes come from the verified tile math; the north
/// and south corner latitudes depend on the inverse Mercator projection,
/// so the caller supplies them in microdegrees.
pub fn dem_request(t: TileCoordinate, south_micro: i64, north_micro: i64) -> (r: FetchRequest)
    requires
        t.wf(),
        -90_000_000 <= south_micro <= 90_000_000,
        -90_000_000 <= north_micro <= 90_000_000,
    ensures
        r.url@ == dem_url_chars(
            crate::coords::west_micro_of(t.x as int, t.z as nat),
            crate::coords::west_micro_of(t.x as int + 1, t.z as nat),
            south_micro as int,
            north_micro as int,
        ),
        r.filename@ == dem_filename_chars(t),
{
    proof {
        lemma_pow2_pos(t.z as nat);
        lemma_zoom_grid_small(t.z as nat);
    }
    let (west, _) = crate::coords::num2deg(t.x, t.y, t.z);
    let (east, _) = crate::coords::num2deg(t.x + 1, t.y, t.z);
    let mut url = String::new();
    url.append("https://portal.opentopography.org/API/globaldem?demtype=SRTMGL1&west=");
    push_micro_deg(&mut url, west);
    url.append("&east=");
    push_micro_deg(&mut url, east);
    url.append("&south=");
    push_micro_deg(&mut url, south_micro);
    url.append("&north=");
    push_micro_deg(&mut url, north_micro);
    url.append("&outputFormat=GTiff");
    let filename = topo_filename(t, ".tiff");
    proof {
        assert(url@ =~= dem_url_chars(
            crate::coords::west_micro_of(t.x as int, t.z as nat),
            crate::coords::west_micro_of(t.x as int + 1, t.z as nat),
            south_micro as int,
            north_micro as int,
        ));
        assert(filename@ =~= dem_filename_chars(t));
    }
    FetchRequest { url, filename }
}

} // verus!
