use terratile::coords::{deg2num, num2deg, tiles_per_axis, MercatorPoint, MERC_ONE};

/// Projected latitude fraction of `lat` degrees, scaled to `MERC_ONE`.
fn merc_of_lat(lat_deg: f64) -> u64 {
    let m = (1.0 - lat_deg.to_radians().tan().asinh() / std::f64::consts::PI) / 2.0;
    (m * MERC_ONE as f64) as u64
}

fn point(lat_deg: f64, lon_micro: i64) -> MercatorPoint {
    MercatorPoint {
        lon_micro,
        merc_y: merc_of_lat(lat_deg),
    }
}

#[test]
fn deg2num_reference_viewpoint() {
    // The driver's default viewpoint.
    let p = point(38.272688, -120_234_375);
    let t = deg2num(p, 10);
    assert_eq!(t.z, 10);
    assert_eq!(t.x, 170);
    // Same value the floating-point slippy-map formula yields.
    let yf = ((1.0 - (38.272688f64).to_radians().tan().asinh() / std::f64::consts::PI) / 2.0
        * 1024.0)
        .floor() as u32;
    assert_eq!(t.y, yf);
    assert_eq!(t.y, 394);
}

#[test]
fn num2deg_reference_tile_corner() {
    // 170 * 360e6 / 1024 is exact, so the west corner comes out to the
    // microdegree.
    let (lon, merc) = num2deg(170, 394, 10);
    assert_eq!(lon, -120_234_375);
    assert_eq!(merc, 394u64 << 22);
}

#[test]
fn num2deg_map_corners() {
    let (lon_w, merc_n) = num2deg(0, 0, 5);
    assert_eq!(lon_w, -180_000_000);
    assert_eq!(merc_n, 0);
    let (lon_e, merc_s) = num2deg(32, 32, 5);
    assert_eq!(lon_e, 180_000_000);
    assert_eq!(merc_s, MERC_ONE);
}

#[test]
fn tiles_per_axis_values() {
    assert_eq!(tiles_per_axis(0), 1);
    assert_eq!(tiles_per_axis(10), 1024);
    assert_eq!(tiles_per_axis(28), 1 << 28);
}

#[test]
fn roundtrip_bounding_box_contains_point() {
    // deg2num then num2deg: the chosen tile's corners enclose the point.
    for &(lat, lon) in &[
        (38.272688f64, -120_234_375i64),
        (-33.856789, 151_215_296),
        (0.0, 1),
        (84.9, -179_999_999),
        (-84.9, 179_999_999),
    ] {
        for z in 0..15u32 {
            let p = point(lat, lon);
            let t = deg2num(p, z);
            let (west, north) = num2deg(t.x, t.y, z);
            let (east, south) = num2deg(t.x + 1, t.y + 1, z);
            assert!(west <= p.lon_micro, "west {west} lon {lon} z {z}");
            assert!(p.lon_micro <= east, "east {east} lon {lon} z {z}");
            assert!(north <= p.merc_y, "north {north} z {z}");
            assert!(p.merc_y < south, "south {south} z {z}");
        }
    }
}

#[test]
fn lon_strictly_increasing_in_x() {
    // For fixed zoom the west corner longitude strictly increases with
    // the tile column, across the whole row.
    for z in [0u32, 1, 4, 9, 13] {
        let n = tiles_per_axis(z);
        let mut prev = num2deg(0, 0, z).0;
        for x in 1..=(n as u32) {
            let lon = num2deg(x, 0, z).0;
            assert!(lon > prev, "z {z} x {x}: {lon} vs {prev}");
            prev = lon;
        }
    }
}

#[test]
fn east_edge_maps_to_last_tile() {
    let p = MercatorPoint {
        lon_micro: 179_999_999,
        merc_y: MERC_ONE - 1,
    };
    let t = deg2num(p, 6);
    assert_eq!(t.x, 63);
    assert_eq!(t.y, 63);
}
