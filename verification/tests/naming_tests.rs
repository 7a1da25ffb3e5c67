use terratile::coords::TileCoordinate;
use terratile::naming::{
    decimal_string, dem_request, imagery_request, lerc_request, push_micro_deg, TILE_REFERER,
};

#[test]
fn decimal_strings_exact() {
    assert_eq!(decimal_string(0), "0");
    assert_eq!(decimal_string(7), "7");
    assert_eq!(decimal_string(42), "42");
    assert_eq!(decimal_string(1000), "1000");
    assert_eq!(decimal_string(u32::MAX), "4294967295");
}

#[test]
fn micro_degrees_exact() {
    let mut s = String::new();
    push_micro_deg(&mut s, -120_234_375);
    assert_eq!(s, "-120.234375");
    let mut s = String::new();
    push_micro_deg(&mut s, 38_272_688);
    assert_eq!(s, "38.272688");
    let mut s = String::new();
    push_micro_deg(&mut s, 0);
    assert_eq!(s, "0.000000");
    let mut s = String::new();
    push_micro_deg(&mut s, -1);
    assert_eq!(s, "-0.000001");
    let mut s = String::new();
    push_micro_deg(&mut s, 180_000_000);
    assert_eq!(s, "180.000000");
}

#[test]
fn imagery_request_flips_the_column() {
    let t = TileCoordinate { x: 170, y: 393, z: 10 };
    let r = imagery_request(t);
    // 2^10 - 170 - 1 = 853.
    assert_eq!(
        r.url,
        "https://server.arcgisonline.com/ArcGIS/rest/services/World_Imagery/MapServer/tile/10/393/853"
    );
    assert_eq!(r.filename, "assets/images/imagery_853_393_10.jpeg");
}

#[test]
fn lerc_request_uses_plain_indices() {
    let t = TileCoordinate { x: 170, y: 393, z: 10 };
    let r = lerc_request(t);
    assert_eq!(
        r.url,
        "https://services.arcgisonline.com/arcgis/rest/services/WorldElevation3D/Terrain3D/ImageServer/tile/10/393/170"
    );
    assert_eq!(r.filename, "assets/images/topo_170_393_10.lerc");
}

#[test]
fn dem_request_bounding_box() {
    let t = TileCoordinate { x: 170, y: 393, z: 10 };
    // The corner latitudes come from the inverse projection outside the
    // library; any plain values serve here.
    let r = dem_request(t, 38_000_000, 38_300_000);
    // West corner: 170 * 360e6 / 1024 - 180e6 = -120.234375 exactly.
    // East corner: floor(171 * 360e6 / 1024) - 180e6 = -119.882813.
    assert_eq!(
        r.url,
        "https://portal.opentopography.org/API/globaldem?demtype=SRTMGL1&west=-120.234375&east=-119.882813&south=38.000000&north=38.300000&outputFormat=GTiff"
    );
    assert_eq!(r.filename, "assets/images/topo_170_393_10.tiff");
}

#[test]
fn referer_header_value() {
    assert_eq!(TILE_REFERER, "https://www.google.com/maps");
}
