use terratile::coords::{deg2num, MercatorPoint, TileCoordinate, MERC_ONE};
use terratile::manager::{
    contains_tile, diff_tiles, globe_needs_rebuild, globe_ring, keep_completed, region_tiles,
    tile_is_stale, GlobeView, TileInfo, Viewpoint, REGION_MIN_ZOOM,
};

fn merc_of_lat(lat_deg: f64) -> u64 {
    let m = (1.0 - lat_deg.to_radians().tan().asinh() / std::f64::consts::PI) / 2.0;
    (m * MERC_ONE as f64) as u64
}

fn viewpoint(lat_deg: f64, lon_micro: i64, zoom: u32) -> Viewpoint {
    Viewpoint {
        pos: MercatorPoint {
            lon_micro,
            merc_y: merc_of_lat(lat_deg),
        },
        zoom,
    }
}

#[test]
fn zoom_ten_needs_the_single_anchor_tile() {
    let vp = viewpoint(38.272688, -120_234_375, 10);
    let tiles = region_tiles(vp, REGION_MIN_ZOOM);
    assert_eq!(tiles.len(), 1);
    assert_eq!(tiles[0], TileCoordinate { x: 170, y: 394, z: 10 });
}

#[test]
fn at_or_below_min_zoom_nothing_is_needed() {
    let vp = viewpoint(38.272688, -120_234_375, 9);
    assert_eq!(region_tiles(vp, REGION_MIN_ZOOM).len(), 0);
    let vp = viewpoint(38.272688, -120_234_375, 5);
    assert_eq!(region_tiles(vp, REGION_MIN_ZOOM).len(), 0);
}

#[test]
fn raising_zoom_retires_the_old_tile_and_enqueues_four() {
    // End to end: the default viewpoint at zoom 10 resolves to one tile;
    // raising the zoom to 11 with identical position retires it and
    // enqueues exactly 2 * 2 new tiles.
    let vp10 = viewpoint(38.272688, -120_234_375, 10);
    let active = region_tiles(vp10, REGION_MIN_ZOOM);
    assert_eq!(active.len(), 1);

    let vp11 = viewpoint(38.272688, -120_234_375, 11);
    let needed = region_tiles(vp11, REGION_MIN_ZOOM);
    assert_eq!(needed.len(), 4);
    let anchor = deg2num(vp11.pos, 11);
    for i in 0..2 {
        for j in 0..2 {
            let t = TileCoordinate {
                x: anchor.x + i,
                y: anchor.y + j,
                z: 11,
            };
            assert!(contains_tile(&needed, t));
        }
    }

    let retire = diff_tiles(&active, &needed);
    let enqueue = diff_tiles(&needed, &active);
    assert_eq!(retire.len(), 1);
    assert_eq!(retire[0], active[0]);
    assert_eq!(enqueue.len(), 4);
}

#[test]
fn unchanged_viewpoint_diffs_to_nothing() {
    let vp = viewpoint(38.272688, -120_234_375, 11);
    let a = region_tiles(vp, REGION_MIN_ZOOM);
    let b = region_tiles(vp, REGION_MIN_ZOOM);
    assert_eq!(diff_tiles(&a, &b).len(), 0);
    assert_eq!(diff_tiles(&b, &a).len(), 0);
}

#[test]
fn globe_ring_wraps_modulo_the_grid() {
    let ring = globe_ring(TileCoordinate { x: 0, y: 0, z: 3 });
    assert_eq!(ring.len(), 25);
    // First entry: offsets (-2, -2) wrapped into the 8-tile grid.
    assert_eq!(ring[0], TileCoordinate { x: 6, y: 6, z: 3 });
    // Center entry: offsets (0, 0).
    assert_eq!(ring[12], TileCoordinate { x: 0, y: 0, z: 3 });
    // Last entry: offsets (2, 2).
    assert_eq!(ring[24], TileCoordinate { x: 2, y: 2, z: 3 });
    assert!(ring.iter().all(|t| t.x < 8 && t.y < 8 && t.z == 3));
}

#[test]
fn globe_rebuild_on_any_center_or_zoom_change() {
    let a = GlobeView {
        tile_x: 3,
        tile_y: 4,
        zoom: 5,
    };
    assert!(!globe_needs_rebuild(a, a));
    assert!(globe_needs_rebuild(a, GlobeView { tile_x: 2, ..a }));
    assert!(globe_needs_rebuild(a, GlobeView { tile_y: 5, ..a }));
    assert!(globe_needs_rebuild(a, GlobeView { zoom: 6, ..a }));
}

#[test]
fn stale_tiles_and_completions() {
    let vp = viewpoint(38.272688, -120_234_375, 10);
    let info = |base: MercatorPoint, z: u32| TileInfo {
        base,
        x_offset: 0,
        y_offset: 0,
        z,
        topo_filename: String::new(),
        image_filename: String::new(),
    };
    // Same position and zoom: still current.
    assert!(!tile_is_stale(&info(vp.pos, 10), vp));
    // Other zoom or other position: stale.
    assert!(tile_is_stale(&info(vp.pos, 11), vp));
    let other = MercatorPoint {
        lon_micro: 0,
        merc_y: vp.pos.merc_y,
    };
    assert!(tile_is_stale(&info(other, 10), vp));
    // A completed unit is kept only when zoom and position both still
    // match the viewpoint it was started for.
    assert!(keep_completed(&info(vp.pos, 10), vp));
    assert!(!keep_completed(&info(vp.pos, 11), vp));
    assert!(!keep_completed(&info(other, 10), vp));
}
