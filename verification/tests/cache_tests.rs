use terratile::cache::{FetchAction, FetchStatus, RequestTracker, ResourceKey, TileKind};
use terratile::coords::TileCoordinate;

fn key(x: u32, y: u32, z: u32, kind: TileKind) -> ResourceKey {
    ResourceKey {
        kind,
        tile: TileCoordinate { x, y, z },
    }
}

#[test]
fn cached_path_is_reused_without_download() {
    // The idempotence law: against an already-cached path the decision
    // is always plain reuse, never a network call.
    let mut tracker = RequestTracker::new();
    let k = key(1, 2, 3, TileKind::Imagery);
    assert_eq!(tracker.fetch_or_reuse(k, true), FetchAction::UseCached);
    assert_eq!(tracker.fetch_or_reuse(k, true), FetchAction::UseCached);
}

#[test]
fn download_then_reuse() {
    let mut tracker = RequestTracker::new();
    let k = key(4, 5, 6, TileKind::Elevation);
    // Nothing on disk, nothing in flight: start a download.
    assert_eq!(tracker.fetch_or_reuse(k, false), FetchAction::StartDownload);
    tracker.complete(k, true);
    // The file is now on disk: the second invocation issues no call.
    assert_eq!(tracker.fetch_or_reuse(k, true), FetchAction::UseCached);
}

#[test]
fn concurrent_requests_coalesce() {
    // Two requests for the same key before the download reports back:
    // only the first starts a download.
    let mut tracker = RequestTracker::new();
    let k = key(7, 8, 9, TileKind::Imagery);
    assert_eq!(tracker.fetch_or_reuse(k, false), FetchAction::StartDownload);
    assert_eq!(
        tracker.fetch_or_reuse(k, false),
        FetchAction::AlreadyInFlight
    );
    assert_eq!(
        tracker.fetch_or_reuse(k, false),
        FetchAction::AlreadyInFlight
    );
}

#[test]
fn distinct_keys_do_not_coalesce() {
    let mut tracker = RequestTracker::new();
    let a = key(1, 1, 4, TileKind::Imagery);
    let b = key(1, 1, 4, TileKind::Elevation);
    let c = key(2, 1, 4, TileKind::Imagery);
    assert_eq!(tracker.fetch_or_reuse(a, false), FetchAction::StartDownload);
    assert_eq!(tracker.fetch_or_reuse(b, false), FetchAction::StartDownload);
    assert_eq!(tracker.fetch_or_reuse(c, false), FetchAction::StartDownload);
    assert_eq!(tracker.fetch_or_reuse(a, false), FetchAction::AlreadyInFlight);
}

#[test]
fn failure_caches_nothing_and_a_later_request_retries() {
    let mut tracker = RequestTracker::new();
    let k = key(3, 3, 5, TileKind::Elevation);
    assert_eq!(tracker.fetch_or_reuse(k, false), FetchAction::StartDownload);
    tracker.complete(k, false);
    // The failed download wrote no file; a later cycle may start over.
    assert_eq!(tracker.fetch_or_reuse(k, false), FetchAction::StartDownload);
}

#[test]
fn status_is_tracked() {
    let mut tracker = RequestTracker::new();
    let k = key(0, 0, 1, TileKind::Imagery);
    tracker.fetch_or_reuse(k, false);
    tracker.complete(k, true);
    // A done download whose file later vanished from disk is fetched anew.
    assert_eq!(tracker.fetch_or_reuse(k, false), FetchAction::StartDownload);
    let _ = FetchStatus::Pending;
}
