//! Download-or-reuse protocol for tile resources, with per-key request
//! coalescing.
//!
//! A resource is cached under a fixed file name (see `naming`); the file
//! existing on disk is the cache-hit signal.  The shell owns the disk
//! and the network; this module owns every decision: a cached path is
//! reused without any network call, a path with a download already in
//! flight is not requested a second time, and only otherwise is a
//! download started.  A failed download caches nothing and is not
//! retried within the cycle; a later request for the same key may start
//! over.
//!
//! The tracker below is the explicit coalescing map: each key the
//! control loop ever asked for carries a pending / done / failed status.

use vstd::prelude::*;

verus! {

use crate::coords::TileCoordinate;

/// What a tile resource holds.
#[derive(Clone, Copy, Debug, PartialEq, Eq, Structural, Hash)]
pub enum TileKind {
    Imagery,
    Elevation,
}

/// Cache key: one resource of one tile.
#[derive(Clone, Copy, Debug, PartialEq, Eq, Structural, Hash)]
pub struct ResourceKey {
    pub kind: TileKind,
    pub tile: TileCoordinate,
}

/// Status of the download unit for one key.
#[derive(Clone, Copy, Debug, PartialEq, Eq, Structural)]
pub enum FetchStatus {
    /// A download was started and has not reported back.
    Pending,
    /// The last download for this key succeeded and wrote the file.
    Done,
    /// The last download for this key failed; nothing was cached.
    Failed,
}

/// What the control loop must do for one request.
#[derive(Clone, Copy, Debug, PartialEq, Eq, Structural)]
pub enum FetchAction {
    /// The file is on disk: reuse it, no network call.
    UseCached,
    /// A download for this key is already in flight: wait for it.
    AlreadyInFlight,
    /// Start a download for this key.
    StartDownload,
}

/// Status of `k` in the entry list: the status stored beside the last
/// occurrence of `k`, or `None` when `k` never occurs.
pub open spec fn spec_status(s: Seq<(ResourceKey, FetchStatus)>, k: ResourceKey) -> Option<
    FetchStatus,
>
    decreases s.len(),
{
    if s.len() == 0 {
        None
    } else if s.last().0 == k {
        Some(s.last().1)
    } else {
        spec_status(s.drop_last(), k)
    }
}

/// The decision the protocol makes for a request, as a function of the
/// disk (`cached`) and of the key's tracked status.  A cached path is
/// always reused; an in-flight download is never doubled; everything
/// else (never requested, failed earlier, or marked done but with the
/// file gone from disk) starts a download.
pub open spec fn fetch_decision(status: Option<FetchStatus>, cached: bool) -> FetchAction {
    if cached {
        FetchAction::UseCached
    } else if status == Some(FetchStatus::Pending) {
        FetchAction::AlreadyInFlight
    } else {
        FetchAction::StartDownload
    }
}

/// A cached path is reused as-is: however often a key is requested
/// against a path that is already on disk, the decision is `UseCached`
/// and no download is ever issued.
pub proof fn lemma_cached_path_never_downloads(status: Option<FetchStatus>)
    ensures
        fetch_decision(status, true) == FetchAction::UseCached,
        fetch_decision(status, true) != FetchAction::StartDownload,
{
}

/// The request-coalescing map: every key requested so far, with the
/// status of its download unit.
pub struct RequestTracker {
    pub entries: Vec<(ResourceKey, FetchStatus)>,
}

impl RequestTracker {
    /// Each key occurs at most once.
    pub open spec fn wf(self) -> bool {
        forall|i: int, j: int|
            0 <= i < j < self.entries@.len() ==> self.entries@[i].0 != self.entries@[j].0
    }

    /// Tracked status of `k`.
    pub open spec fn status(self, k: ResourceKey) -> Option<FetchStatus> {
        spec_status(self.entries@, k)
    }

    /// An empty tracker: nothing requested yet.
    pub fn new() -> (r: RequestTracker)
        ensures
            r.wf(),
            forall|k: ResourceKey| r.status(k) == Option::<FetchStatus>::None,
    {
        let r = RequestTracker { entries: Vec::new() };
        proof {
            assert(forall|k: ResourceKey| r.status(k) == Option::<FetchStatus>::None);
        }
        r
    }

    /// Index of `k` in the entry list, if present.
    fn find(&self, k: ResourceKey) -> (r: Option<usize>)
        requires
            self.wf(),
        ensures
            match r {
                Some(i) => i < self.entries@.len() && self.entries@[i as int].0 == k && self.status(
                    k,
                ) == Some(self.entries@[i as int].1),
                None => self.status(k) == Option::<FetchStatus>::None,
            },
    {
        let n = self.entries.len();
        let mut i: usize = 0;
        while i < n
            invariant
                self.wf(),
                n == self.entries@.len(),
                i <= n,
                forall|j: int| 0 <= j < i ==> self.entries@[j].0 != k,
            decreases n - i,
        {
            let (key, _st) = self.entries[i];
            if key == k {
                proof {
                    lemma_status_found(self.entries@, k, i as int);
                }
                return Some(i);
            }
            i = i + 1;
        }
        proof {
            lemma_status_of_absent(self.entries@, k);
        }
        None
    }

    /// Record `st` for `k`, replacing any earlier status.
    fn set_status(&mut self, k: ResourceKey, st: FetchStatus)
        requires
            old(self).wf(),
        ensures
            final(self).wf(),
            final(self).status(k) == Some(st),
            forall|k2: ResourceKey| k2 != k ==> final(self).status(k2) == old(self).status(k2),
    {
        let found = self.find(k);
        match found {
            Some(i) => {
                let ghost before = self.entries@;
                self.entries.set(i, (k, st));
                proof {
                    lemma_status_found(self.entries@, k, i as int);
                    assert forall|k2: ResourceKey| k2 != k implies spec_status(self.entries@, k2)
                        == spec_status(before, k2) by {
                        lemma_status_update_other(before, i as int, (k, st), k2);
                    }
                }
            },
            None => {
                let ghost before = self.entries@;
                self.entries.push((k, st));
                proof {
                    lemma_status_of_absent_converse(before, k);
                    assert(self.entries@.drop_last() =~= before);
                    assert forall|k2: ResourceKey| k2 != k implies spec_status(self.entries@, k2)
                        == spec_status(before, k2) by {
                        assert(self.entries@.last().0 != k2);
                    }
                }
            },
        }
    }

    /// One download-or-reuse request for `k`.  `cached` reports whether
    /// the file for `k` is on disk.  Returns the protocol's decision and
    /// tracks a started download as pending.
    pub fn fetch_or_reuse(&mut self, k: ResourceKey, cached: bool) -> (r: FetchAction)
        requires
            old(self).wf(),
        ensures
            final(self).wf(),
            r == fetch_decision(old(self).status(k), cached),
            r == FetchAction::StartDownload ==> final(self).status(k) == Some(FetchStatus::Pending),
            r != FetchAction::StartDownload ==> *final(self) == *old(self),
            forall|k2: ResourceKey| k2 != k ==> final(self).status(k2) == old(self).status(k2),
    {
        if cached {
            FetchAction::UseCached
        } else {
            let found = self.find(k);
            let in_flight = match found {
                Some(i) => {
                    let (_key, st) = self.entries[i];
                    st == FetchStatus::Pending
                },
                None => false,
            };
            if in_flight {
                FetchAction::AlreadyInFlight
            } else {
                self.set_status(k, FetchStatus::Pending);
                FetchAction::StartDownload
            }
        }
    }

    /// A download unit for `k` reported back: record success or failure.
    pub fn complete(&mut self, k: ResourceKey, success: bool)
        requires
            old(self).wf(),
        ensures
            final(self).wf(),
            final(self).status(k) == Some(
                if success {
                    FetchStatus::Done
                } else {
                    FetchStatus::Failed
                },
            ),
            forall|k2: ResourceKey| k2 != k ==> final(self).status(k2) == old(self).status(k2),
    {
        if success {
            self.set_status(k, FetchStatus::Done);
        } else {
            self.set_status(k, FetchStatus::Failed);
        }
    }
}

/// In a duplicate-free entry list, the status of a present key is the
/// status stored beside it.
proof fn lemma_status_found(s: Seq<(ResourceKey, FetchStatus)>, k: ResourceKey, i: int)
    requires
        forall|a: int, b: int| 0 <= a < b < s.len() ==> s[a].0 != s[b].0,
        0 <= i < s.len(),
        s[i].0 == k,
    ensures
        spec_status(s, k) == Some(s[i].1),
    decreases s.len(),
{
    if i == s.len() - 1 {
    } else {
        assert(s.last().0 != k);
        lemma_status_found(s.drop_last(), k, i);
    }
}

/// A key that occurs nowhere in the entry list has no status.
proof fn lemma_status_of_absent(s: Seq<(ResourceKey, FetchStatus)>, k: ResourceKey)
    requires
        forall|j: int| 0 <= j < s.len() ==> s[j].0 != k,
    ensures
        spec_status(s, k) == Option::<FetchStatus>::None,
    decreases s.len(),
{
    if s.len() > 0 {
        lemma_status_of_absent(s.drop_last(), k);
    }
}

/// A key with no status occurs nowhere in the entry list.
proof fn lemma_status_of_absent_converse(s: Seq<(ResourceKey, FetchStatus)>, k: ResourceKey)
    requires
        spec_status(s, k) == Option::<FetchStatus>::None,
    ensures
        forall|j: int| 0 <= j < s.len() ==> s[j].0 != k,
    decreases s.len(),
{
    if s.len() > 0 {
        assert(s.last().0 != k);
        lemma_status_of_absent_converse(s.drop_last(), k);
        assert forall|j: int| 0 <= j < s.len() implies s[j].0 != k by {
            if j < s.len() - 1 {
                assert(s.drop_last()[j].0 != k);
            }
        }
    }
}

/// Updating the entry at `i` does not change the status of keys other
/// than the two keys involved in the update.
proof fn lemma_status_update_other(
    s: Seq<(ResourceKey, FetchStatus)>,
    i: int,
    e: (ResourceKey, FetchStatus),
    k2: ResourceKey,
)
    requires
        0 <= i < s.len(),
        s[i].0 != k2,
        e.0 != k2,
    ensures
        spec_status(s.update(i, e), k2) == spec_status(s, k2),
    decreases s.len(),
{
    let s2 = s.update(i, e);
    if i == s.len() - 1 {
        assert(s2.last().0 != k2);
        assert(s.last().0 != k2);
        assert(s2.drop_last() =~= s.drop_last());
    } else {
        assert(s2.last() == s.last());
        if s.last().0 == k2 {
        } else {
            assert(s2.drop_last() =~= s.drop_last().update(i, e));
            lemma_status_update_other(s.drop_last(), i, e, k2);
        }
    }
}

} // verus!
