//! When the compiler world may serve a file from its cache, and when it has
//! to look at the disk again.
//!
//! A cached file remembers the modification time it was read with and when
//! that was last checked. Within a second of the last check it is served as
//! it is; after that its modification time is read again, and only a changed
//! time makes the world read the file anew.
use vstd::prelude::*;

verus! {

/// How long, in nanoseconds, a check of a cached file holds: one second.
pub const RECHECK_INTERVAL_NANOS: u128 = 1_000_000_000;

/// What the cache remembers of a file: the modification time it was read
/// with (in nanoseconds since the epoch, if the file system gave one) and
/// when (on a monotonic clock, in nanoseconds) it was last checked.
#[derive(Debug, Clone, Copy, PartialEq, Eq, Structural)]
pub struct CacheStamp {
    pub mtime: Option<u128>,
    pub last_checked: u128,
}

/// `Instant::duration_since`: the time from `earlier` to `now`, or zero when
/// `earlier` is later.
pub open spec fn since(now: u128, earlier: u128) -> u128 {
    if now >= earlier {
        (now - earlier) as u128
    } else {
        0
    }
}

/// A cached file was checked less than a second ago.
pub open spec fn is_fresh(entry: Option<CacheStamp>, now: u128) -> bool {
    match entry {
        Some(e) => since(now, e.last_checked) < RECHECK_INTERVAL_NANOS,
        None => false,
    }
}

/// Whether the cached file can be served without looking at the disk.
pub fn serve_without_check(entry: Option<CacheStamp>, now: u128) -> (r: bool)
    ensures
        r == is_fresh(entry, now),
{
    match entry {
        Some(e) => {
            let elapsed: u128 = if now >= e.last_checked {
                now - e.last_checked
            } else {
                0
            };
            elapsed < RECHECK_INTERVAL_NANOS
        },
        None => false,
    }
}

/// After reading the modification time `mtime` at `now`: a cached file with
/// the same modification time is served, and its check time moves to `now`;
/// `None` where the file must be read again.
pub open spec fn revalidated(entry: Option<CacheStamp>, mtime: Option<u128>, now: u128) -> Option<CacheStamp> {
    match entry {
        Some(e) => if e.mtime == mtime {
            Some(CacheStamp { mtime: e.mtime, last_checked: now })
        } else {
            None
        },
        None => None,
    }
}

/// Decides, once the modification time is known, whether the cached file is
/// still good; if so returns its updated stamp.
pub fn revalidate(entry: Option<CacheStamp>, mtime: Option<u128>, now: u128) -> (r: Option<CacheStamp>)
    ensures
        r == revalidated(entry, mtime, now),
{
    match entry {
        Some(e) => {
            if e.mtime == mtime {
                Some(CacheStamp { mtime: e.mtime, last_checked: now })
            } else {
                None
            }
        },
        None => None,
    }
}

/// The stamp of a file read from disk at `now` with modification time `mtime`.
pub fn stamp_after_read(mtime: Option<u128>, now: u128) -> (r: CacheStamp)
    ensures
        r == (CacheStamp { mtime, last_checked: now }),
{
    CacheStamp { mtime, last_checked: now }
}

/// Why reading a file failed, as far as the world reports it.
#[derive(Debug, Clone, Copy, PartialEq, Eq, Structural)]
pub enum IoFailure {
    NotFound,
    PermissionDenied,
    Other,
}

/// The error the world reports for a file it could not read.
#[derive(Debug, Clone, PartialEq, Eq)]
pub enum FileFailure {
    /// The file at this path does not exist.
    NotFound(String),
    AccessDenied,
    Other,
}

/// Maps a failed read of `path` to the world's file error.
pub fn file_failure(kind: IoFailure, path: String) -> (r: FileFailure)
    ensures
        kind == IoFailure::NotFound ==> (r matches FileFailure::NotFound(p) && p@ == path@),
        kind == IoFailure::PermissionDenied ==> r == FileFailure::AccessDenied,
        kind == IoFailure::Other ==> r == FileFailure::Other,
{
    match kind {
        IoFailure::NotFound => FileFailure::NotFound(path),
        IoFailure::PermissionDenied => FileFailure::AccessDenied,
        IoFailure::Other => FileFailure::Other,
    }
}

/// A file that was just read or revalidated is served from the cache,
/// without looking at the disk, for the next second.
pub proof fn lemma_checked_file_stays_fresh(entry: Option<CacheStamp>, mtime: Option<u128>, now: u128, later: u128)
    requires
        now <= later,
        later - now < RECHECK_INTERVAL_NANOS,
    ensures
        is_fresh(Some(CacheStamp { mtime, last_checked: now }), later),
        revalidated(entry, mtime, now) matches Some(s) ==> is_fresh(Some(s), later),
{
}

/// A cached file whose modification time did not change keeps the text it
/// was read with: revalidation never changes the remembered time.
pub proof fn lemma_revalidate_keeps_mtime(entry: Option<CacheStamp>, mtime: Option<u128>, now: u128)
    ensures
        revalidated(entry, mtime, now) matches Some(s) ==> (entry matches Some(e) && s.mtime == e.mtime
            && s.mtime == mtime),
{
}

} // verus!
