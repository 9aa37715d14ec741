//! The directory lock: one run per directory at a time. A lock file names
//! the process that holds it and when it started; a lock left behind by a
//! process that is gone, or older than a day, or unreadable, is stale and
//! may be taken over.

use vstd::prelude::*;
use std::path::PathBuf;
use crate::paths::{join_name, joined};

verus! {

pub const LOCK_FILE_NAME: &'static str = ".hashrename.lock";

/// Attempts at creating the lock file.
pub const LOCK_ATTEMPTS: usize = 3;

/// Age after which a lock is stale whoever holds it: one day.
pub const STALE_AFTER_MS: u128 = 86400000u128;

/// What a lock file holds.
pub struct LockContent {
    pub pid: u32,
    pub token: String,
    pub started_at_ms: u128,
}

/// What a lock file found in place means.
#[derive(Debug, PartialEq, Eq)]
pub enum Staleness {
    /// It may be taken over.
    Stale,
    /// It is held (by this very process).
    Held,
    /// Stale exactly when this process is no longer alive.
    DependsOn(u32),
}

pub open spec fn staleness_of(content: Option<LockContent>, now_ms: u128, current_pid: u32) -> Staleness {
    match content {
        None => Staleness::Stale,
        Some(c) => if now_ms > c.started_at_ms && now_ms - c.started_at_ms > STALE_AFTER_MS {
            Staleness::Stale
        } else if c.pid == current_pid {
            Staleness::Held
        } else {
            Staleness::DependsOn(c.pid)
        },
    }
}

/// Judges a lock file found in place from its parsed content (`None` when
/// it cannot be read or parsed), the time, and this process's id.
pub fn staleness(content: Option<&LockContent>, now_ms: u128, current_pid: u32) -> (r: Staleness)
    ensures
        r == staleness_of(
            match content {
                Some(c) => Some(*c),
                None => None,
            },
            now_ms,
            current_pid,
        ),
{
    match content {
        None => Staleness::Stale,
        Some(c) => {
            let age: u128 = if now_ms > c.started_at_ms { now_ms - c.started_at_ms } else { 0 };
            if age > STALE_AFTER_MS {
                Staleness::Stale
            } else if c.pid == current_pid {
                Staleness::Held
            } else {
                Staleness::DependsOn(c.pid)
            }
        },
    }
}

/// One run per directory: while the lock that this process wrote less than
/// a day ago is in place, a second run finds it held (and is refused); once
/// the lock file is gone, nothing stands in a run's way.
pub proof fn law_second_run_waits_for_release(c: LockContent, now_ms: u128, pid: u32)
    requires
        c.pid == pid,
        now_ms <= c.started_at_ms + STALE_AFTER_MS,
    ensures
        staleness_of(Some(c), now_ms, pid) == Staleness::Held,
        staleness_of(None, now_ms, pid) == Staleness::Stale,
{
}

/// The lock file of `dir`.
pub fn lock_path(dir: &PathBuf) -> (r: PathBuf)
    ensures
        r == joined(*dir, LOCK_FILE_NAME@),
{
    join_name(dir, LOCK_FILE_NAME)
}

/// A lock held on a directory until released.
pub struct DirLock {
    pub path: PathBuf,
    pub released: bool,
}

impl DirLock {
    pub fn new(path: PathBuf) -> (r: Self)
        ensures
            r.path == path,
            !r.released,
    {
        DirLock { path, released: false }
    }

    /// Releases the lock: the first time, names the file to remove; after
    /// that, nothing.
    pub fn release(&mut self) -> (r: Option<PathBuf>)
        ensures
            final(self).released,
            final(self).path == old(self).path,
            r == if old(self).released { None } else { Some(old(self).path) },
    {
        if self.released {
            None
        } else {
            self.released = true;
            Some(self.path.clone())
        }
    }
}

} // verus!
