//! The persistent history store, as the core sees it.
//!
//! The store is an append-only log of per-tick records guarded by a lock
//! marker: a filesystem artifact whose mere presence means a writer already
//! owns the directory. The core decides from two observations — whether the
//! marker exists and whether history was requested — what a startup may do,
//! and keeps the log itself strictly append-only with monotonically
//! increasing timestamps. The embedding layer performs the actual file
//! reads and writes and reports their outcomes back as plain values.

use vstd::prelude::*;
use crate::history::StreamKey;

verus! {

/// What opening the store yields.
#[derive(Clone, Copy, PartialEq, Eq, Structural, Debug)]
pub enum OpenOutcome {
    /// History was requested and no other writer owns the store: the caller
    /// now owns the lock and may persist.
    Opened,
    /// History was requested but the lock marker exists: another writer
    /// (or a stale crash) owns the store; the caller must run without
    /// persistence rather than risk corrupting it.
    LockHeld,
    /// History was not requested; the store is left untouched.
    Disabled,
}

/// The decision a startup takes from what the directory shows.
pub open spec fn open_decision_spec(lock_present: bool, history_enabled: bool) -> OpenOutcome {
    if !history_enabled {
        OpenOutcome::Disabled
    } else if lock_present {
        OpenOutcome::LockHeld
    } else {
        OpenOutcome::Opened
    }
}

/// Whether the lock marker exists after the open: a successful open creates
/// it; every other outcome leaves the directory as it was.
pub open spec fn lock_after_open(lock_present: bool, history_enabled: bool) -> bool {
    if open_decision_spec(lock_present, history_enabled) is Opened {
        true
    } else {
        lock_present
    }
}

/// Whether the lock marker exists after a shutdown: a clean shutdown of the
/// owning writer removes it; anyone else leaves it alone.
pub open spec fn lock_after_release(lock_present: bool, owns_lock: bool) -> bool {
    if owns_lock {
        false
    } else {
        lock_present
    }
}

/// Decide what a startup may do, given whether the lock marker exists and
/// whether history was requested. `Opened` comes exactly when history is on
/// and no marker exists; `LockHeld` exactly when history is on and the
/// marker exists.
pub fn open_decision(lock_present: bool, history_enabled: bool) -> (r: OpenOutcome)
    ensures
        r == open_decision_spec(lock_present, history_enabled),
        r is Opened <==> history_enabled && !lock_present,
        r is LockHeld <==> history_enabled && lock_present,
{
    if !history_enabled {
        OpenOutcome::Disabled
    } else if lock_present {
        OpenOutcome::LockHeld
    } else {
        OpenOutcome::Opened
    }
}

/// Mutual exclusion of writers: opening a store that a first writer opened
/// and still runs in yields `LockHeld`; once the first writer shuts down
/// cleanly, a second open succeeds.
pub proof fn lemma_lock_excludes_second_writer()
    ensures
        open_decision_spec(false, true) is Opened,
        lock_after_open(false, true),
        open_decision_spec(lock_after_open(false, true), true) is LockHeld,
        !lock_after_release(lock_after_open(false, true), true),
        open_decision_spec(lock_after_release(lock_after_open(false, true), true), true)
            is Opened,
{
}

/// One stream's value at one tick, as persisted.
#[derive(Clone, Copy, PartialEq, Eq, Structural, Debug)]
pub struct StreamPoint {
    pub key: StreamKey,
    pub value: u64,
}

/// One tick's persisted record: its timestamp and the points of every
/// stream sampled that tick.
pub struct PersistedRecord {
    pub timestamp: u64,
    pub points: Vec<StreamPoint>,
}

/// Field-wise sameness of two records (their Vec contents compared as
/// sequences).
pub open spec fn rec_eq(a: PersistedRecord, b: PersistedRecord) -> bool {
    a.timestamp == b.timestamp && a.points@ == b.points@
}

impl Clone for PersistedRecord {
    fn clone(&self) -> (r: Self)
        ensures
            rec_eq(r, *self),
    {
        let mut points: Vec<StreamPoint> = Vec::new();
        let mut i: usize = 0;
        while i < self.points.len()
            invariant
                i <= self.points@.len(),
                points@ == self.points@.take(i as int),
            decreases self.points@.len() - i,
        {
            points.push(self.points[i]);
            proof {
                assert(points@ =~= self.points@.take(i + 1));
            }
            i = i + 1;
        }
        proof {
            assert(self.points@.take(self.points@.len() as int) =~= self.points@);
        }
        PersistedRecord { timestamp: self.timestamp, points }
    }
}

/// The in-memory image of the on-disk history log: append-ordered records
/// with strictly increasing timestamps. Nothing is ever rewritten,
/// reordered or dropped while the session runs.
pub struct HistoryLog {
    pub records: Vec<PersistedRecord>,
}

impl HistoryLog {
    /// Timestamps strictly increase along the log.
    pub open spec fn wf(&self) -> bool {
        forall|a: int, b: int|
            0 <= a < b < self.records@.len() ==> self.records@[a].timestamp
                < self.records@[b].timestamp
    }

    pub fn new() -> (l: Self)
        ensures
            l.wf(),
            l.records@ == Seq::<PersistedRecord>::empty(),
    {
        HistoryLog { records: Vec::new() }
    }

    pub fn len(&self) -> (n: usize)
        ensures
            n == self.records@.len(),
    {
        self.records.len()
    }

    /// Append one record. The write is accepted exactly when its timestamp
    /// comes after everything already logged; an accepted write appends —
    /// the existing records stand untouched, in order — and a rejected
    /// write changes nothing.
    pub fn append(&mut self, r: PersistedRecord) -> (ok: bool)
        requires
            old(self).wf(),
        ensures
            final(self).wf(),
            ok == (old(self).records@.len() == 0 || old(self).records@.last().timestamp
                < r.timestamp),
            ok ==> final(self).records@ == old(self).records@.push(r),
            !ok ==> final(self).records@ == old(self).records@,
    {
        let n = self.records.len();
        let ok = n == 0 || self.records[n - 1].timestamp < r.timestamp;
        if ok {
            let ghost pre = self.records@;
            self.records.push(r);
            proof {
                assert forall|a: int, b: int|
                    0 <= a < b < self.records@.len() implies self.records@[a].timestamp
                    < self.records@[b].timestamp by {
                    if b < pre.len() {
                        assert(self.records@[a] == pre[a] && self.records@[b] == pre[b]);
                    } else {
                        assert(self.records@[b] == r);
                        if a < pre.len() - 1 {
                            assert(pre[a].timestamp < pre[pre.len() - 1].timestamp);
                        }
                    }
                }
            }
        }
        ok
    }

    /// The index of the first record whose timestamp reaches `cutoff`, or
    /// the length of the log when none does.
    fn first_at_or_after(&self, cutoff: u64) -> (k: usize)
        ensures
            k <= self.records@.len(),
            forall|j: int| 0 <= j < k ==> (#[trigger] self.records@[j]).timestamp < cutoff,
            k < self.records@.len() ==> self.records@[k as int].timestamp >= cutoff,
    {
        let mut k: usize = 0;
        while k < self.records.len()
            invariant
                k <= self.records@.len(),
                forall|j: int| 0 <= j < k ==> (#[trigger] self.records@[j]).timestamp < cutoff,
            decreases self.records@.len() - k,
        {
            if self.records[k].timestamp >= cutoff {
                return k;
            }
            k = k + 1;
        }
        k
    }

    /// The records of the most recent `duration` milliseconds, oldest
    /// first: every record whose timestamp is within `duration` of the last
    /// record's. They form exactly the suffix of the log past the older
    /// records, copied in log order.
    pub fn load_recent(&self, duration: u64) -> (r: Vec<PersistedRecord>)
        requires
            self.wf(),
        ensures
            r@.len() <= self.records@.len(),
            forall|j: int|
                0 <= j < r@.len() ==> rec_eq(
                    #[trigger] r@[j],
                    self.records@[self.records@.len() - r@.len() + j],
                ),
            forall|j: int|
                0 <= j < self.records@.len() - r@.len() ==> ((
                #[trigger] self.records@[j]).timestamp as int) < recent_cutoff(
                    self.records@,
                    duration,
                ),
            forall|j: int|
                self.records@.len() - r@.len() <= j < self.records@.len() ==> ((
                #[trigger] self.records@[j]).timestamp as int) >= recent_cutoff(
                    self.records@,
                    duration,
                ),
    {
        let n = self.records.len();
        if n == 0 {
            let r: Vec<PersistedRecord> = Vec::new();
            return r;
        }
        let last_ts = self.records[n - 1].timestamp;
        let cutoff: u64 = if last_ts > duration {
            last_ts - duration
        } else {
            0
        };
        let k = self.first_at_or_after(cutoff);
        let ghost kk = k as int;
        let mut out: Vec<PersistedRecord> = Vec::new();
        let mut i: usize = k;
        while i < n
            invariant
                kk <= i <= n,
                kk == k as int,
                n == self.records@.len(),
                self.wf(),
                cutoff as int == recent_cutoff(self.records@, duration),
                out@.len() == i - kk,
                forall|j: int| 0 <= j < out@.len() ==> rec_eq(out@[j], self.records@[kk + j]),
                forall|j: int|
                    0 <= j < kk ==> (#[trigger] self.records@[j]).timestamp < cutoff,
                kk < n ==> self.records@[kk].timestamp >= cutoff,
            decreases n - i,
        {
            proof {
                if (i as int) > kk {
                    assert(self.records@[kk].timestamp < self.records@[i as int].timestamp);
                }
            }
            out.push(self.records[i].clone());
            i = i + 1;
        }
        proof {
            assert forall|j: int|
                kk <= j < self.records@.len() implies (self.records@[j].timestamp as int)
                >= recent_cutoff(self.records@, duration) by {
                if j > kk {
                    assert(self.records@[kk].timestamp < self.records@[j].timestamp);
                }
            }
        }
        out
    }
}

/// The oldest timestamp `load_recent` keeps: `duration` before the last
/// record, and never negative. An empty log keeps nothing.
pub open spec fn recent_cutoff(records: Seq<PersistedRecord>, duration: u64) -> int {
    if records.len() == 0 {
        0
    } else if records.last().timestamp > duration {
        records.last().timestamp - duration
    } else {
        0
    }
}

} // verus!
