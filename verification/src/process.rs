//! Process snapshot reconciliation and the sorted, selectable table view.
//!
//! Each tick the table receives the fresh list of sampled processes and
//! reconciles it against the previous tick: processes present in both get
//! their per-tick rates recomputed from the two cumulative counters, fresh
//! pids report zero rates, and pids that vanished are dropped (clearing the
//! selection when it pointed at one of them).

use vstd::prelude::*;

verus! {

/// Scheduler state of a process, as the provider reported it.
#[derive(Clone, Copy, PartialEq, Eq, Structural, Debug)]
pub enum ProcState {
    Running,
    Sleeping,
    Stopped,
    Zombie,
    Unknown,
}

/// One process as the telemetry provider reports it: identity plus
/// cumulative counters, from which per-tick rates are derived.
pub struct ProcessSample {
    pub pid: u32,
    pub ppid: u32,
    pub name: String,
    pub owner: String,
    /// Cumulative CPU time consumed, in milliseconds.
    pub cpu_time: u64,
    /// Resident memory, in bytes.
    pub memory: u64,
    /// Cumulative bytes read from disk.
    pub disk_read_total: u64,
    /// Cumulative bytes written to disk.
    pub disk_write_total: u64,
    pub state: ProcState,
}

/// One row of the reconciled table: the sample's identity and counters plus
/// the rates derived from the previous tick.
pub struct ProcessRecord {
    pub pid: u32,
    pub ppid: u32,
    pub name: String,
    pub owner: String,
    /// Cumulative CPU time at the tick this record was built, in milliseconds.
    pub cpu_time: u64,
    /// CPU utilization over the last tick, in percent, clamped to
    /// `[0, 100 * cores]`.
    pub cpu_percent: u64,
    pub memory: u64,
    pub disk_read_total: u64,
    pub disk_write_total: u64,
    /// Disk read rate over the last tick, in bytes per second.
    pub read_rate: u64,
    /// Disk write rate over the last tick, in bytes per second.
    pub write_rate: u64,
    pub state: ProcState,
}

impl Clone for ProcessRecord {
    fn clone(&self) -> (r: Self)
        ensures
            r == *self,
    {
        ProcessRecord {
            pid: self.pid,
            ppid: self.ppid,
            name: self.name.clone(),
            owner: self.owner.clone(),
            cpu_time: self.cpu_time,
            cpu_percent: self.cpu_percent,
            memory: self.memory,
            disk_read_total: self.disk_read_total,
            disk_write_total: self.disk_write_total,
            read_rate: self.read_rate,
            write_rate: self.write_rate,
            state: self.state,
        }
    }
}

/// CPU utilization over a tick, in percent: the growth of the cumulative
/// CPU time divided by the elapsed wall time, clamped to `[0, 100 * cores]`.
/// A counter that did not grow, or an empty tick, reads as zero.
pub open spec fn cpu_percent_spec(prev: u64, cur: u64, dt: u64, cores: u64) -> int {
    if cur <= prev || dt == 0 {
        0
    } else {
        let raw = (cur - prev) * 100 / (dt as int);
        if raw > cores * 100 {
            cores * 100
        } else {
            raw
        }
    }
}

/// Throughput over a tick, in units per second, derived from two cumulative
/// readings `dt` milliseconds apart; saturates at `u64::MAX`.
pub open spec fn rate_spec(prev: u64, cur: u64, dt: u64) -> int {
    if cur <= prev || dt == 0 {
        0
    } else {
        let raw = (cur - prev) * 1000 / (dt as int);
        if raw > u64::MAX {
            u64::MAX as int
        } else {
            raw
        }
    }
}

/// The record of a pid seen for the first time this tick: no previous
/// counters exist, so every per-tick rate reports zero.
pub open spec fn fresh_record(s: ProcessSample) -> ProcessRecord {
    ProcessRecord {
        pid: s.pid,
        ppid: s.ppid,
        name: s.name,
        owner: s.owner,
        cpu_time: s.cpu_time,
        cpu_percent: 0,
        memory: s.memory,
        disk_read_total: s.disk_read_total,
        disk_write_total: s.disk_write_total,
        read_rate: 0,
        write_rate: 0,
        state: s.state,
    }
}

/// The record of a pid present last tick too: rates recomputed from the two
/// most recent cumulative counters.
pub open spec fn updated_record(
    prev: ProcessRecord,
    s: ProcessSample,
    dt: u64,
    cores: u64,
) -> ProcessRecord {
    ProcessRecord {
        pid: s.pid,
        ppid: s.ppid,
        name: s.name,
        owner: s.owner,
        cpu_time: s.cpu_time,
        cpu_percent: cpu_percent_spec(prev.cpu_time, s.cpu_time, dt, cores) as u64,
        memory: s.memory,
        disk_read_total: s.disk_read_total,
        disk_write_total: s.disk_write_total,
        read_rate: rate_spec(prev.disk_read_total, s.disk_read_total, dt) as u64,
        write_rate: rate_spec(prev.disk_write_total, s.disk_write_total, dt) as u64,
        state: s.state,
    }
}

/// The first record in `rs` with the given pid, if any.
pub open spec fn find_record(rs: Seq<ProcessRecord>, pid: u32) -> Option<ProcessRecord>
    decreases rs.len(),
{
    if rs.len() == 0 {
        None
    } else if rs[0].pid == pid {
        Some(rs[0])
    } else {
        find_record(rs.drop_first(), pid)
    }
}

pub open spec fn has_record_pid(rs: Seq<ProcessRecord>, pid: u32) -> bool {
    exists|i: int| 0 <= i < rs.len() && (#[trigger] rs[i]).pid == pid
}

pub open spec fn has_sample_pid(ss: Seq<ProcessSample>, pid: u32) -> bool {
    exists|i: int| 0 <= i < ss.len() && (#[trigger] ss[i]).pid == pid
}

pub open spec fn unique_sample_pids(ss: Seq<ProcessSample>) -> bool {
    forall|a: int, b: int| 0 <= a < b < ss.len() ==> ss[a].pid != ss[b].pid
}

/// How one sample reconciles against the previous table: a pid with a
/// previous record keeps its history for one delta step, a fresh pid
/// starts at zero.
pub open spec fn reconciled_record(
    prev: Seq<ProcessRecord>,
    s: ProcessSample,
    dt: u64,
    cores: u64,
) -> ProcessRecord {
    match find_record(prev, s.pid) {
        Some(p) => updated_record(p, s, dt, cores),
        None => fresh_record(s),
    }
}

/// Pids of the new snapshot that have no previous record, in snapshot order.
pub open spec fn added_pids(prev: Seq<ProcessRecord>, new: Seq<ProcessSample>) -> Seq<u32>
    decreases new.len(),
{
    if new.len() == 0 {
        Seq::empty()
    } else {
        let rest = added_pids(prev, new.drop_last());
        if find_record(prev, new.last().pid) is None {
            rest.push(new.last().pid)
        } else {
            rest
        }
    }
}

/// Pids present both ticks, in snapshot order.
pub open spec fn updated_pids(prev: Seq<ProcessRecord>, new: Seq<ProcessSample>) -> Seq<u32>
    decreases new.len(),
{
    if new.len() == 0 {
        Seq::empty()
    } else {
        let rest = updated_pids(prev, new.drop_last());
        if find_record(prev, new.last().pid) is Some {
            rest.push(new.last().pid)
        } else {
            rest
        }
    }
}

/// Pids of the previous table absent from the new snapshot, in table order.
pub open spec fn removed_pids(prev: Seq<ProcessRecord>, new: Seq<ProcessSample>) -> Seq<u32>
    decreases prev.len(),
{
    if prev.len() == 0 {
        Seq::empty()
    } else {
        let rest = removed_pids(prev.drop_last(), new);
        if has_sample_pid(new, prev.last().pid) {
            rest
        } else {
            rest.push(prev.last().pid)
        }
    }
}

/// What one reconciliation reports: pids that appeared, vanished, and
/// persisted, each in a stable order.
pub struct ReconcileDiff {
    pub added: Vec<u32>,
    pub removed: Vec<u32>,
    pub updated: Vec<u32>,
}

/// The reconciled, selectable process table.
pub struct ProcessTable {
    pub records: Vec<ProcessRecord>,
    /// Wall-clock timestamp of the snapshot the table currently reflects,
    /// in milliseconds.
    pub last_ts: u64,
    /// The pid the operator has selected, if it is still alive.
    pub selected: Option<u32>,
}

impl ProcessTable {
    /// Pids are unique, and a selection always points at a live record.
    pub open spec fn wf(&self) -> bool {
        &&& forall|a: int, b: int|
            0 <= a < b < self.records@.len() ==> self.records@[a].pid != self.records@[b].pid
        &&& match self.selected {
            Some(p) => has_record_pid(self.records@, p),
            None => true,
        }
    }

    pub fn new(start_ts: u64) -> (t: Self)
        ensures
            t.wf(),
            t.records@ == Seq::<ProcessRecord>::empty(),
            t.last_ts == start_ts,
            t.selected is None,
    {
        ProcessTable { records: Vec::new(), last_ts: start_ts, selected: None }
    }

    /// The index of the record with the given pid, if any.
    fn find_index(&self, pid: u32) -> (r: Option<usize>)
        ensures
            match r {
                Some(i) => i < self.records@.len() && self.records@[i as int].pid == pid
                    && find_record(self.records@, pid) == Some(self.records@[i as int]),
                None => find_record(self.records@, pid) is None && !has_record_pid(
                    self.records@,
                    pid,
                ),
            },
    {
        let ghost rs = self.records@;
        proof {
            assert(rs.skip(0) =~= rs);
        }
        let mut i: usize = 0;
        while i < self.records.len()
            invariant
                i <= rs.len(),
                rs == self.records@,
                find_record(rs, pid) == find_record(rs.skip(i as int), pid),
                forall|j: int| 0 <= j < i ==> rs[j].pid != pid,
            decreases rs.len() - i,
        {
            proof {
                lemma_find_record_step(rs.skip(i as int), pid);
                assert(rs.skip(i as int).drop_first() =~= rs.skip(i + 1));
                assert(rs.skip(i as int)[0] == rs[i as int]);
            }
            if self.records[i].pid == pid {
                return Some(i);
            }
            i = i + 1;
        }
        proof {
            assert(rs.skip(i as int).len() == 0);
        }
        None
    }

    /// Reconcile the table against a fresh snapshot taken at `now_ms`.
    /// Afterwards the table holds exactly one record per snapshot entry, in
    /// snapshot order: pids with a previous record get their CPU share and
    /// disk rates recomputed from the two cumulative counters over the
    /// elapsed wall time, pids first seen this tick report zero for every
    /// rate. The diff lists appeared, vanished and persisted pids, and a
    /// selection pointing at a vanished pid is cleared.
    pub fn reconcile(&mut self, new: &Vec<ProcessSample>, now_ms: u64, cores: u64) -> (d:
        ReconcileDiff)
        requires
            old(self).wf(),
            now_ms > old(self).last_ts,
            unique_sample_pids(new@),
            cores <= u64::MAX / 100,
        ensures
            final(self).wf(),
            final(self).last_ts == now_ms,
            final(self).records@.len() == new@.len(),
            forall|i: int|
                0 <= i < new@.len() ==> final(self).records@[i] == reconciled_record(
                    old(self).records@,
                    new@[i],
                    (now_ms - old(self).last_ts) as u64,
                    cores,
                ),
            d.added@ == added_pids(old(self).records@, new@),
            d.updated@ == updated_pids(old(self).records@, new@),
            d.removed@ == removed_pids(old(self).records@, new@),
            final(self).selected == (match old(self).selected {
                Some(p) => if has_sample_pid(new@, p) {
                    Some(p)
                } else {
                    None
                },
                None => None,
            }),
    {
        let dt = now_ms - self.last_ts;
        let ghost prev = self.records@;
        let mut next: Vec<ProcessRecord> = Vec::new();
        let mut added: Vec<u32> = Vec::new();
        let mut updated: Vec<u32> = Vec::new();
        proof {
            assert(new@.take(0) =~= Seq::<ProcessSample>::empty());
        }
        let mut i: usize = 0;
        while i < new.len()
            invariant
                i <= new@.len(),
                prev == self.records@,
                self == old(self),
                cores <= u64::MAX / 100,
                next@.len() == i,
                forall|j: int|
                    0 <= j < i ==> next@[j] == reconciled_record(prev, new@[j], dt, cores),
                added@ == added_pids(prev, new@.take(i as int)),
                updated@ == updated_pids(prev, new@.take(i as int)),
            decreases new@.len() - i,
        {
            proof {
                assert(new@.take(i + 1).drop_last() =~= new@.take(i as int));
                assert(new@.take(i + 1).last() == new@[i as int]);
            }
            let s = &new[i];
            match self.find_index(s.pid) {
                Some(j) => {
                    let r = make_updated(&self.records[j], s, dt, cores);
                    next.push(r);
                    updated.push(s.pid);
                },
                None => {
                    next.push(make_fresh(s));
                    added.push(s.pid);
                },
            }
            i = i + 1;
        }
        proof {
            assert(new@.take(new@.len() as int) =~= new@);
        }

        let mut removed: Vec<u32> = Vec::new();
        proof {
            assert(prev.take(0) =~= Seq::<ProcessRecord>::empty());
        }
        let mut j: usize = 0;
        while j < self.records.len()
            invariant
                j <= prev.len(),
                prev == self.records@,
                self == old(self),
                removed@ == removed_pids(prev.take(j as int), new@),
            decreases prev.len() - j,
        {
            proof {
                assert(prev.take(j + 1).drop_last() =~= prev.take(j as int));
                assert(prev.take(j + 1).last() == prev[j as int]);
            }
            if !contains_sample_pid(new, self.records[j].pid) {
                removed.push(self.records[j].pid);
            }
            j = j + 1;
        }
        proof {
            assert(prev.take(prev.len() as int) =~= prev);
        }

        let clear = match self.selected {
            Some(p) => !contains_sample_pid(new, p),
            None => false,
        };
        if clear {
            self.selected = None;
        }
        self.records = next;
        self.last_ts = now_ms;
        proof {
            assert forall|a: int, b: int|
                0 <= a < b < self.records@.len() implies self.records@[a].pid
                != self.records@[b].pid by {
                assert(self.records@[a].pid == new@[a].pid);
                assert(self.records@[b].pid == new@[b].pid);
            }
            if self.selected is Some {
                let p = self.selected->0;
                let w = choose|i: int| 0 <= i < new@.len() && (#[trigger] new@[i]).pid == p;
                assert(self.records@[w].pid == p);
            }
        }
        ReconcileDiff { added, removed, updated }
    }

    /// Select the record with the given pid; selecting a pid with no live
    /// record leaves the selection unchanged and reports failure.
    pub fn select(&mut self, pid: u32) -> (ok: bool)
        requires
            old(self).wf(),
        ensures
            final(self).wf(),
            final(self).records@ == old(self).records@,
            final(self).last_ts == old(self).last_ts,
            ok == has_record_pid(old(self).records@, pid),
            final(self).selected == (if has_record_pid(old(self).records@, pid) {
                Some(pid)
            } else {
                old(self).selected
            }),
    {
        match self.find_index(pid) {
            Some(_) => {
                self.selected = Some(pid);
                true
            },
            None => false,
        }
    }

    /// The record the selection points at, if any.
    pub fn selected(&self) -> (r: Option<ProcessRecord>)
        requires
            self.wf(),
        ensures
            r == (match self.selected {
                Some(p) => find_record(self.records@, p),
                None => None::<ProcessRecord>,
            }),
    {
        match self.selected {
            Some(p) => {
                match self.find_index(p) {
                    Some(i) => Some(self.records[i].clone()),
                    None => None,
                }
            },
            None => None,
        }
    }
}

/// Build the record of a pid first seen this tick.
fn make_fresh(s: &ProcessSample) -> (r: ProcessRecord)
    ensures
        r == fresh_record(*s),
{
    ProcessRecord {
        pid: s.pid,
        ppid: s.ppid,
        name: s.name.clone(),
        owner: s.owner.clone(),
        cpu_time: s.cpu_time,
        cpu_percent: 0,
        memory: s.memory,
        disk_read_total: s.disk_read_total,
        disk_write_total: s.disk_write_total,
        read_rate: 0,
        write_rate: 0,
        state: s.state,
    }
}

/// Build the record of a pid that persisted from the previous tick.
fn make_updated(prev: &ProcessRecord, s: &ProcessSample, dt: u64, cores: u64) -> (r: ProcessRecord)
    requires
        cores <= u64::MAX / 100,
    ensures
        r == updated_record(*prev, *s, dt, cores),
{
    ProcessRecord {
        pid: s.pid,
        ppid: s.ppid,
        name: s.name.clone(),
        owner: s.owner.clone(),
        cpu_time: s.cpu_time,
        cpu_percent: compute_cpu_percent(prev.cpu_time, s.cpu_time, dt, cores),
        memory: s.memory,
        disk_read_total: s.disk_read_total,
        disk_write_total: s.disk_write_total,
        read_rate: compute_rate(prev.disk_read_total, s.disk_read_total, dt),
        write_rate: compute_rate(prev.disk_write_total, s.disk_write_total, dt),
        state: s.state,
    }
}

/// CPU utilization of one process over one tick, clamped to
/// `[0, 100 * cores]`.
pub fn compute_cpu_percent(prev: u64, cur: u64, dt: u64, cores: u64) -> (r: u64)
    requires
        cores <= u64::MAX / 100,
    ensures
        r as int == cpu_percent_spec(prev, cur, dt, cores),
{
    if cur <= prev || dt == 0 {
        0
    } else {
        let delta = (cur - prev) as u128;
        let raw = delta * 100 / (dt as u128);
        let cap = (cores as u128) * 100;
        if raw > cap {
            cap as u64
        } else {
            raw as u64
        }
    }
}

/// Throughput of one cumulative counter over one tick, in units per second,
/// saturating at `u64::MAX`.
pub fn compute_rate(prev: u64, cur: u64, dt: u64) -> (r: u64)
    ensures
        r as int == rate_spec(prev, cur, dt),
{
    if cur <= prev || dt == 0 {
        0
    } else {
        let raw = (cur - prev) as u128 * 1000 / (dt as u128);
        if raw > u64::MAX as u128 {
            u64::MAX
        } else {
            raw as u64
        }
    }
}

/// Whether any sample in `ss` carries the given pid.
fn contains_sample_pid(ss: &Vec<ProcessSample>, pid: u32) -> (b: bool)
    ensures
        b == has_sample_pid(ss@, pid),
{
    let mut i: usize = 0;
    while i < ss.len()
        invariant
            i <= ss@.len(),
            forall|j: int| 0 <= j < i ==> ss@[j].pid != pid,
        decreases ss@.len() - i,
    {
        if ss[i].pid == pid {
            return true;
        }
        i = i + 1;
    }
    false
}

/// One definitional unfolding of `find_record` on a non-empty sequence.
proof fn lemma_find_record_step(rs: Seq<ProcessRecord>, pid: u32)
    requires
        rs.len() > 0,
    ensures
        find_record(rs, pid) == (if rs[0].pid == pid {
            Some(rs[0])
        } else {
            find_record(rs.drop_first(), pid)
        }),
{
}

/// Two-tick CPU law: a pid present in consecutive ticks reports the growth
/// of its cumulative CPU time over the elapsed wall time as a percentage,
/// clamped to `[0, 100 * cores]`; a pid first seen this tick reports zero.
pub proof fn lemma_cpu_percent_two_ticks(
    prev: Seq<ProcessRecord>,
    s: ProcessSample,
    dt: u64,
    cores: u64,
)
    requires
        cores <= u64::MAX / 100,
    ensures
        match find_record(prev, s.pid) {
            Some(p) => reconciled_record(prev, s, dt, cores).cpu_percent as int
                == cpu_percent_spec(p.cpu_time, s.cpu_time, dt, cores),
            None => reconciled_record(prev, s, dt, cores).cpu_percent == 0,
        },
        0 <= reconciled_record(prev, s, dt, cores).cpu_percent as int <= 100 * cores
            || find_record(prev, s.pid) is None,
{
    match find_record(prev, s.pid) {
        Some(p) => {
            lemma_cpu_percent_bounds(p.cpu_time, s.cpu_time, dt, cores);
        },
        None => {},
    }
}

/// The CPU share of one tick is the counter delta over the wall time,
/// never negative and never past the whole machine.
pub proof fn lemma_cpu_percent_bounds(c1: u64, c2: u64, dt: u64, cores: u64)
    ensures
        0 <= cpu_percent_spec(c1, c2, dt, cores) <= 100 * cores,
        c2 > c1 && dt > 0 && (c2 - c1) * 100 / (dt as int) <= cores * 100
            ==> cpu_percent_spec(c1, c2, dt, cores) == (c2 - c1) * 100 / (dt as int),
{
    if c2 > c1 && dt != 0 {
        assert((c2 - c1) * 100 >= 0);
        assert((c2 - c1) * 100 / (dt as int) >= 0) by (nonlinear_arith)
            requires (c2 - c1) * 100 >= 0 && dt > 0;
    }
}

/// A pid that had a record and is absent from the new snapshot is reported
/// in the removed set of the reconciliation diff.
pub proof fn lemma_vanished_pid_is_removed(
    prev: Seq<ProcessRecord>,
    new: Seq<ProcessSample>,
    pid: u32,
)
    requires
        has_record_pid(prev, pid),
        !has_sample_pid(new, pid),
    ensures
        removed_pids(prev, new).contains(pid),
    decreases prev.len(),
{
    let w = choose|i: int| 0 <= i < prev.len() && (#[trigger] prev[i]).pid == pid;
    if w == prev.len() - 1 {
        assert(removed_pids(prev, new).last() == pid);
    } else {
        assert(prev.drop_last()[w] == prev[w]);
        lemma_vanished_pid_is_removed(prev.drop_last(), new, pid);
        let rest = removed_pids(prev.drop_last(), new);
        let k = choose|i: int| 0 <= i < rest.len() && rest[i] == pid;
        if has_sample_pid(new, prev.last().pid) {
        } else {
            assert(removed_pids(prev, new)[k] == rest[k]);
        }
    }
}


/// The column a process view is ordered by.
#[derive(Clone, Copy, PartialEq, Eq, Structural, Debug)]
pub enum SortKey {
    Pid,
    Cpu,
    Memory,
    DiskRead,
    DiskWrite,
}

#[derive(Clone, Copy, PartialEq, Eq, Structural, Debug)]
pub enum SortOrder {
    Ascending,
    Descending,
}

/// The value a record sorts by under the given key.
pub open spec fn key_val(k: SortKey, r: ProcessRecord) -> int {
    match k {
        SortKey::Pid => r.pid as int,
        SortKey::Cpu => r.cpu_percent as int,
        SortKey::Memory => r.memory as int,
        SortKey::DiskRead => r.read_rate as int,
        SortKey::DiskWrite => r.write_rate as int,
    }
}

/// The total order of a view: by the sort key in the requested direction,
/// ties broken by ascending pid so equal keys never jitter between ticks.
pub open spec fn sort_le(k: SortKey, ord: SortOrder, a: ProcessRecord, b: ProcessRecord) -> bool {
    if key_val(k, a) != key_val(k, b) {
        match ord {
            SortOrder::Ascending => key_val(k, a) < key_val(k, b),
            SortOrder::Descending => key_val(k, a) > key_val(k, b),
        }
    } else {
        a.pid <= b.pid
    }
}

/// Whether `a` sorts no later than `b` under the given key and direction.
fn le(k: SortKey, ord: SortOrder, a: &ProcessRecord, b: &ProcessRecord) -> (r: bool)
    ensures
        r == sort_le(k, ord, *a, *b),
{
    let (va, vb) = match k {
        SortKey::Pid => (a.pid as u64, b.pid as u64),
        SortKey::Cpu => (a.cpu_percent, b.cpu_percent),
        SortKey::Memory => (a.memory, b.memory),
        SortKey::DiskRead => (a.read_rate, b.read_rate),
        SortKey::DiskWrite => (a.write_rate, b.write_rate),
    };
    if va != vb {
        match ord {
            SortOrder::Ascending => va < vb,
            SortOrder::Descending => va > vb,
        }
    } else {
        a.pid <= b.pid
    }
}

/// The position where `r` belongs in the sorted prefix `out`: past every
/// element that sorts no later than `r`.
fn insertion_point(out: &Vec<ProcessRecord>, r: &ProcessRecord, k: SortKey, ord: SortOrder) -> (j:
    usize)
    ensures
        j <= out@.len(),
        forall|a: int| 0 <= a < j ==> sort_le(k, ord, out@[a], *r),
        j < out@.len() ==> !sort_le(k, ord, out@[j as int], *r),
{
    let mut j: usize = 0;
    while j < out.len()
        invariant
            j <= out@.len(),
            forall|a: int| 0 <= a < j ==> sort_le(k, ord, out@[a], *r),
        decreases out@.len() - j,
    {
        if !le(k, ord, &out[j], r) {
            return j;
        }
        j = j + 1;
    }
    j
}

/// Inserting an element into a sequence shows up in its multiset as one
/// insertion.
proof fn lemma_insert_to_multiset(s: Seq<ProcessRecord>, j: int, r: ProcessRecord)
    requires
        0 <= j <= s.len(),
    ensures
        s.insert(j, r).to_multiset() == s.to_multiset().insert(r),
{
    broadcast use vstd::seq_lib::group_to_multiset_ensures;

    let t = s.insert(j, r);
    assert(t.remove(j) =~= s);
    assert(t[j] == r);
    assert(t.remove(j).to_multiset() =~= t.to_multiset().remove(t[j]));
    assert(t.contains(r));
    assert(t.to_multiset().count(r) > 0);
    assert forall|x: ProcessRecord|
        t.to_multiset().count(x) == s.to_multiset().insert(r).count(x) by {
        if x == r {
            assert(s.to_multiset().count(r) == t.to_multiset().remove(r).count(r));
        } else {
            assert(s.to_multiset().count(x) == t.to_multiset().remove(r).count(x));
        }
    }
    assert(t.to_multiset() =~= s.to_multiset().insert(r));
}

impl ProcessTable {
    /// A copy of the table ordered by the given key and direction, equal
    /// keys in ascending pid order. The view is a permutation of the table:
    /// no record appears, vanishes or changes. The table itself is never
    /// mutated.
    pub fn sorted_view(&self, k: SortKey, ord: SortOrder) -> (v: Vec<ProcessRecord>)
        ensures
            v@.len() == self.records@.len(),
            v@.to_multiset() == self.records@.to_multiset(),
            forall|a: int, b: int| 0 <= a < b < v@.len() ==> sort_le(k, ord, v@[a], v@[b]),
    {
        let mut out: Vec<ProcessRecord> = Vec::new();
        proof {
            broadcast use vstd::seq_lib::group_to_multiset_ensures;

            assert(self.records@.take(0) =~= Seq::<ProcessRecord>::empty());
            assert(Seq::<ProcessRecord>::empty().to_multiset() =~= out@.to_multiset());
        }
        let mut i: usize = 0;
        while i < self.records.len()
            invariant
                i <= self.records@.len(),
                out@.len() == i,
                out@.to_multiset() == self.records@.take(i as int).to_multiset(),
                forall|a: int, b: int| 0 <= a < b < out@.len() ==> sort_le(k, ord, out@[a], out@[b]),
            decreases self.records@.len() - i,
        {
            let r = self.records[i].clone();
            let ghost pre = out@;
            let j = insertion_point(&out, &r, k, ord);
            out.insert(j, r);
            proof {
                broadcast use vstd::seq_lib::group_to_multiset_ensures;

                lemma_insert_to_multiset(pre, j as int, r);
                assert(self.records@.take(i + 1) =~= self.records@.take(i as int).push(r));
                assert(self.records@.take(i as int).push(r).to_multiset() =~= self.records@.take(
                    i as int,
                ).to_multiset().insert(r));
                assert forall|a: int, b: int|
                    0 <= a < b < out@.len() implies sort_le(k, ord, out@[a], out@[b]) by {
                    if b < j {
                        assert(out@[a] == pre[a] && out@[b] == pre[b]);
                    } else if a < j && b == j {
                        assert(out@[a] == pre[a]);
                    } else if a < j && b > j {
                        assert(out@[a] == pre[a] && out@[b] == pre[b - 1]);
                    } else if a == j {
                        assert(out@[b] == pre[b - 1]);
                        assert(!sort_le(k, ord, pre[j as int], r));
                        assert(sort_le(k, ord, pre[j as int], pre[b - 1]));
                    } else {
                        assert(out@[a] == pre[a - 1] && out@[b] == pre[b - 1]);
                    }
                }
            }
            i = i + 1;
        }
        proof {
            assert(self.records@.take(self.records@.len() as int) =~= self.records@);
        }
        out
    }
}
} // verus!
