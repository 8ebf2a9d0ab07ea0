//! Normalization of raw telemetry into per-tick snapshots.
//!
//! The telemetry provider is polled by the embedding layer, which hands the
//! raw readings over as plain values once per tick. The sampler normalizes
//! them: per-core CPU utilization is clamped to 0–100, memory use is capped
//! by the total, and every cumulative counter (network, disk) is turned
//! into a per-second rate against the previous tick's reading. A reading
//! the provider failed to deliver degrades to the last known value rather
//! than faulting the tick.

use vstd::prelude::*;
use crate::process::ProcessSample;
use crate::process::rate_spec;
use crate::process::compute_rate;

verus! {

/// One tick's raw readings, exactly as polled: utilization percentages may
/// overshoot, counters are cumulative since boot. An empty CPU list means
/// the provider had no reading this tick.
pub struct RawMetrics {
    /// Wall-clock time of the poll, in milliseconds.
    pub timestamp: u64,
    /// Raw per-core utilization percent.
    pub cpu: Vec<u64>,
    pub memory_used: u64,
    pub memory_total: u64,
    /// Cumulative received bytes, one entry per interface.
    pub net_rx: Vec<u64>,
    /// Cumulative sent bytes, one entry per interface.
    pub net_tx: Vec<u64>,
    /// Cumulative bytes read, one entry per disk.
    pub disk_read: Vec<u64>,
    /// Cumulative bytes written, one entry per disk.
    pub disk_write: Vec<u64>,
    pub processes: Vec<ProcessSample>,
    /// Sensor temperatures, in centidegrees Celsius.
    pub sensors: Vec<u64>,
}

/// One tick's normalized metrics, immutable once produced.
pub struct Snapshot {
    pub timestamp: u64,
    /// Per-core utilization percent, each in `0..=100`.
    pub cpu: Vec<u64>,
    /// Bytes used, never above `memory_total`.
    pub memory_used: u64,
    pub memory_total: u64,
    /// Received bytes per second, one entry per interface.
    pub net_rx_rate: Vec<u64>,
    pub net_tx_rate: Vec<u64>,
    pub disk_read_rate: Vec<u64>,
    pub disk_write_rate: Vec<u64>,
    pub processes: Vec<ProcessSample>,
    pub sensors: Vec<u64>,
}

pub open spec fn clamp100(v: u64) -> u64 {
    if v > 100 {
        100
    } else {
        v
    }
}

/// The per-core utilization a tick reports: the raw values clamped to 100,
/// or — when the provider returned nothing and a previous tick exists —
/// the previous tick's values repeated.
pub open spec fn sampled_cpu(prev_cpu: Seq<u64>, has_prev: bool, raw_cpu: Seq<u64>) -> Seq<u64> {
    if raw_cpu.len() == 0 && has_prev {
        prev_cpu
    } else {
        Seq::new(raw_cpu.len(), |i: int| clamp100(raw_cpu[i]))
    }
}

/// The per-second rates of one family of cumulative counters: each against
/// the previous tick's reading where one exists, zero for a counter first
/// seen this tick and on the very first tick.
pub open spec fn rates_of(prev: Seq<u64>, has_prev: bool, cur: Seq<u64>, dt: u64) -> Seq<u64> {
    Seq::new(
        cur.len(),
        |i: int|
            if has_prev && i < prev.len() {
                rate_spec(prev[i], cur[i], dt) as u64
            } else {
                0
            },
    )
}

/// The sampler's memory between ticks: the last normalized CPU readings
/// (for degrade) and the last cumulative counters (for rates).
pub struct MetricSampler {
    pub has_prev: bool,
    pub last_ts: u64,
    pub prev_cpu: Vec<u64>,
    pub prev_net_rx: Vec<u64>,
    pub prev_net_tx: Vec<u64>,
    pub prev_disk_read: Vec<u64>,
    pub prev_disk_write: Vec<u64>,
}

impl MetricSampler {
    pub fn new() -> (s: Self)
        ensures
            !s.has_prev,
    {
        MetricSampler {
            has_prev: false,
            last_ts: 0,
            prev_cpu: Vec::new(),
            prev_net_rx: Vec::new(),
            prev_net_tx: Vec::new(),
            prev_disk_read: Vec::new(),
            prev_disk_write: Vec::new(),
        }
    }

    /// Normalize one tick's raw readings, remembering them for the next
    /// tick's deltas.
    pub fn sample(&mut self, raw: RawMetrics) -> (s: Snapshot)
        requires
            old(self).has_prev ==> raw.timestamp > old(self).last_ts,
        ensures
            s.timestamp == raw.timestamp,
            s.cpu@ == sampled_cpu(old(self).prev_cpu@, old(self).has_prev, raw.cpu@),
            forall|i: int| 0 <= i < s.cpu@.len() ==> (#[trigger] s.cpu@[i]) <= 100 || (old(
                self,
            ).has_prev && s.cpu@ == old(self).prev_cpu@),
            s.memory_total == raw.memory_total,
            s.memory_used == (if raw.memory_used > raw.memory_total {
                raw.memory_total
            } else {
                raw.memory_used
            }),
            s.net_rx_rate@ == rates_of(
                old(self).prev_net_rx@,
                old(self).has_prev,
                raw.net_rx@,
                (raw.timestamp - old(self).last_ts) as u64,
            ),
            s.net_tx_rate@ == rates_of(
                old(self).prev_net_tx@,
                old(self).has_prev,
                raw.net_tx@,
                (raw.timestamp - old(self).last_ts) as u64,
            ),
            s.disk_read_rate@ == rates_of(
                old(self).prev_disk_read@,
                old(self).has_prev,
                raw.disk_read@,
                (raw.timestamp - old(self).last_ts) as u64,
            ),
            s.disk_write_rate@ == rates_of(
                old(self).prev_disk_write@,
                old(self).has_prev,
                raw.disk_write@,
                (raw.timestamp - old(self).last_ts) as u64,
            ),
            s.processes@ == raw.processes@,
            s.sensors@ == raw.sensors@,
            final(self).has_prev,
            final(self).last_ts == raw.timestamp,
            final(self).prev_cpu@ == s.cpu@,
            final(self).prev_net_rx@ == raw.net_rx@,
            final(self).prev_net_tx@ == raw.net_tx@,
            final(self).prev_disk_read@ == raw.disk_read@,
            final(self).prev_disk_write@ == raw.disk_write@,
    {
        let dt: u64 = if self.has_prev {
            raw.timestamp - self.last_ts
        } else {
            0
        };
        let cpu: Vec<u64> = if raw.cpu.len() == 0 && self.has_prev {
            clone_u64s(&self.prev_cpu)
        } else {
            clamp_all(&raw.cpu)
        };
        proof {
            assert(cpu@ =~= sampled_cpu(self.prev_cpu@, self.has_prev, raw.cpu@));
        }
        let memory_used = if raw.memory_used > raw.memory_total {
            raw.memory_total
        } else {
            raw.memory_used
        };
        let net_rx_rate = rates(&self.prev_net_rx, self.has_prev, &raw.net_rx, dt);
        let net_tx_rate = rates(&self.prev_net_tx, self.has_prev, &raw.net_tx, dt);
        let disk_read_rate = rates(&self.prev_disk_read, self.has_prev, &raw.disk_read, dt);
        let disk_write_rate = rates(&self.prev_disk_write, self.has_prev, &raw.disk_write, dt);
        let prev_cpu = clone_u64s(&cpu);
        self.has_prev = true;
        self.last_ts = raw.timestamp;
        self.prev_cpu = prev_cpu;
        self.prev_net_rx = raw.net_rx;
        self.prev_net_tx = raw.net_tx;
        self.prev_disk_read = raw.disk_read;
        self.prev_disk_write = raw.disk_write;
        Snapshot {
            timestamp: raw.timestamp,
            cpu,
            memory_used,
            memory_total: raw.memory_total,
            net_rx_rate,
            net_tx_rate,
            disk_read_rate,
            disk_write_rate,
            processes: raw.processes,
            sensors: raw.sensors,
        }
    }
}

/// An element-wise copy.
fn clone_u64s(v: &Vec<u64>) -> (r: Vec<u64>)
    ensures
        r@ == v@,
{
    let mut r: Vec<u64> = Vec::new();
    let mut i: usize = 0;
    while i < v.len()
        invariant
            i <= v@.len(),
            r@ == v@.take(i as int),
        decreases v@.len() - i,
    {
        r.push(v[i]);
        proof {
            assert(r@ =~= v@.take(i + 1));
        }
        i = i + 1;
    }
    proof {
        assert(v@.take(v@.len() as int) =~= v@);
    }
    r
}

/// Each raw utilization clamped to 100.
fn clamp_all(v: &Vec<u64>) -> (r: Vec<u64>)
    ensures
        r@.len() == v@.len(),
        forall|i: int| 0 <= i < v@.len() ==> #[trigger] r@[i] == clamp100(v@[i]),
{
    let mut r: Vec<u64> = Vec::new();
    let mut i: usize = 0;
    while i < v.len()
        invariant
            i <= v@.len(),
            r@.len() == i,
            forall|j: int| 0 <= j < i ==> #[trigger] r@[j] == clamp100(v@[j]),
        decreases v@.len() - i,
    {
        let x = v[i];
        r.push(if x > 100 {
            100
        } else {
            x
        });
        i = i + 1;
    }
    r
}

/// The per-second rate of each counter against its previous reading.
fn rates(prev: &Vec<u64>, has_prev: bool, cur: &Vec<u64>, dt: u64) -> (r: Vec<u64>)
    ensures
        r@ == rates_of(prev@, has_prev, cur@, dt),
{
    let mut r: Vec<u64> = Vec::new();
    let mut i: usize = 0;
    while i < cur.len()
        invariant
            i <= cur@.len(),
            r@.len() == i,
            forall|j: int| 0 <= j < i ==> #[trigger] r@[j] == rates_of(prev@, has_prev, cur@, dt)[j],
        decreases cur@.len() - i,
    {
        let v = if has_prev && i < prev.len() {
            compute_rate(prev[i], cur[i], dt)
        } else {
            0
        };
        r.push(v);
        i = i + 1;
    }
    proof {
        assert(r@ =~= rates_of(prev@, has_prev, cur@, dt));
    }
    r
}

} // verus!
