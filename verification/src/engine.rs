//! The tick and input state machine that drives the dashboard.
//!
//! The embedding layer owns the timer, the input stream and the terminal;
//! the engine owns every decision. Each tick it runs the fixed pipeline —
//! normalize the raw readings, append them to the bounded history (and to
//! the persistent log while persistence is active), reconcile the process
//! table — so a rendered frame always reflects the latest committed
//! sample. Input keys move focus, expand or minimize panels, move the
//! process cursor, select a process, or quit; a quit is answered with
//! `Exit` and changes nothing, so the loop can unwind before the next
//! tick's work.

use vstd::prelude::*;
use crate::history::HistoryBuffer;
use crate::history::MetricKind;
use crate::history::Sample;
use crate::history::StreamKey;
use crate::history::ring_push;
use crate::layout::PanelKind;
use crate::layout::UIState;
use crate::layout::UiEvent;
use crate::layout::base_sum;
use crate::layout::base_height;
use crate::layout::step_spec;
use crate::layout::sum_heights;
use crate::layout::ui_wf;
use crate::process::ProcessRecord;
use crate::process::ProcessTable;
use crate::process::ReconcileDiff;
use crate::process::SortKey;
use crate::process::SortOrder;
use crate::process::added_pids;
use crate::process::has_record_pid;
use crate::process::has_sample_pid;
use crate::process::reconciled_record;
use crate::process::removed_pids;
use crate::process::sort_le;
use crate::process::unique_sample_pids;
use crate::process::updated_pids;
use crate::sampler::MetricSampler;
use crate::sampler::RawMetrics;
use crate::sampler::rates_of;
use crate::sampler::sampled_cpu;
use crate::store::HistoryLog;
use crate::store::PersistedRecord;
use crate::store::StreamPoint;

verus! {

/// A decoded input the engine reacts to. Anything the decoder could not
/// make sense of arrives as `Other` and is ignored.
#[derive(Clone, Copy, PartialEq, Eq, Structural, Debug)]
pub enum InputKey {
    Tab,
    Expand,
    Minimize,
    Up,
    Down,
    Enter,
    Quit,
    Other,
}

/// What the embedding layer must do after handing the engine an event.
#[derive(Clone, Copy, PartialEq, Eq, Structural, Debug)]
pub enum EngineAction {
    Continue,
    Redraw,
    Exit,
}

/// The per-core CPU values one tick writes into the history, given the
/// sampler state before the tick.
pub open spec fn tick_cpu(s: MetricSampler, raw: RawMetrics) -> Seq<u64> {
    sampled_cpu(s.prev_cpu@, s.has_prev, raw.cpu@)
}

pub open spec fn tick_dt(s: MetricSampler, raw: RawMetrics) -> u64 {
    (raw.timestamp - s.last_ts) as u64
}

pub open spec fn tick_mem(raw: RawMetrics) -> u64 {
    if raw.memory_used > raw.memory_total {
        raw.memory_total
    } else {
        raw.memory_used
    }
}

pub open spec fn tick_net_rx(s: MetricSampler, raw: RawMetrics) -> Seq<u64> {
    rates_of(s.prev_net_rx@, s.has_prev, raw.net_rx@, tick_dt(s, raw))
}

pub open spec fn tick_net_tx(s: MetricSampler, raw: RawMetrics) -> Seq<u64> {
    rates_of(s.prev_net_tx@, s.has_prev, raw.net_tx@, tick_dt(s, raw))
}

pub open spec fn tick_disk_read(s: MetricSampler, raw: RawMetrics) -> Seq<u64> {
    rates_of(s.prev_disk_read@, s.has_prev, raw.disk_read@, tick_dt(s, raw))
}

pub open spec fn tick_disk_write(s: MetricSampler, raw: RawMetrics) -> Seq<u64> {
    rates_of(s.prev_disk_write@, s.has_prev, raw.disk_write@, tick_dt(s, raw))
}

/// The value one tick appends to the stream keyed by `key`, if any: one
/// sample per CPU core, one for memory, one per interface direction, one
/// per disk direction.
pub open spec fn tick_value(
    cpu: Seq<u64>,
    mem_used: u64,
    rx: Seq<u64>,
    tx: Seq<u64>,
    dr: Seq<u64>,
    dw: Seq<u64>,
    key: StreamKey,
) -> Option<u64> {
    match key.kind {
        MetricKind::CpuCore => if (key.instance as int) < cpu.len() {
            Some(cpu[key.instance as int])
        } else {
            None
        },
        MetricKind::MemoryUsed => if key.instance == 0 {
            Some(mem_used)
        } else {
            None
        },
        MetricKind::NetRx => if (key.instance as int) < rx.len() {
            Some(rx[key.instance as int])
        } else {
            None
        },
        MetricKind::NetTx => if (key.instance as int) < tx.len() {
            Some(tx[key.instance as int])
        } else {
            None
        },
        MetricKind::DiskRead => if (key.instance as int) < dr.len() {
            Some(dr[key.instance as int])
        } else {
            None
        },
        MetricKind::DiskWrite => if (key.instance as int) < dw.len() {
            Some(dw[key.instance as int])
        } else {
            None
        },
        MetricKind::SensorTemp => None,
    }
}

/// The points one tick persists: every per-core CPU value, then memory.
pub open spec fn persist_points(cpu: Seq<u64>, mem_used: u64) -> Seq<StreamPoint> {
    Seq::new(
        cpu.len(),
        |i: int|
            StreamPoint {
                key: StreamKey { kind: MetricKind::CpuCore, instance: i as u64 },
                value: cpu[i],
            },
    ).push(StreamPoint { key: StreamKey { kind: MetricKind::MemoryUsed, instance: 0 }, value: mem_used })
}

/// Append one family of per-instance values to the history: instance `i`
/// of `kind` gets `values[i]`; every other stream is untouched.
fn append_family(hb: &mut HistoryBuffer, kind: MetricKind, ts: u64, values: &Vec<u64>)
    requires
        old(hb).wf(),
    ensures
        final(hb).wf(),
        final(hb).default_capacity == old(hb).default_capacity,
        forall|k: StreamKey|
            k.kind == kind && (k.instance as int) < values@.len() ==> #[trigger] final(hb).stream_view(k) == ring_push(
                old(hb).stream_view(k),
                old(hb).stream_capacity(k),
                Sample { timestamp: ts, value: values@[k.instance as int] },
            ) && final(hb).stream_capacity(k) == old(hb).stream_capacity(k),
        forall|k: StreamKey|
            !(k.kind == kind && (k.instance as int) < values@.len()) ==> #[trigger] final(hb).stream_view(k)
                == old(hb).stream_view(k) && final(hb).stream_capacity(k) == old(hb).stream_capacity(k),
        forall|k: StreamKey|
            #[trigger] final(hb).stream_capacity(k) == old(hb).stream_capacity(k),
{
    let ghost orig = *hb;
    let mut i: usize = 0;
    while i < values.len()
        invariant
            i <= values@.len(),
            hb.wf(),
            hb.default_capacity == orig.default_capacity,
            orig == *old(hb),
            forall|k: StreamKey|
                k.kind == kind && (k.instance as int) < i ==> #[trigger] hb.stream_view(k)
                    == ring_push(
                    orig.stream_view(k),
                    orig.stream_capacity(k),
                    Sample { timestamp: ts, value: values@[k.instance as int] },
                ) && hb.stream_capacity(k) == orig.stream_capacity(k),
            forall|k: StreamKey|
                !(k.kind == kind && (k.instance as int) < i) ==> #[trigger] hb.stream_view(k)
                    == orig.stream_view(k) && hb.stream_capacity(k) == orig.stream_capacity(k),
            forall|k: StreamKey|
                #[trigger] hb.stream_capacity(k) == orig.stream_capacity(k),
        decreases values@.len() - i,
    {
        let key = StreamKey { kind, instance: i as u64 };
        let ghost pre = *hb;
        hb.append(key, ts, values[i]);
        proof {
            assert forall|k: StreamKey|
                k.kind == kind && (k.instance as int) < i + 1 implies #[trigger] hb.stream_view(k)
                == ring_push(
                orig.stream_view(k),
                orig.stream_capacity(k),
                Sample { timestamp: ts, value: values@[k.instance as int] },
            ) && hb.stream_capacity(k) == orig.stream_capacity(k) by {
                if k == key {
                    assert(pre.stream_view(k) == orig.stream_view(k));
                    assert(pre.stream_capacity(k) == orig.stream_capacity(k));
                } else {
                    assert(hb.stream_view(k) == pre.stream_view(k));
                    assert(hb.stream_capacity(k) == pre.stream_capacity(k));
                }
            }
            assert forall|k: StreamKey|
                !(k.kind == kind && (k.instance as int) < i + 1) implies #[trigger] hb.stream_view(
                k,
            ) == orig.stream_view(k) && hb.stream_capacity(k) == orig.stream_capacity(k) by {
                assert(k != key);
                assert(hb.stream_view(k) == pre.stream_view(k));
                assert(hb.stream_capacity(k) == pre.stream_capacity(k));
            }
            assert forall|k: StreamKey|
                #[trigger] hb.stream_capacity(k) == orig.stream_capacity(k) by {
                assert(hb.stream_capacity(k) == pre.stream_capacity(k));
            }
        }
        i = i + 1;
    }
}

/// The core engine: every component of the dashboard, driven by ticks and
/// keys.
pub struct Engine {
    pub sampler: MetricSampler,
    pub history: HistoryBuffer,
    pub table: ProcessTable,
    pub ui: UIState,
    pub log: HistoryLog,
    /// Whether appends still go to the persistent store this session.
    pub persist: bool,
    /// A one-time warning is owed to the operator after persistence
    /// degraded.
    pub warn_pending: bool,
    /// CPU cores of the host, bounding per-process utilization.
    pub cores: u64,
    /// The row the cursor sits on in the process view.
    pub cursor: usize,
    pub sort_key: SortKey,
    pub sort_order: SortOrder,
}

impl Engine {
    pub open spec fn wf(&self) -> bool {
        &&& self.history.wf()
        &&& self.table.wf()
        &&& ui_wf(self.ui@)
        &&& self.log.wf()
        &&& self.cores <= u64::MAX / 100
        &&& (self.sampler.has_prev ==> self.sampler.last_ts == self.table.last_ts)
    }

    /// A fresh engine: empty history sized for the widest chart, empty
    /// table, the configured panel column, and persistence on or off as
    /// the startup decided.
    pub fn new(
        chart_capacity: usize,
        cpu_height: u16,
        net_height: u16,
        disk_height: u16,
        process_height: u16,
        sensor_height: u16,
        term_width: u16,
        term_height: u16,
        persist: bool,
        cores: u64,
    ) -> (e: Engine)
        requires
            1 <= chart_capacity,
            cores <= u64::MAX / 100,
        ensures
            e.wf(),
            !e.sampler.has_prev,
            e.table.records@.len() == 0,
            e.table.last_ts == 0,
            e.table.selected is None,
            e.log.records@.len() == 0,
            e.persist == persist,
            !e.warn_pending,
            e.cores == cores,
            e.history.default_capacity == chart_capacity,
            forall|k: StreamKey| #[trigger] e.history.stream_view(k) == Seq::<Sample>::empty(),
    {
        Engine {
            sampler: MetricSampler::new(),
            history: HistoryBuffer::new(chart_capacity),
            table: ProcessTable::new(0),
            ui: UIState::new(
                cpu_height,
                net_height,
                disk_height,
                process_height,
                sensor_height,
                term_width,
                term_height,
            ),
            log: HistoryLog::new(),
            persist,
            warn_pending: false,
            cores,
            cursor: 0,
            sort_key: SortKey::Cpu,
            sort_order: SortOrder::Descending,
        }
    }

    /// One tick: normalize the raw readings, append every stream's value
    /// to the bounded history, persist the compact record while
    /// persistence is active, then reconcile the process table — in that
    /// order, so a following render reflects the committed sample.
    pub fn tick(&mut self, raw: RawMetrics) -> (d: ReconcileDiff)
        requires
            old(self).wf(),
            raw.timestamp > old(self).table.last_ts,
            unique_sample_pids(raw.processes@),
        ensures
            final(self).wf(),
    // every stream holds its ring-pushed sample; untouched streams stand
            forall|k: StreamKey|
                #[trigger] final(self).history.stream_view(k) == (match tick_value(
                    tick_cpu(old(self).sampler, raw),
                    tick_mem(raw),
                    tick_net_rx(old(self).sampler, raw),
                    tick_net_tx(old(self).sampler, raw),
                    tick_disk_read(old(self).sampler, raw),
                    tick_disk_write(old(self).sampler, raw),
                    k,
                ) {
                    Some(v) => ring_push(
                        old(self).history.stream_view(k),
                        old(self).history.stream_capacity(k),
                        Sample { timestamp: raw.timestamp, value: v },
                    ),
                    None => old(self).history.stream_view(k),
                }),
            forall|k: StreamKey|
                #[trigger] final(self).history.stream_capacity(k) == old(self).history.stream_capacity(k),
    // the table reconciled against the snapshot
            final(self).table.last_ts == raw.timestamp,
            final(self).table.records@.len() == raw.processes@.len(),
            forall|i: int|
                0 <= i < raw.processes@.len() ==> #[trigger] final(self).table.records@[i]
                    == reconciled_record(
                    old(self).table.records@,
                    raw.processes@[i],
                    (raw.timestamp - old(self).table.last_ts) as u64,
                    old(self).cores,
                ),
            d.added@ == added_pids(old(self).table.records@, raw.processes@),
            d.updated@ == updated_pids(old(self).table.records@, raw.processes@),
            d.removed@ == removed_pids(old(self).table.records@, raw.processes@),
            final(self).table.selected == (match old(self).table.selected {
                Some(p) => if has_sample_pid(raw.processes@, p) {
                    Some(p)
                } else {
                    None
                },
                None => None,
            }),
    // the log grew by exactly the tick's record while persistence is on
            old(self).persist ==> (if old(self).log.records@.len() == 0 || old(self).log.records@.last().timestamp < raw.timestamp {
                final(self).log.records@.len() == old(self).log.records@.len() + 1 && (forall|
                    j: int,
                |
                    0 <= j < old(self).log.records@.len() ==> #[trigger] final(self).log.records@[j]
                        == old(self).log.records@[j]) && final(self).log.records@.last().timestamp
                    == raw.timestamp && final(self).log.records@.last().points@ == persist_points(
                    tick_cpu(old(self).sampler, raw),
                    tick_mem(raw),
                )
            } else {
                final(self).log.records@ == old(self).log.records@
            }),
            !old(self).persist ==> final(self).log.records@ == old(self).log.records@,
    // nothing else moves
            final(self).sampler.has_prev && final(self).sampler.last_ts == raw.timestamp,
            final(self).ui@ == old(self).ui@,
            final(self).persist == old(self).persist,
            final(self).warn_pending == old(self).warn_pending,
            final(self).cores == old(self).cores,
            final(self).cursor == old(self).cursor,
            final(self).sort_key == old(self).sort_key,
            final(self).sort_order == old(self).sort_order,
    {
        let ghost old_sampler = self.sampler;
        let snap = self.sampler.sample(raw);
        let ts = snap.timestamp;

        let ghost h0 = self.history;
        append_family(&mut self.history, MetricKind::CpuCore, ts, &snap.cpu);
        let ghost h1 = self.history;
        self.history.append(StreamKey { kind: MetricKind::MemoryUsed, instance: 0 }, ts, snap.memory_used);
        let ghost h2 = self.history;
        append_family(&mut self.history, MetricKind::NetRx, ts, &snap.net_rx_rate);
        let ghost h3 = self.history;
        append_family(&mut self.history, MetricKind::NetTx, ts, &snap.net_tx_rate);
        let ghost h4 = self.history;
        append_family(&mut self.history, MetricKind::DiskRead, ts, &snap.disk_read_rate);
        let ghost h5 = self.history;
        append_family(&mut self.history, MetricKind::DiskWrite, ts, &snap.disk_write_rate);
        proof {
            let ghost h6 = self.history;
            assert forall|k: StreamKey| #[trigger] self.history.stream_capacity(k)
                == h0.stream_capacity(k) by {
                assert(h6.stream_capacity(k) == h5.stream_capacity(k));
                assert(h5.stream_capacity(k) == h4.stream_capacity(k));
                assert(h4.stream_capacity(k) == h3.stream_capacity(k));
                assert(h3.stream_capacity(k) == h2.stream_capacity(k));
                assert(h2.stream_capacity(k) == h1.stream_capacity(k));
                assert(h1.stream_capacity(k) == h0.stream_capacity(k));
            }
            assert forall|k: StreamKey|
                #[trigger] self.history.stream_view(k) == (match tick_value(
                    tick_cpu(old_sampler, raw),
                    tick_mem(raw),
                    tick_net_rx(old_sampler, raw),
                    tick_net_tx(old_sampler, raw),
                    tick_disk_read(old_sampler, raw),
                    tick_disk_write(old_sampler, raw),
                    k,
                ) {
                    Some(v) => ring_push(
                        h0.stream_view(k),
                        h0.stream_capacity(k),
                        Sample { timestamp: raw.timestamp, value: v },
                    ),
                    None => h0.stream_view(k),
                }) by {
                match k.kind {
                    MetricKind::CpuCore => {
                        if (k.instance as int) < snap.cpu@.len() {
                            assert(h1.stream_view(k) == ring_push(
                                h0.stream_view(k),
                                h0.stream_capacity(k),
                                Sample { timestamp: ts, value: snap.cpu@[k.instance as int] },
                            ));
                        } else {
                            assert(h1.stream_view(k) == h0.stream_view(k));
                        }
                        assert(h2.stream_view(k) == h1.stream_view(k));
                        assert(h3.stream_view(k) == h2.stream_view(k));
                        assert(h4.stream_view(k) == h3.stream_view(k));
                        assert(h5.stream_view(k) == h4.stream_view(k));
                        assert(h6.stream_view(k) == h5.stream_view(k));
                    },
                    MetricKind::MemoryUsed => {
                        assert(h1.stream_view(k) == h0.stream_view(k));
                        assert(h1.stream_capacity(k) == h0.stream_capacity(k));
                        if k.instance == 0 {
                            assert(h2.stream_view(k) == ring_push(
                                h1.stream_view(k),
                                h1.stream_capacity(k),
                                Sample { timestamp: ts, value: snap.memory_used },
                            ));
                        } else {
                            assert(h2.stream_view(k) == h1.stream_view(k));
                        }
                        assert(h3.stream_view(k) == h2.stream_view(k));
                        assert(h4.stream_view(k) == h3.stream_view(k));
                        assert(h5.stream_view(k) == h4.stream_view(k));
                        assert(h6.stream_view(k) == h5.stream_view(k));
                    },
                    MetricKind::NetRx => {
                        assert(h1.stream_view(k) == h0.stream_view(k));
                        assert(h2.stream_view(k) == h1.stream_view(k));
                        assert(h2.stream_capacity(k) == h0.stream_capacity(k));
                        if (k.instance as int) < snap.net_rx_rate@.len() {
                            assert(h3.stream_view(k) == ring_push(
                                h2.stream_view(k),
                                h2.stream_capacity(k),
                                Sample {
                                    timestamp: ts,
                                    value: snap.net_rx_rate@[k.instance as int],
                                },
                            ));
                        } else {
                            assert(h3.stream_view(k) == h2.stream_view(k));
                        }
                        assert(h4.stream_view(k) == h3.stream_view(k));
                        assert(h5.stream_view(k) == h4.stream_view(k));
                        assert(h6.stream_view(k) == h5.stream_view(k));
                    },
                    MetricKind::NetTx => {
                        assert(h1.stream_view(k) == h0.stream_view(k));
                        assert(h2.stream_view(k) == h1.stream_view(k));
                        assert(h3.stream_view(k) == h2.stream_view(k));
                        assert(h3.stream_capacity(k) == h0.stream_capacity(k));
                        if (k.instance as int) < snap.net_tx_rate@.len() {
                            assert(h4.stream_view(k) == ring_push(
                                h3.stream_view(k),
                                h3.stream_capacity(k),
                                Sample {
                                    timestamp: ts,
                                    value: snap.net_tx_rate@[k.instance as int],
                                },
                            ));
                        } else {
                            assert(h4.stream_view(k) == h3.stream_view(k));
                        }
                        assert(h5.stream_view(k) == h4.stream_view(k));
                        assert(h6.stream_view(k) == h5.stream_view(k));
                    },
                    MetricKind::DiskRead => {
                        assert(h1.stream_view(k) == h0.stream_view(k));
                        assert(h2.stream_view(k) == h1.stream_view(k));
                        assert(h3.stream_view(k) == h2.stream_view(k));
                        assert(h4.stream_view(k) == h3.stream_view(k));
                        assert(h4.stream_capacity(k) == h0.stream_capacity(k));
                        if (k.instance as int) < snap.disk_read_rate@.len() {
                            assert(h5.stream_view(k) == ring_push(
                                h4.stream_view(k),
                                h4.stream_capacity(k),
                                Sample {
                                    timestamp: ts,
                                    value: snap.disk_read_rate@[k.instance as int],
                                },
                            ));
                        } else {
                            assert(h5.stream_view(k) == h4.stream_view(k));
                        }
                        assert(h6.stream_view(k) == h5.stream_view(k));
                    },
                    MetricKind::DiskWrite => {
                        assert(h1.stream_view(k) == h0.stream_view(k));
                        assert(h2.stream_view(k) == h1.stream_view(k));
                        assert(h3.stream_view(k) == h2.stream_view(k));
                        assert(h4.stream_view(k) == h3.stream_view(k));
                        assert(h5.stream_view(k) == h4.stream_view(k));
                        assert(h5.stream_capacity(k) == h0.stream_capacity(k));
                        if (k.instance as int) < snap.disk_write_rate@.len() {
                            assert(h6.stream_view(k) == ring_push(
                                h5.stream_view(k),
                                h5.stream_capacity(k),
                                Sample {
                                    timestamp: ts,
                                    value: snap.disk_write_rate@[k.instance as int],
                                },
                            ));
                        } else {
                            assert(h6.stream_view(k) == h5.stream_view(k));
                        }
                    },
                    MetricKind::SensorTemp => {
                        assert(h1.stream_view(k) == h0.stream_view(k));
                        assert(h2.stream_view(k) == h1.stream_view(k));
                        assert(h3.stream_view(k) == h2.stream_view(k));
                        assert(h4.stream_view(k) == h3.stream_view(k));
                        assert(h5.stream_view(k) == h4.stream_view(k));
                        assert(h6.stream_view(k) == h5.stream_view(k));
                    },
                }
            }
        }

        if self.persist {
            let mut points: Vec<StreamPoint> = Vec::new();
            let mut i: usize = 0;
            while i < snap.cpu.len()
                invariant
                    i <= snap.cpu@.len(),
                    points@.len() == i,
                    forall|j: int|
                        0 <= j < i ==> #[trigger] points@[j] == (StreamPoint {
                            key: StreamKey { kind: MetricKind::CpuCore, instance: j as u64 },
                            value: snap.cpu@[j],
                        }),
                decreases snap.cpu@.len() - i,
            {
                points.push(
                    StreamPoint {
                        key: StreamKey { kind: MetricKind::CpuCore, instance: i as u64 },
                        value: snap.cpu[i],
                    },
                );
                i = i + 1;
            }
            points.push(
                StreamPoint {
                    key: StreamKey { kind: MetricKind::MemoryUsed, instance: 0 },
                    value: snap.memory_used,
                },
            );
            proof {
                assert(points@ =~= persist_points(tick_cpu(old_sampler, raw), tick_mem(raw)));
            }
            let rec = PersistedRecord { timestamp: ts, points };
            let _accepted = self.log.append(rec);
        }

        let d = self.table.reconcile(&snap.processes, ts, self.cores);
        d
    }

    /// Persistence failed mid-session (disk full, permission, I/O error):
    /// stop persisting for the rest of the run, keep the in-memory
    /// history going, and owe the operator one warning.
    pub fn persistence_failed(&mut self)
        requires
            old(self).wf(),
        ensures
            final(self).wf(),
            !final(self).persist,
            final(self).warn_pending,
            final(self).history == old(self).history,
            final(self).table == old(self).table,
            final(self).log == old(self).log,
            final(self).ui@ == old(self).ui@,
    {
        self.persist = false;
        self.warn_pending = true;
    }

    /// Hand out the owed warning, if any, exactly once.
    pub fn take_warning(&mut self) -> (w: bool)
        requires
            old(self).wf(),
        ensures
            final(self).wf(),
            w == old(self).warn_pending,
            !final(self).warn_pending,
            final(self).persist == old(self).persist,
            final(self).history == old(self).history,
            final(self).table == old(self).table,
            final(self).log == old(self).log,
            final(self).ui@ == old(self).ui@,
    {
        let w = self.warn_pending;
        self.warn_pending = false;
        w
    }

    /// React to one decoded key. Quit answers `Exit` and touches nothing,
    /// so the loop can unwind before the next tick. Tab, expand and
    /// minimize drive the panel layout exactly as its step function says;
    /// up and down move the process cursor; enter selects the process the
    /// cursor sits on; anything undecodable is ignored.
    pub fn handle_key(&mut self, key: InputKey) -> (a: EngineAction)
        requires
            old(self).wf(),
        ensures
            final(self).wf(),
            a is Exit <==> key is Quit,
            final(self).history == old(self).history,
            final(self).log == old(self).log,
            final(self).sampler == old(self).sampler,
            final(self).persist == old(self).persist,
            final(self).warn_pending == old(self).warn_pending,
            match key {
                InputKey::Quit => *final(self) == *old(self),
                InputKey::Tab => final(self).ui@ == step_spec(old(self).ui@, UiEvent::FocusNext)
                    && final(self).table == old(self).table && final(self).cursor == old(self).cursor && a is Redraw,
                InputKey::Expand => final(self).ui@ == step_spec(old(self).ui@, UiEvent::Expand)
                    && final(self).table == old(self).table && final(self).cursor == old(self).cursor && a is Redraw,
                InputKey::Minimize => final(self).ui@ == step_spec(
                    old(self).ui@,
                    UiEvent::Minimize,
                ) && final(self).table == old(self).table && final(self).cursor == old(self).cursor
                    && a is Redraw,
                InputKey::Up => final(self).ui@ == old(self).ui@ && final(self).table == old(self).table && final(self).cursor == (if old(self).cursor > 0 {
                    (old(self).cursor - 1) as usize
                } else {
                    0
                }) && a is Redraw,
                InputKey::Down => final(self).ui@ == old(self).ui@ && final(self).table == old(self).table && final(self).cursor as int == (if old(self).cursor + 1
                    < old(self).table.records@.len() {
                    old(self).cursor + 1
                } else if old(self).table.records@.len() > 0 {
                    old(self).table.records@.len() - 1
                } else {
                    0
                }) && a is Redraw,
                InputKey::Enter => final(self).ui@ == old(self).ui@ && final(self).cursor == old(self).cursor && final(self).table.records@ == old(self).table.records@ && (old(self).table.records@.len() > 0 ==> final(self).table.selected is Some
                    && has_record_pid(
                    old(self).table.records@,
                    final(self).table.selected->0,
                )) && (old(self).table.records@.len() == 0 ==> final(self).table == old(self).table)
                    && a is Redraw,
                InputKey::Other => *final(self) == *old(self) && a is Continue,
            },
    {
        match key {
            InputKey::Quit => EngineAction::Exit,
            InputKey::Tab => {
                self.ui.handle_event(UiEvent::FocusNext);
                EngineAction::Redraw
            },
            InputKey::Expand => {
                self.ui.handle_event(UiEvent::Expand);
                EngineAction::Redraw
            },
            InputKey::Minimize => {
                self.ui.handle_event(UiEvent::Minimize);
                EngineAction::Redraw
            },
            InputKey::Up => {
                if self.cursor > 0 {
                    self.cursor = self.cursor - 1;
                }
                EngineAction::Redraw
            },
            InputKey::Down => {
                let n = self.table.records.len();
                if n > 0 {
                    if self.cursor < n - 1 {
                        self.cursor = self.cursor + 1;
                    } else {
                        self.cursor = n - 1;
                    }
                } else {
                    self.cursor = 0;
                }
                EngineAction::Redraw
            },
            InputKey::Enter => {
                let n = self.table.records.len();
                if n > 0 {
                    let view = self.table.sorted_view(self.sort_key, self.sort_order);
                    let idx = if self.cursor < n {
                        self.cursor
                    } else {
                        n - 1
                    };
                    let pid = view[idx].pid;
                    proof {
                        broadcast use vstd::seq_lib::group_to_multiset_ensures;

                        assert(view@.contains(view@[idx as int]));
                        assert(view@.to_multiset().count(view@[idx as int]) > 0);
                        assert(self.table.records@.to_multiset().count(view@[idx as int])
                            > 0);
                        assert(self.table.records@.contains(view@[idx as int]));
                        let ghost target = view@[idx as int];
                        let w = choose|i: int|
                            0 <= i < self.table.records@.len() && self.table.records@[i]
                                == target;
                        assert(self.table.records@[w].pid == pid);
                    }
                    let _ok = self.table.select(pid);
                }
                EngineAction::Redraw
            },
            InputKey::Other => EngineAction::Continue,
        }
    }

    /// The terminal was resized: the layout reacts exactly as its step
    /// function says; nothing else moves.
    pub fn resize(&mut self, width: u16, height: u16)
        requires
            old(self).wf(),
        ensures
            final(self).wf(),
            final(self).ui@ == step_spec(old(self).ui@, UiEvent::Resize(width, height)),
            final(self).history == old(self).history,
            final(self).table == old(self).table,
            final(self).log == old(self).log,
    {
        self.ui.handle_event(UiEvent::Resize(width, height));
    }
}

/// One panel's slot in a rendered frame: its kind and the rows it was
/// allocated.
pub struct FrameSlot {
    pub kind: PanelKind,
    pub height: u16,
}

/// A frame description: the panel column with its allocated heights, and
/// the process rows in view order. Chart series are read off the history
/// buffer by key, which never mutates it.
pub struct FrameDesc {
    pub slots: Vec<FrameSlot>,
    pub rows: Vec<ProcessRecord>,
}

impl Engine {
    /// Describe one frame from the current state. Rendering is pure: it
    /// mutates nothing, the slots cover the panels in order, their heights
    /// never exceed the terminal (filling it exactly when everything
    /// fits), and the rows are the table sorted by the current key.
    pub fn render(&self) -> (f: FrameDesc)
        requires
            self.wf(),
        ensures
            f.slots@.len() == self.ui@.panels.len(),
            forall|i: int|
                0 <= i < f.slots@.len() ==> (#[trigger] f.slots@[i]).kind
                    == self.ui@.panels[i].kind,
            sum_heights(f.slots@.map_values(|s: FrameSlot| s.height)) <= self.ui@.term_height,
            base_sum(self.ui@.panels) <= self.ui@.term_height ==> sum_heights(
                f.slots@.map_values(|s: FrameSlot| s.height),
            ) == self.ui@.term_height && (forall|i: int|
                0 <= i < f.slots@.len() ==> (#[trigger] f.slots@[i]).height as int >= base_height(
                    self.ui@.panels[i],
                )),
            f.rows@.len() == self.table.records@.len(),
            f.rows@.to_multiset() == self.table.records@.to_multiset(),
            forall|a: int, b: int|
                0 <= a < b < f.rows@.len() ==> sort_le(
                    self.sort_key,
                    self.sort_order,
                    f.rows@[a],
                    f.rows@[b],
                ),
    {
        let heights = self.ui.allocate_heights();
        let mut slots: Vec<FrameSlot> = Vec::new();
        let mut i: usize = 0;
        while i < heights.len()
            invariant
                i <= heights@.len(),
                heights@.len() == self.ui@.panels.len(),
                slots@.len() == i,
                forall|j: int|
                    0 <= j < i ==> #[trigger] slots@[j] == (FrameSlot {
                        kind: self.ui@.panels[j].kind,
                        height: heights@[j],
                    }),
            decreases heights@.len() - i,
        {
            slots.push(FrameSlot { kind: self.ui.panels[i].kind, height: heights[i] });
            i = i + 1;
        }
        proof {
            assert(slots@.map_values(|s: FrameSlot| s.height) =~= heights@);
        }
        let rows = self.table.sorted_view(self.sort_key, self.sort_order);
        FrameDesc { slots, rows }
    }
}

} // verus!
