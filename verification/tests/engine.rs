use zenith::engine::{Engine, EngineAction, InputKey};
use zenith::history::{MetricKind, StreamKey};
use zenith::process::{ProcState, ProcessSample};
use zenith::sampler::RawMetrics;

fn raw(ts: u64, cpu: Vec<u64>, processes: Vec<ProcessSample>) -> RawMetrics {
    RawMetrics {
        timestamp: ts,
        cpu,
        memory_used: 4096,
        memory_total: 8192,
        net_rx: vec![1000 * ts],
        net_tx: vec![500 * ts],
        disk_read: vec![100 * ts],
        disk_write: vec![50 * ts],
        processes,
        sensors: vec![],
    }
}

fn proc(pid: u32, cpu_time: u64) -> ProcessSample {
    ProcessSample {
        pid,
        ppid: 1,
        name: format!("p{}", pid),
        owner: String::from("me"),
        cpu_time,
        memory: 100,
        disk_read_total: 0,
        disk_write_total: 0,
        state: ProcState::Sleeping,
    }
}

fn engine(persist: bool) -> Engine {
    // chart sized for a cpu panel 10 rows high; 2 cores; no sensor panel
    Engine::new(10, 10, 10, 10, 8, 0, 80, 50, persist, 2)
}

#[test]
fn five_ticks_at_2000ms_fill_core0_with_five_increasing_clamped_entries() {
    // refresh rate 2000 ms, history store disabled, cpu panel height 10
    let mut e = engine(false);
    let values = [55u64, 120, 0, 99, 101]; // raw readings may overshoot 100
    for (i, v) in values.iter().enumerate() {
        let ts = 2000 * (i as u64 + 1);
        e.tick(raw(ts, vec![*v, 10], vec![]));
    }
    let w = e.history.window(
        StreamKey { kind: MetricKind::CpuCore, instance: 0 },
        10,
    );
    assert_eq!(w.len(), 5);
    let mut last_ts = 0;
    for s in &w {
        assert!(s.timestamp > last_ts);
        last_ts = s.timestamp;
        assert!(s.value <= 100);
    }
    let got: Vec<u64> = w.iter().map(|s| s.value).collect();
    assert_eq!(got, vec![55, 100, 0, 99, 100]);
    // history disabled: the log stayed empty
    assert_eq!(e.log.len(), 0);
}

#[test]
fn pid_42_gone_in_tick_4_leaves_no_row_and_no_selection() {
    let mut e = engine(false);
    for i in 1..=3u64 {
        e.tick(raw(1000 * i, vec![10], vec![proc(42, 100 * i), proc(1, 0)]));
    }
    assert!(e.table.select(42));
    // tick 4: pid 42 is absent
    let d = e.tick(raw(4000, vec![10], vec![proc(1, 5)]));
    assert_eq!(d.removed, vec![42]);
    let f = e.render();
    assert!(f.rows.iter().all(|r| r.pid != 42));
    assert!(e.table.selected().is_none());
}

#[test]
fn quit_exits_before_any_work_and_other_keys_redraw() {
    let mut e = engine(false);
    e.tick(raw(1000, vec![10], vec![proc(1, 0)]));
    let rows_before = e.table.records.len();
    assert!(matches!(e.handle_key(InputKey::Quit), EngineAction::Exit));
    assert_eq!(e.table.records.len(), rows_before); // nothing changed
    assert!(matches!(e.handle_key(InputKey::Tab), EngineAction::Redraw));
    assert!(matches!(e.handle_key(InputKey::Other), EngineAction::Continue));
}

#[test]
fn ticks_persist_compact_records_while_enabled() {
    let mut e = engine(true);
    e.tick(raw(2000, vec![40, 60], vec![]));
    e.tick(raw(4000, vec![50, 50], vec![]));
    assert_eq!(e.log.len(), 2);
    let recs = e.log.load_recent(u64::MAX);
    assert_eq!(recs[0].timestamp, 2000);
    assert_eq!(recs[1].timestamp, 4000);
    // one point per core plus one for memory
    assert_eq!(recs[0].points.len(), 3);
    assert_eq!(recs[0].points[0].value, 40);
    assert_eq!(recs[0].points[1].value, 60);
    assert_eq!(recs[0].points[2].value, 4096);
}

#[test]
fn persistence_fault_degrades_to_memory_only_with_one_warning() {
    let mut e = engine(true);
    e.tick(raw(2000, vec![10], vec![]));
    e.persistence_failed();
    e.tick(raw(4000, vec![10], vec![]));
    assert_eq!(e.log.len(), 1); // no further writes
    // in-memory history kept running
    let w = e.history.window(StreamKey { kind: MetricKind::CpuCore, instance: 0 }, 10);
    assert_eq!(w.len(), 2);
    assert!(e.take_warning()); // the warning is owed exactly once
    assert!(!e.take_warning());
}

#[test]
fn empty_cpu_reading_repeats_the_last_known_values() {
    let mut e = engine(false);
    e.tick(raw(2000, vec![42, 7], vec![]));
    // the provider returned nothing this tick: degrade, do not crash
    e.tick(raw(4000, vec![], vec![]));
    let w = e.history.window(StreamKey { kind: MetricKind::CpuCore, instance: 0 }, 10);
    assert_eq!(w.len(), 2);
    assert_eq!(w[1].value, 42); // repeated, stamped with the new tick
    assert_eq!(w[1].timestamp, 4000);
}

#[test]
fn network_rates_derive_from_cumulative_counters() {
    let mut e = engine(false);
    e.tick(raw(1000, vec![1], vec![]));
    e.tick(raw(3000, vec![1], vec![]));
    // raw() makes rx counters 1000*ts: +2_000_000 bytes over 2000 ms
    let w = e.history.window(StreamKey { kind: MetricKind::NetRx, instance: 0 }, 10);
    assert_eq!(w.len(), 2);
    assert_eq!(w[0].value, 0); // first tick: no previous counter
    assert_eq!(w[1].value, 1_000_000);
}

#[test]
fn render_reflects_layout_and_sorted_rows() {
    let mut e = engine(false);
    e.tick(raw(1000, vec![10], vec![proc(2, 0), proc(1, 0)]));
    let f = e.render();
    assert_eq!(f.slots.len(), 4);
    let total: u32 = f.slots.iter().map(|s| s.height as u32).sum();
    assert!(total <= 50);
    assert_eq!(f.rows.len(), 2);
    // default sort is cpu descending with pid tiebreak; both at 0% -> by pid
    assert_eq!(f.rows[0].pid, 1);
    assert_eq!(f.rows[1].pid, 2);
}

#[test]
fn cursor_moves_and_enter_selects_the_row() {
    let mut e = engine(false);
    e.tick(raw(1000, vec![10], vec![proc(2, 0), proc(1, 0), proc(3, 0)]));
    assert!(matches!(e.handle_key(InputKey::Down), EngineAction::Redraw));
    assert_eq!(e.cursor, 1);
    e.handle_key(InputKey::Enter);
    // rows sort by pid here (all cpu equal): row 1 is pid 2
    assert_eq!(e.table.selected().map(|r| r.pid), Some(2));
    e.handle_key(InputKey::Up);
    e.handle_key(InputKey::Up);
    assert_eq!(e.cursor, 0);
}
