use zenith::history::{MetricKind, StreamKey};
use zenith::store::{HistoryLog, OpenOutcome, PersistedRecord, StreamPoint, open_decision};

fn rec(ts: u64, value: u64) -> PersistedRecord {
    PersistedRecord {
        timestamp: ts,
        points: vec![StreamPoint {
            key: StreamKey { kind: MetricKind::CpuCore, instance: 0 },
            value,
        }],
    }
}

#[test]
fn second_open_on_a_held_lock_is_refused_until_clean_shutdown() {
    // the directory starts without a lock marker
    let mut lock_present = false;
    // first instance opens with history on: it takes the lock
    let first = open_decision(lock_present, true);
    assert!(matches!(first, OpenOutcome::Opened));
    lock_present = true; // the marker now exists on disk
    // a second instance on the same path while the first still runs
    let second = open_decision(lock_present, true);
    assert!(matches!(second, OpenOutcome::LockHeld));
    // the first instance shuts down cleanly and removes the marker
    lock_present = false;
    let third = open_decision(lock_present, true);
    assert!(matches!(third, OpenOutcome::Opened));
}

#[test]
fn history_disabled_never_touches_the_store() {
    assert!(matches!(open_decision(false, false), OpenOutcome::Disabled));
    // even a held lock is no obstacle when persistence is off
    assert!(matches!(open_decision(true, false), OpenOutcome::Disabled));
}

#[test]
fn stale_lock_still_blocks_a_writer() {
    // a crash left the marker behind: the tool refuses to run with history
    // rather than risk concurrent corruption
    assert!(matches!(open_decision(true, true), OpenOutcome::LockHeld));
}

#[test]
fn log_is_append_only_with_monotonic_timestamps() {
    let mut log = HistoryLog::new();
    assert!(log.append(rec(100, 1)));
    assert!(log.append(rec(200, 2)));
    assert!(!log.append(rec(200, 3))); // same timestamp: refused
    assert!(!log.append(rec(150, 4))); // going backwards: refused
    assert!(log.append(rec(300, 5)));
    assert_eq!(log.len(), 3);
    let all = log.load_recent(u64::MAX);
    let ts: Vec<u64> = all.iter().map(|r| r.timestamp).collect();
    assert_eq!(ts, vec![100, 200, 300]); // order of arrival, never rewritten
}

#[test]
fn load_recent_returns_the_trailing_window_in_order() {
    let mut log = HistoryLog::new();
    for i in 1..=5u64 {
        assert!(log.append(rec(i * 1000, i)));
    }
    let recent = log.load_recent(2000); // cutoff at 5000 - 2000 = 3000
    let ts: Vec<u64> = recent.iter().map(|r| r.timestamp).collect();
    assert_eq!(ts, vec![3000, 4000, 5000]);
    let everything = log.load_recent(1_000_000);
    assert_eq!(everything.len(), 5);
}

#[test]
fn load_recent_on_empty_log_is_empty() {
    let log = HistoryLog::new();
    assert!(log.load_recent(5000).is_empty());
}

#[test]
fn loaded_records_carry_their_points() {
    let mut log = HistoryLog::new();
    assert!(log.append(rec(10, 77)));
    let out = log.load_recent(1000);
    assert_eq!(out.len(), 1);
    assert_eq!(out[0].points.len(), 1);
    assert_eq!(out[0].points[0].value, 77);
}
