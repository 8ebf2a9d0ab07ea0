use zenith::process::{
    ProcState, ProcessSample, ProcessTable, SortKey, SortOrder,
};

fn sample(pid: u32, cpu_time: u64, memory: u64) -> ProcessSample {
    ProcessSample {
        pid,
        ppid: 1,
        name: format!("proc{}", pid),
        owner: String::from("root"),
        cpu_time,
        memory,
        disk_read_total: 0,
        disk_write_total: 0,
        state: ProcState::Running,
    }
}

#[test]
fn cpu_percent_from_two_ticks_matches_delta_over_wall_time() {
    let mut t = ProcessTable::new(0);
    // tick 1 at 1000 ms: pid 7 first seen -> 0%
    let t1 = vec![sample(7, 500, 1024)];
    t.reconcile(&t1, 1000, 4);
    assert_eq!(t.records[0].cpu_percent, 0);
    // tick 2 at 3000 ms: cpu_time grew by 1000 ms over 2000 ms wall -> 50%
    let t2 = vec![sample(7, 1500, 1024)];
    t.reconcile(&t2, 3000, 4);
    assert_eq!(t.records[0].cpu_percent, 50);
}

#[test]
fn cpu_percent_clamps_to_core_count() {
    let mut t = ProcessTable::new(0);
    t.reconcile(&vec![sample(9, 0, 0)], 1000, 2);
    // 10000 ms of cpu over 1000 ms wall would be 1000%; clamped to 100 * 2
    t.reconcile(&vec![sample(9, 10_000, 0)], 2000, 2);
    assert_eq!(t.records[0].cpu_percent, 200);
}

#[test]
fn counter_that_did_not_grow_reads_zero() {
    let mut t = ProcessTable::new(0);
    t.reconcile(&vec![sample(3, 800, 0)], 1000, 1);
    // cumulative counter went backwards (pid reuse inside the provider):
    // no spurious spike, report 0
    t.reconcile(&vec![sample(3, 700, 0)], 2000, 1);
    assert_eq!(t.records[0].cpu_percent, 0);
}

#[test]
fn diff_reports_added_updated_removed() {
    let mut t = ProcessTable::new(0);
    let d1 = t.reconcile(&vec![sample(1, 0, 0), sample(2, 0, 0)], 1000, 1);
    assert_eq!(d1.added, vec![1, 2]);
    assert!(d1.removed.is_empty());
    assert!(d1.updated.is_empty());
    let d2 = t.reconcile(&vec![sample(2, 10, 0), sample(3, 0, 0)], 2000, 1);
    assert_eq!(d2.added, vec![3]);
    assert_eq!(d2.updated, vec![2]);
    assert_eq!(d2.removed, vec![1]);
}

#[test]
fn removing_selected_pid_clears_selection_and_reports_removed() {
    let mut t = ProcessTable::new(0);
    t.reconcile(&vec![sample(5, 0, 0), sample(6, 0, 0)], 1000, 1);
    assert!(t.select(5));
    assert_eq!(t.selected().map(|r| r.pid), Some(5));
    let d = t.reconcile(&vec![sample(6, 5, 0)], 2000, 1);
    assert_eq!(d.removed, vec![5]);
    assert!(t.selected().is_none());
}

#[test]
fn selection_survives_when_pid_stays() {
    let mut t = ProcessTable::new(0);
    t.reconcile(&vec![sample(5, 0, 0), sample(6, 0, 0)], 1000, 1);
    assert!(t.select(6));
    t.reconcile(&vec![sample(6, 5, 0)], 2000, 1);
    assert_eq!(t.selected().map(|r| r.pid), Some(6));
}

#[test]
fn selecting_a_dead_pid_fails_and_changes_nothing() {
    let mut t = ProcessTable::new(0);
    t.reconcile(&vec![sample(5, 0, 0)], 1000, 1);
    assert!(!t.select(99));
    assert!(t.selected().is_none());
}

#[test]
fn sorted_view_orders_by_key_with_pid_tiebreak() {
    let mut t = ProcessTable::new(0);
    t.reconcile(
        &vec![sample(30, 0, 50), sample(10, 0, 90), sample(20, 0, 50)],
        1000,
        1,
    );
    let by_mem = t.sorted_view(SortKey::Memory, SortOrder::Descending);
    let pids: Vec<u32> = by_mem.iter().map(|r| r.pid).collect();
    // 90 first; the two 50s tie and fall back to ascending pid
    assert_eq!(pids, vec![10, 20, 30]);
    let by_pid = t.sorted_view(SortKey::Pid, SortOrder::Ascending);
    let pids: Vec<u32> = by_pid.iter().map(|r| r.pid).collect();
    assert_eq!(pids, vec![10, 20, 30]);
    // sorting never mutates the table
    assert_eq!(t.records.len(), 3);
}

#[test]
fn sorted_view_is_stable_across_repeated_calls() {
    let mut t = ProcessTable::new(0);
    t.reconcile(&vec![sample(4, 0, 10), sample(2, 0, 10), sample(8, 0, 10)], 1000, 1);
    let a: Vec<u32> = t
        .sorted_view(SortKey::Memory, SortOrder::Ascending)
        .iter()
        .map(|r| r.pid)
        .collect();
    let b: Vec<u32> = t
        .sorted_view(SortKey::Memory, SortOrder::Ascending)
        .iter()
        .map(|r| r.pid)
        .collect();
    assert_eq!(a, b);
    assert_eq!(a, vec![2, 4, 8]);
}

#[test]
fn pid_absent_after_three_ticks_leaves_no_trace() {
    let mut t = ProcessTable::new(0);
    t.reconcile(&vec![sample(42, 100, 0), sample(1, 0, 0)], 1000, 1);
    t.reconcile(&vec![sample(42, 200, 0), sample(1, 0, 0)], 2000, 1);
    t.reconcile(&vec![sample(42, 300, 0), sample(1, 0, 0)], 3000, 1);
    assert!(t.select(42));
    // tick 4: pid 42 is gone
    t.reconcile(&vec![sample(1, 10, 0)], 4000, 1);
    let view = t.sorted_view(SortKey::Pid, SortOrder::Ascending);
    assert!(view.iter().all(|r| r.pid != 42));
    assert!(t.selected().is_none());
}

#[test]
fn disk_rates_derive_from_cumulative_counters() {
    let mut t = ProcessTable::new(0);
    let mut s1 = sample(11, 0, 0);
    s1.disk_read_total = 1000;
    s1.disk_write_total = 500;
    t.reconcile(&vec![s1], 1000, 1);
    assert_eq!(t.records[0].read_rate, 0); // first sight: no rate yet
    let mut s2 = sample(11, 0, 0);
    s2.disk_read_total = 3000; // +2000 bytes over 2000 ms = 1000 B/s
    s2.disk_write_total = 500; // unchanged = 0 B/s
    t.reconcile(&vec![s2], 3000, 1);
    assert_eq!(t.records[0].read_rate, 1000);
    assert_eq!(t.records[0].write_rate, 0);
}
