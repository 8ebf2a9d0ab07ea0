use zenith::sampler::{MetricSampler, RawMetrics};

fn raw(ts: u64) -> RawMetrics {
    RawMetrics {
        timestamp: ts,
        cpu: vec![30, 150],
        memory_used: 10_000,
        memory_total: 8_000,
        net_rx: vec![1_000],
        net_tx: vec![2_000],
        disk_read: vec![500],
        disk_write: vec![250],
        processes: vec![],
        sensors: vec![7],
    }
}

#[test]
fn cpu_is_clamped_and_memory_capped_by_total() {
    let mut s = MetricSampler::new();
    let snap = s.sample(raw(1000));
    assert_eq!(snap.cpu, vec![30, 100]); // 150 overshoots: clamped
    assert_eq!(snap.memory_used, 8_000); // never above the total
    assert_eq!(snap.memory_total, 8_000);
    assert_eq!(snap.sensors, vec![7]);
}

#[test]
fn first_tick_has_no_rates() {
    let mut s = MetricSampler::new();
    let snap = s.sample(raw(1000));
    assert_eq!(snap.net_rx_rate, vec![0]);
    assert_eq!(snap.net_tx_rate, vec![0]);
    assert_eq!(snap.disk_read_rate, vec![0]);
    assert_eq!(snap.disk_write_rate, vec![0]);
}

#[test]
fn rates_come_from_counter_deltas_per_second() {
    let mut s = MetricSampler::new();
    s.sample(raw(1000));
    let mut second = raw(3000); // 2000 ms later
    second.net_rx = vec![5_000]; // +4000 bytes -> 2000 B/s
    second.net_tx = vec![2_000]; // unchanged -> 0
    second.disk_read = vec![400]; // counter went backwards -> 0, no spike
    let snap = s.sample(second);
    assert_eq!(snap.net_rx_rate, vec![2_000]);
    assert_eq!(snap.net_tx_rate, vec![0]);
    assert_eq!(snap.disk_read_rate, vec![0]);
}

#[test]
fn interface_first_seen_mid_run_reports_zero_until_next_tick() {
    let mut s = MetricSampler::new();
    s.sample(raw(1000));
    let mut second = raw(2000);
    second.net_rx = vec![2_000, 9_000]; // a second interface appeared
    let snap = s.sample(second);
    assert_eq!(snap.net_rx_rate.len(), 2);
    assert_eq!(snap.net_rx_rate[1], 0); // no previous counter for it
}

#[test]
fn missing_cpu_reading_repeats_last_known_values() {
    let mut s = MetricSampler::new();
    s.sample(raw(1000));
    let mut second = raw(2000);
    second.cpu = vec![]; // the provider failed this tick
    let snap = s.sample(second);
    assert_eq!(snap.cpu, vec![30, 100]); // degraded to the last reading
    assert_eq!(snap.timestamp, 2000);
}
