use zenith::history::{HistoryBuffer, HistoryStream, MetricKind, Sample, StreamKey};

fn key(kind: MetricKind, instance: u64) -> StreamKey {
    StreamKey { kind, instance }
}

#[test]
fn ring_keeps_last_capacity_values_in_order() {
    let mut s = HistoryStream::new(key(MetricKind::CpuCore, 0), 3);
    for (ts, v) in [(1u64, 10u64), (2, 20), (3, 30), (4, 40), (5, 50)] {
        s.append(ts, v);
        assert!(s.len() <= 3);
    }
    let w = s.window(10);
    let got: Vec<(u64, u64)> = w.iter().map(|e| (e.timestamp, e.value)).collect();
    assert_eq!(got, vec![(3, 30), (4, 40), (5, 50)]);
}

#[test]
fn ring_under_capacity_keeps_everything() {
    let mut s = HistoryStream::new(key(MetricKind::NetRx, 1), 8);
    s.append(1, 100);
    s.append(2, 200);
    let w = s.window(8);
    assert_eq!(w.len(), 2);
    assert_eq!((w[0].timestamp, w[0].value), (1, 100));
    assert_eq!((w[1].timestamp, w[1].value), (2, 200));
}

#[test]
fn window_is_idempotent_and_never_mutates() {
    let mut b = HistoryBuffer::new(4);
    let k = key(MetricKind::DiskRead, 0);
    b.append(k, 1, 5);
    b.append(k, 2, 6);
    b.append(k, 3, 7);
    let w1: Vec<Sample> = b.window(k, 2);
    let w2: Vec<Sample> = b.window(k, 2);
    let p1: Vec<(u64, u64)> = w1.iter().map(|e| (e.timestamp, e.value)).collect();
    let p2: Vec<(u64, u64)> = w2.iter().map(|e| (e.timestamp, e.value)).collect();
    assert_eq!(p1, p2);
    assert_eq!(p1, vec![(2, 6), (3, 7)]);
    // a third read after the two reads still sees the same state
    let w3 = b.window(k, 10);
    assert_eq!(w3.len(), 3);
}

#[test]
fn unknown_stream_reads_as_empty() {
    let b = HistoryBuffer::new(4);
    let w = b.window(key(MetricKind::SensorTemp, 9), 5);
    assert!(w.is_empty());
}

#[test]
fn lazy_creation_and_independence_of_streams() {
    let mut b = HistoryBuffer::new(2);
    let ka = key(MetricKind::NetRx, 0);
    let kb = key(MetricKind::NetTx, 0);
    b.append(ka, 1, 11);
    b.append(kb, 1, 21);
    b.append(ka, 2, 12);
    b.append(ka, 3, 13);
    let wa = b.window(ka, 10);
    let wb = b.window(kb, 10);
    assert_eq!(wa.len(), 2); // capacity 2: oldest evicted
    assert_eq!((wa[0].timestamp, wa[0].value), (2, 12));
    assert_eq!((wa[1].timestamp, wa[1].value), (3, 13));
    assert_eq!(wb.len(), 1);
    assert_eq!((wb[0].timestamp, wb[0].value), (1, 21));
}

#[test]
fn reserve_window_grows_and_never_drops_data() {
    let mut b = HistoryBuffer::new(2);
    let k = key(MetricKind::CpuCore, 3);
    b.append(k, 1, 1);
    b.append(k, 2, 2);
    b.reserve_window(k, 5);
    b.append(k, 3, 3);
    let w = b.window(k, 10);
    assert_eq!(w.len(), 3); // grown past the old capacity of 2
    b.reserve_window(k, 1); // never shrinks
    let w = b.window(k, 10);
    assert_eq!(w.len(), 3);
}
