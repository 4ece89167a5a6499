use satlink::clock::{Duration, Instant, Timestamp};
use satlink::fault::fault_event_packet;
use satlink::monitor::MonitoringData;
use satlink::task::{
    check_preparation, exec_jitter, is_work_over, offer_downlink, settle_downlink,
    start_processing, work_message, Answer, Fate, Offer, Slot, TaskState, MAX_DOWNLINK_BUFFER,
    SAMPLE_LIMIT,
};
use satlink::types::SensorData;
use std::collections::VecDeque;

const MS: u128 = 1_000_000;

fn at(nanos: u128) -> Instant {
    Instant { nanos }
}

fn utc(ms: i64) -> Timestamp {
    Timestamp { secs: ms / 1000, nanos: (ms % 1000) as u32 * 1_000_000 }
}

fn sample(name: &str, priority: u8, mark: u64) -> SensorData {
    SensorData {
        name: name.to_string(),
        value: mark,
        generated_at: utc(1000),
        queued_at: utc(1000),
        priority,
    }
}

fn marks(t: &TaskState) -> Vec<u64> {
    t.buffer.iter().map(|d| d.value).collect()
}

fn put(t: &mut TaskState, m: &mut MonitoringData, data: SensorData) -> Fate {
    t.ingest(m, data, utc(1004), at(1)).fate
}

#[test]
fn samples_are_ordered_by_priority_and_arrival() {
    let mut t = TaskState::new(at(0));
    let mut m = MonitoringData::new();
    for (p, mark) in [(1u8, 10u64), (3, 30), (2, 20), (3, 31), (1, 11), (2, 21)] {
        assert!(matches!(put(&mut t, &mut m, sample("A", p, mark)), Fate::Stored));
    }
    assert_eq!(marks(&t), vec![30, 31, 20, 21, 10, 11]);
    assert!(t.buffer.iter().all(|d| d.queued_at == utc(1004)));
    assert_eq!(t.last_received, Some(at(1)));
}

#[test]
fn ingest_records_latency_and_backlog() {
    let mut t = TaskState::new(at(0));
    let mut m = MonitoringData::new();
    let r = t.ingest(&mut m, sample("A", 1, 0), utc(1004), at(1));
    assert_eq!(r.latency_ms, 4);
    let r = t.ingest(&mut m, sample("A", 1, 0), utc(998), at(1));
    assert_eq!(r.latency_ms, -2);
    let stat = m.sat_metrics.insert_latency.get("A").unwrap();
    assert_eq!((stat.count, stat.sum_micros, stat.min_micros), (2, 4000, 0));
    assert_eq!((m.sat_metrics.backlog_sum, m.sat_metrics.backlog_count), (1, 2));
    assert_eq!((m.sat_metrics.backlog_max, m.sat_metrics.backlog_min), (1, 0));
    assert_eq!(m.sat_metrics.dropped_samples, 0);
}

#[test]
fn full_buffer_gives_up_its_lowest_priority() {
    let mut t = TaskState::new(at(0));
    let mut m = MonitoringData::new();
    put(&mut t, &mut m, sample("A", 2, 7));
    put(&mut t, &mut m, sample("A", 2, 8));
    for i in 0..(SAMPLE_LIMIT as u64 - 2) {
        put(&mut t, &mut m, sample("A", 5, 1000 + i));
    }
    assert_eq!(t.buffer.len(), SAMPLE_LIMIT);
    // below every resident: refused
    match put(&mut t, &mut m, sample("A", 1, 99)) {
        Fate::Refused(d) => assert_eq!(d.value, 99),
        _ => panic!("not refused"),
    }
    assert_eq!(t.buffer.len(), SAMPLE_LIMIT);
    // as low as the lowest: the first of those leaves
    match put(&mut t, &mut m, sample("A", 2, 9)) {
        Fate::Evicted(d) => assert_eq!(d.value, 7),
        _ => panic!("not evicted"),
    }
    match put(&mut t, &mut m, sample("A", 6, 60)) {
        Fate::Evicted(d) => assert_eq!(d.value, 8),
        _ => panic!("not evicted"),
    }
    assert_eq!(t.buffer.len(), SAMPLE_LIMIT);
    assert_eq!(t.buffer[0].value, 60);
    assert_eq!(t.buffer[SAMPLE_LIMIT - 1].value, 9);
    assert!(t.buffer.iter().zip(t.buffer.iter().skip(1)).all(|(a, b)| a.priority >= b.priority));
    assert_eq!(m.sat_metrics.dropped_samples, 3);
}

#[test]
fn greatest_samples_of_a_run_are_kept() {
    let n: u64 = 900;
    let priority = |i: u64| ((i * 7919) % 11) as u8;
    let mut t = TaskState::new(at(0));
    let mut m = MonitoringData::new();
    for i in 0..n {
        put(&mut t, &mut m, sample("A", priority(i), i));
    }
    // the greatest by priority, then by arrival
    let mut ranked: Vec<u64> = (0..n).collect();
    ranked.sort_by_key(|i| (priority(*i), *i));
    let mut kept: Vec<u64> = ranked[(n as usize - SAMPLE_LIMIT)..].to_vec();
    // handed out by falling priority, then by arrival
    kept.sort_by_key(|i| (std::cmp::Reverse(priority(*i)), *i));
    assert_eq!(marks(&t), kept);
    assert_eq!(m.sat_metrics.dropped_samples, n - SAMPLE_LIMIT as u64);
    let mut out = Vec::new();
    while out.len() < SAMPLE_LIMIT {
        t.begin_pass();
        while let Slot::Sample(d) = t.next_slot(at(10_000 * MS)) {
            out.push(d.value);
        }
    }
    assert_eq!(out, kept);
}

#[test]
fn silence_of_the_temperature_raises_an_alert() {
    let mut t = TaskState::new(at(0));
    let mut m = MonitoringData::new();
    // nothing received yet
    assert!(!t.check_missed_data(at(100 * MS)));
    assert_eq!(t.missed_cycles, 0);
    t.ingest(&mut m, sample("TempSensor", 1, 0), utc(1000), at(0));
    assert!(!t.check_missed_data(at(30 * MS)));
    assert_eq!(t.missed_cycles, 0);
    assert!(!t.check_missed_data(at(30 * MS + 1)));
    assert!(!t.check_missed_data(at(31 * MS)));
    assert!(t.check_missed_data(at(32 * MS)));
    assert_eq!(t.missed_cycles, 3);
    t.ingest(&mut m, sample("TempSensor", 1, 0), utc(1000), at(33 * MS));
    assert_eq!(t.missed_cycles, 0);
}

#[test]
fn each_sensor_has_its_own_silence() {
    for (name, limit) in [("AccelSensor", 36), ("GyroSensor", 45), ("Other", 90)] {
        let mut t = TaskState::new(at(0));
        let mut m = MonitoringData::new();
        t.ingest(&mut m, sample(name, 1, 0), utc(1000), at(0));
        t.check_missed_data(at(limit * MS));
        assert_eq!(t.missed_cycles, 0);
        for _ in 0..4 {
            assert!(!t.check_missed_data(at(limit * MS + 1)));
        }
        assert_eq!(t.missed_cycles, 4);
    }
    // with an empty buffer the longest silence counts
    let mut t = TaskState::new(at(0));
    t.last_received = Some(at(0));
    t.check_missed_data(at(90 * MS));
    assert_eq!(t.missed_cycles, 0);
    t.check_missed_data(at(90 * MS + 1));
    assert_eq!(t.missed_cycles, 1);
}

#[test]
fn larger_backlogs_get_more_slots() {
    for (backlog, slots) in [(0, 32), (32, 32), (33, 64), (96, 64), (97, 128), (256, 128), (257, 256)] {
        let mut t = TaskState::new(at(0));
        let mut m = MonitoringData::new();
        for _ in 0..backlog {
            put(&mut t, &mut m, sample("A", 1, 0));
        }
        t.handled = 9;
        t.begin_pass();
        assert_eq!(t.max_per_loop, slots);
        assert_eq!(t.handled, 0);
    }
}

#[test]
fn slots_come_one_per_millisecond() {
    let mut t = TaskState::new(at(10 * MS));
    let mut m = MonitoringData::new();
    put(&mut t, &mut m, sample("A", 1, 1));
    put(&mut t, &mut m, sample("A", 2, 2));
    // before a pass there is no slot
    assert!(matches!(t.next_slot(at(50 * MS)), Slot::Closed));
    t.begin_pass();
    assert!(matches!(t.next_slot(at(10 * MS - 1)), Slot::Closed));
    match t.next_slot(at(12 * MS)) {
        Slot::Sample(d) => assert_eq!(d.value, 2),
        _ => panic!("no sample"),
    }
    match t.next_slot(at(12 * MS)) {
        Slot::Sample(d) => assert_eq!(d.value, 1),
        _ => panic!("no sample"),
    }
    assert!(matches!(t.next_slot(at(12 * MS)), Slot::Idle));
    assert!(matches!(t.next_slot(at(12 * MS)), Slot::Closed));
    assert_eq!(t.expected_time, at(13 * MS));
    assert_eq!(t.handled, 3);
}

#[test]
fn a_pass_ends_when_its_slots_are_used_up() {
    let mut t = TaskState::new(at(0));
    t.begin_pass();
    for _ in 0..32 {
        assert!(matches!(t.next_slot(at(1000 * MS)), Slot::Idle));
    }
    assert!(matches!(t.next_slot(at(1000 * MS)), Slot::Closed));
    assert_eq!(t.expected_time, at(32 * MS));
}

#[test]
fn pause_is_shorter_with_a_backlog() {
    let mut t = TaskState::new(at(0));
    let mut m = MonitoringData::new();
    assert_eq!(t.pause(), Duration::from_millis(2));
    put(&mut t, &mut m, sample("A", 1, 1));
    assert_eq!(t.pause(), Duration::from_micros(200));
}

#[test]
fn processing_measures_drift_and_delay() {
    let mut m = MonitoringData::new();
    let data = sample("TempSensor", 1, 0);
    let r = start_processing(&mut m, &data, at(11 * MS), at(12 * MS + 5), utc(1006));
    assert_eq!(r.drift, Duration { nanos: 2 * MS + 5 });
    assert_eq!((r.e2e_ms, r.init_delay_ms), (6, 6));
    assert_eq!(
        r.missed_downlink.unwrap(),
        "📡 Missed downlink for TempSensor | latency=6ms"
    );
    assert!(r.critical);
    assert_eq!(m.sat_metrics.scheduling_drift.sum_micros, 2000);
    let r = start_processing(&mut m, &sample("A", 1, 0), at(5), at(9), utc(1005));
    // the slot cannot begin before the clock does
    assert_eq!(r.drift, Duration { nanos: 4 });
    assert!(r.missed_downlink.is_none());
    assert!(!r.critical);
    let r = start_processing(&mut m, &data, at(5), at(3), utc(990));
    assert_eq!((r.drift.nanos, r.e2e_ms, r.init_delay_ms), (0, -10, 0));
}

#[test]
fn work_ends_with_its_budget_or_for_the_critical_sensor() {
    assert!(!is_work_over(at(7), at(7 + MS - 1), false));
    assert!(is_work_over(at(7), at(7 + MS), false));
    assert!(is_work_over(at(7), at(7), true));
    assert_eq!(exec_jitter(Duration { nanos: MS + 3 }), Duration { nanos: 3 });
    assert_eq!(exec_jitter(Duration { nanos: MS - 3 }), Duration { nanos: 3 });
}

#[test]
fn preparation_of_more_than_thirty_milliseconds_is_late() {
    let mut data = sample("A", 1, 0);
    data.queued_at = utc(1030);
    let r = check_preparation(&data);
    assert_eq!(r.elapsed_ms, 30);
    assert!(r.missed_downlink.is_none());
    data.queued_at = utc(1031);
    let r = check_preparation(&data);
    assert_eq!(r.missed_downlink.unwrap(), "📡 Missed downlink for A | latency=31ms");
}

#[test]
fn downlink_buffer_takes_128_packets() {
    let mut ring = VecDeque::new();
    let mut m = MonitoringData::new();
    for n in 1..=MAX_DOWNLINK_BUFFER {
        match offer_downlink(&mut ring, &mut m, fault_event_packet(utc(0), at(0), utc(0))) {
            Offer::Taken { degraded } => assert_eq!(degraded, n as f32 / 128.0 > 0.8),
            Offer::Full(_) => panic!("full"),
        }
    }
    assert_eq!(ring.len(), 128);
    match offer_downlink(&mut ring, &mut m, fault_event_packet(utc(0), at(0), utc(0))) {
        Offer::Full(p) => assert_eq!(p.sensor_name, "FAULT"),
        Offer::Taken { .. } => panic!("taken"),
    }
    assert_eq!(ring.len(), 128);
    assert_eq!(m.sat_metrics.dropped_samples, 1);
}

#[test]
fn answers_are_counted_and_told() {
    let mut m = MonitoringData::new();
    let rtt = Duration::from_millis(21);
    assert!(settle_downlink(&mut m, "T", "A", 5, Answer::NotSent, rtt).is_none());
    assert_eq!((m.sat_metrics.downlink_sent, m.sat_metrics.downlink_dropped), (0, 1));
    assert!(settle_downlink(&mut m, "T", "A", 5, Answer::Pending, rtt).is_none());
    assert_eq!((m.sat_metrics.downlink_sent, m.sat_metrics.downlink_dropped), (1, 1));
    assert!(settle_downlink(&mut m, "T", "A", 5, Answer::Lost, rtt).is_none());
    assert_eq!((m.sat_metrics.downlink_sent, m.sat_metrics.downlink_dropped), (2, 2));
    let r = settle_downlink(&mut m, "T", "A", 5, Answer::Received("ok".to_string()), rtt).unwrap();
    assert_eq!((m.sat_metrics.downlink_sent, m.sat_metrics.downlink_dropped), (3, 2));
    assert_eq!(
        r.response,
        "📬 [T] [A] Ground response received for pkt id=5 | resp='ok' | RTT ≈ 21 ms"
    );
    assert_eq!(r.command, "[T] Executing command from ground: 'ok'");
}

#[test]
fn work_message_names_the_task() {
    assert_eq!(work_message("T", "1.5ms"), "✅ [T] Completed in 1.5ms");
}
