use satlink::clock::{delay_since, Duration, Instant, Timestamp, FIRST_SECOND, LAST_SECOND};
use satlink::downlink::{record_stamp, ground_other};
use satlink::monitor::MonitoringData;
use satlink::types::{DownlinkPacket, WirePacket};

fn packet(timestamp: Timestamp) -> DownlinkPacket {
    DownlinkPacket {
        id: 7,
        sensor_name: "GyroSensor".to_string(),
        compressed_value: "12.34".to_string(),
        timestamp,
        priority: 3,
        response_tx: None,
        queued_at: Instant { nanos: 0 },
        window_start_at: timestamp,
    }
}

#[test]
fn wire_packet_carries_the_stamp() {
    // 2024-05-06T07:08:09.000000123Z
    let wire = WirePacket::from_packet(&packet(Timestamp { secs: 1714979289, nanos: 123 }));
    assert_eq!(wire.id, 7);
    assert_eq!(wire.sensor_name, "GyroSensor");
    assert_eq!(wire.compressed_value, "12.34");
    assert_eq!(wire.priority, 3);
    assert_eq!(wire.timestamp_rfc3339, "2024-05-06T07:08:09.000000123+00:00");
}

#[test]
fn stamp_reads_back_the_same_time() {
    for (secs, nanos) in [
        (0i64, 0u32),
        (1714979289, 123_456_789),
        (-1, 999_999_999),
        (-62167219200, 0),
        (253402300799, 999_999_999),
        (1483228799, 1_500_000_000),
    ] {
        let wire = WirePacket::from_packet(&packet(Timestamp { secs, nanos }));
        let text = format!("{{\"timestamp\":\"{}\"}}", wire.timestamp_rfc3339);
        let mut m = MonitoringData::new();
        let now = Timestamp { secs, nanos };
        let r = ground_other(&mut m, &text, now);
        assert!(r.json);
        // a latency of zero: the stamp names the very time
        assert_eq!(m.telemetry_latencies_ms, vec![0]);
    }
}

#[test]
fn delay_counts_whole_milliseconds() {
    let t = Timestamp { secs: 1000, nanos: 500_000_000 };
    assert_eq!(delay_since(Some(t), Timestamp { secs: 1002, nanos: 1_999_999 }), 1501);
    assert_eq!(delay_since(Some(t), Timestamp { secs: 1000, nanos: 500_999_999 }), 0);
    assert_eq!(delay_since(Some(t), Timestamp { secs: 999, nanos: 0 }), 0);
    assert_eq!(delay_since(None, Timestamp { secs: 1002, nanos: 0 }), 0);
}

#[test]
fn delay_agrees_with_the_calendar_crate_on_leap_seconds() {
    let points = [
        (1483228798i64, 999_999_999u32),
        (1483228799, 0),
        (1483228799, 1_500_000_000),
        (1483228800, 0),
        (1483228801, 250_000_000),
        (1483315199, 1_250_000_000),
    ];
    for (ls, ln) in points {
        for (es, en) in points {
            let later = chrono::DateTime::from_timestamp(ls, ln).unwrap();
            let earlier = chrono::DateTime::from_timestamp(es, en).unwrap();
            let ms = later.signed_duration_since(earlier).num_milliseconds();
            let mut m = MonitoringData::new();
            record_stamp(
                &mut m,
                Some(Timestamp { secs: es, nanos: en }),
                Timestamp { secs: ls, nanos: ln },
            );
            assert_eq!(m.telemetry_latencies_ms, vec![ms as u64]);
        }
    }
}

#[test]
fn latency_from_the_future_wraps_around() {
    let mut m = MonitoringData::new();
    record_stamp(
        &mut m,
        Some(Timestamp { secs: 10, nanos: 1_000_000 }),
        Timestamp { secs: 10, nanos: 0 },
    );
    record_stamp(&mut m, None, Timestamp { secs: 10, nanos: 0 });
    assert_eq!(m.telemetry_latencies_ms, vec![u64::MAX]);
}

#[test]
fn spans_of_time() {
    assert_eq!(Duration::from_millis(3).nanos, 3_000_000);
    assert_eq!(Duration::from_micros(200).nanos, 200_000);
    assert_eq!(Duration { nanos: 1_999_999 }.as_millis(), 1);
    assert_eq!(Duration { nanos: 1_999_999 }.as_micros(), 1999);
    assert_eq!(Duration { nanos: 5 }.abs_diff(Duration { nanos: 8 }).nanos, 3);
    assert_eq!(Duration { nanos: 8 }.abs_diff(Duration { nanos: 5 }).nanos, 3);
    assert_eq!(Duration { nanos: 5 }.saturating_sub(Duration { nanos: 8 }).nanos, 0);
    assert_eq!(Instant { nanos: 9 }.duration_since(Instant { nanos: 4 }).nanos, 5);
    assert_eq!(Instant { nanos: 4 }.duration_since(Instant { nanos: 9 }).nanos, 0);
    assert_eq!(Instant { nanos: 4 }.plus(Duration { nanos: 9 }).nanos, 13);
}

#[test]
fn calendar_ends_where_the_crate_ends() {
    assert_eq!(FIRST_SECOND, chrono::DateTime::<chrono::Utc>::MIN_UTC.timestamp());
    assert_eq!(LAST_SECOND, chrono::DateTime::<chrono::Utc>::MAX_UTC.timestamp());
    assert!(chrono::DateTime::from_timestamp(FIRST_SECOND, 0).is_some());
    assert!(chrono::DateTime::from_timestamp(FIRST_SECOND - 1, 0).is_none());
    assert!(chrono::DateTime::from_timestamp(LAST_SECOND, 999_999_999).is_some());
    assert!(chrono::DateTime::from_timestamp(LAST_SECOND + 1, 0).is_none());
    // the whole calendar can be measured and written
    let first = Timestamp { secs: FIRST_SECOND, nanos: 0 };
    let last = Timestamp { secs: LAST_SECOND, nanos: 999_999_999 };
    let span = (LAST_SECOND - FIRST_SECOND) as u64 * 1000 + 999;
    assert_eq!(delay_since(Some(first), last), span);
    assert_eq!(delay_since(Some(last), first), 0);
    assert!(WirePacket::from_packet(&packet(last)).timestamp_rfc3339.starts_with("+262142-12-31"));
}
