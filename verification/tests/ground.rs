use satlink::cipher;
use satlink::clock::{Duration, Instant, Timestamp};
use satlink::downlink::{
    admit_packet, compress_and_packetize, encode_payload, finish_command, get_cpu_active_micros,
    get_priority, ground_accept, ground_answer, ground_other, ground_receive, ground_reply,
    init_command_scheduler, is_degraded, payload_sent, report_cpu_utilization, send_command,
    settle_packet, trigger_command_scheduler, trigger_fault_command, Admission, BatchStats,
    CommandScheduler, Reception, TextKind,
};
use satlink::fault::FaultRegistry;
use satlink::json::{choose_stamp, find_stamp, stamp_time, JsonMember, StampField};
use satlink::monitor::MonitoringData;
use satlink::telemetry::{
    command_of, is_dispatch_in_time, telemetry_decrypt, telemetry_packet, telemetry_received,
    telemetry_unparsed, Decoded, TelemetryEvent, TelemetryState,
};
use satlink::types::{DownlinkPacket, SensorData, WirePacket};

const MS: u128 = 1_000_000;

fn at(nanos: u128) -> Instant {
    Instant { nanos }
}

fn utc(ms: i64) -> Timestamp {
    Timestamp { secs: ms / 1000, nanos: (ms % 1000) as u32 * 1_000_000 }
}

fn data() -> SensorData {
    SensorData {
        name: "GyroSensor".to_string(),
        value: 12.345f64.to_bits(),
        generated_at: utc(5000),
        queued_at: utc(5001),
        priority: 3,
    }
}

fn packet(next_id: &mut u64) -> DownlinkPacket {
    let (tx, _rx) = crossbeam_channel::bounded::<String>(1);
    let r = compress_and_packetize(
        next_id,
        data(),
        "12.35".to_string(),
        tx,
        0,
        128,
        0,
        at(100 * MS),
        utc(6000),
        utc(6000),
    );
    r.packet
}

fn wire(id: u64, stamp: &str) -> WirePacket {
    WirePacket {
        id,
        sensor_name: "GyroSensor".to_string(),
        compressed_value: "12.35".to_string(),
        timestamp_rfc3339: stamp.to_string(),
        priority: 3,
    }
}

#[test]
fn command_priorities() {
    assert_eq!([0u32, 1, 2, 3, 4].map(get_priority), [5, 1, 2, 3, 5]);
    assert_eq!(
        init_command_scheduler(),
        "📡 Command Scheduler Initialized (Rate Monotonic Scheduling)"
    );
}

#[test]
fn commands_are_taken_unless_blocked() {
    let mut s = CommandScheduler::new();
    let mut faults = FaultRegistry::new();
    for (id, critical, micros) in [(1u32, true, 1000u64), (2, false, 1300), (3, false, 1500), (4, false, 1800)] {
        let run = trigger_command_scheduler(&mut s, &faults, id, at(5), at(6)).unwrap();
        assert_eq!((run.packet_id, run.critical, run.exec_micros), (id, critical, micros));
        assert_eq!((run.start, run.deadline), (at(6), at(5 + 2 * MS)));
    }
    assert_eq!(s.queue, vec![1, 2, 3, 4]);
    faults.strike("SIGNAL_LOSS", at(0));
    assert!(trigger_command_scheduler(&mut s, &faults, 2, at(5), at(6)).is_none());
    assert_eq!(s.queue.len(), 4);
}

#[test]
fn every_tenth_command_gives_statistics() {
    let mut s = CommandScheduler::new();
    let mut m = MonitoringData::new();
    let faults = FaultRegistry::new();
    for n in 1u128..=20 {
        let run = trigger_command_scheduler(&mut s, &faults, 1, at(0), at(0)).unwrap();
        let r = finish_command(&mut s, &mut m, run, at(n * 1000));
        assert_eq!(r.elapsed_us, n);
        assert_eq!(r.late_us, None);
        if n == 10 {
            assert_eq!(
                r.batch,
                Some(BatchStats { first: 1, last: 10, min_us: 1, max_us: 10, avg_us: 5 })
            );
        } else if n == 20 {
            assert_eq!(
                r.batch,
                Some(BatchStats { first: 11, last: 20, min_us: 1, max_us: 20, avg_us: 10 })
            );
        } else {
            assert_eq!(r.batch, None);
        }
    }
    assert_eq!(get_cpu_active_micros(&s), 210);
    assert_eq!(m.cpu_active_micros, 210);
    let usage = report_cpu_utilization(&s, Duration::from_millis(1));
    assert_eq!((usage.active_micros, usage.total_micros), (210, 1000));
}

#[test]
fn command_after_two_milliseconds_is_late() {
    let mut s = CommandScheduler::new();
    let mut m = MonitoringData::new();
    let faults = FaultRegistry::new();
    let run = trigger_command_scheduler(&mut s, &faults, 9, at(0), at(100)).unwrap();
    assert_eq!(finish_command(&mut s, &mut m, run, at(2 * MS)).late_us, None);
    assert_eq!(finish_command(&mut s, &mut m, run, at(2 * MS + 1)).late_us, Some(0));
    assert_eq!(finish_command(&mut s, &mut m, run, at(5 * MS)).late_us, Some(3000));
}

#[test]
fn buffer_above_four_fifths_is_degraded() {
    for len in 0usize..=128 {
        assert_eq!(is_degraded(len, 128), len as f32 / 128.0 > 0.8);
        assert_eq!(is_degraded(len, 10), len as f32 / 10.0 > 0.8);
        assert_eq!(is_degraded(len, 0), len as f32 / 0.0 > 0.8);
    }
}

#[test]
fn degraded_mode_follows_the_rounded_quotient() {
    assert!(!is_degraded(4, 5));
    assert!(!is_degraded(102, 128));
    assert!(is_degraded(103, 128));
    // above four fifths, but rounded to it
    assert!(!is_degraded(13421769, 16777211));
    let mut sizes: Vec<usize> = vec![0, 1, 2, usize::MAX, usize::MAX - 1, 1 << 63, (1 << 63) + 1];
    for shift in 20..50 {
        for d in 0..5usize {
            sizes.push((1usize << shift) + d);
            sizes.push((1usize << shift) - d);
            sizes.push((1usize << shift) + (1usize << (shift - 20)) * d + d);
        }
    }
    for &max in &sizes {
        let near = (max as u128 * 4 / 5) as usize;
        for len in near.saturating_sub(4)..=near.saturating_add(4) {
            assert_eq!(is_degraded(len, max), len as f32 / max as f32 > 0.8, "{}/{}", len, max);
        }
        for unit in [1usize << 20, 1 << 26, 1 << 38] {
            let len = near.saturating_add(unit);
            assert_eq!(is_degraded(len, max), len as f32 / max as f32 > 0.8, "{}/{}", len, max);
        }
        for &len in &sizes {
            assert_eq!(is_degraded(len, max), len as f32 / max as f32 > 0.8, "{}/{}", len, max);
        }
    }
}

#[test]
fn every_received_text_gets_one_answer() {
    for text in ["ACK: Packet 1 processed", "ACK:", "ACK:00", "ACK: 00"] {
        match ground_receive(text) {
            Reception::Undecodable(_, ack) => assert_eq!(ack, "ACK: undecodable packet"),
            Reception::Plain(p) => panic!("{}", p),
        }
    }
    let mut m = MonitoringData::new();
    for plain in ["", "text", "{}", "ACK: inside"] {
        let sent = encode_payload(plain);
        assert!(matches!(ground_receive(&sent), Reception::Plain(_)));
        assert!(ground_other(&mut m, &sent, utc(0)).ack.is_some());
    }
    assert_eq!(m.sat_metrics.packets_processed, 0);
}

#[test]
fn ground_answers_every_kind_of_text() {
    let mut m = MonitoringData::new();
    payload_sent(&mut m, true);
    let r = ground_answer(&mut m, "xyz", Some(&wire(1, "")), utc(6000));
    assert!(matches!(r.kind, TextKind::Undecodable(ref e) if e == "hex length must be even"));
    assert_eq!(r.ack, "ACK: undecodable packet");
    assert_eq!(m.sat_metrics.packets_processed, 0);
    let sent = encode_payload("{\"id\":7,\"timestamp\":\"1970-01-01T00:00:05Z\"}");
    let r = ground_answer(&mut m, &sent, Some(&wire(7, "")), utc(6000));
    match r.kind {
        TextKind::Packet(processed, observed) => {
            assert_eq!(processed, "[] ✅ Packet PROCESSED | Total: 1");
            assert_eq!(observed, "[] 📡 Monitoring packet ID: 7");
        }
        _ => panic!("no packet"),
    }
    assert_eq!(r.ack, "ACK: Packet 7 processed");
    assert_eq!(m.telemetry_latencies_ms, vec![1000]);
    assert_eq!(m.sat_metrics.packets_processed, 1);
    let r = ground_answer(&mut m, &encode_payload("hello"), None, utc(6000));
    assert!(matches!(r.kind, TextKind::Other(false)));
    assert_eq!(r.ack, "ACK: Text received");
    // digits alone are JSON themselves: 'U' is sent as 38
    let r = ground_answer(&mut m, "38", None, utc(6000));
    assert!(matches!(r.kind, TextKind::Other(true)));
    assert_eq!(r.ack, "ACK: JSON received");
    assert_eq!(m.sat_metrics.packets_processed, 1);
}

#[test]
fn packet_numbers_count_up() {
    let mut next_id = 41u64;
    let p = packet(&mut next_id);
    let q = packet(&mut next_id);
    assert_eq!((p.id, q.id, next_id), (41, 42, 43));
    assert_eq!(p.sensor_name, "GyroSensor");
    assert_eq!(p.compressed_value, "12.35");
    assert_eq!(p.timestamp, utc(5000));
    assert_eq!(p.priority, 3);
    assert!(p.response_tx.is_some());
    assert_eq!(p.queued_at, at(100 * MS));
    assert_eq!(p.window_start_at, utc(6000));
    next_id = u64::MAX;
    assert_eq!(packet(&mut next_id).id, u64::MAX);
    assert_eq!(packet(&mut next_id).id, 0);
}

#[test]
fn preparation_notices_delays() {
    let mut next_id = 0;
    let prepare = |next_id: &mut u64, len: usize, init: u128, ready: i64| {
        let (tx, _rx) = crossbeam_channel::bounded::<String>(1);
        compress_and_packetize(
            next_id,
            data(),
            "x".to_string(),
            tx,
            len,
            128,
            init,
            at(0),
            utc(6000),
            utc(ready),
        )
    };
    // the sample was generated at 5000
    let r = prepare(&mut next_id, 102, 5000, 5030);
    assert!(!r.missed_init && !r.degraded && !r.missed_communication);
    assert_eq!(r.prep_elapsed_ms, 30);
    let r = prepare(&mut next_id, 103, 5001, 5031);
    assert!(r.missed_init && r.degraded && r.missed_communication);
    assert_eq!(r.prep_elapsed_ms, 31);
    // the window opens when the packet is ready, and the sample is a second old
    let r = prepare(&mut next_id, 0, 0, 6000);
    assert_eq!(r.prep_elapsed_ms, 1000);
    assert!(r.missed_communication);
}

#[test]
fn packets_are_admitted_dropped_or_blocked() {
    let mut m = MonitoringData::new();
    let mut faults = FaultRegistry::new();
    let mut next_id = 4;
    let p = packet(&mut next_id);
    match admit_packet(&mut m, &faults, &p, at(131 * MS - 1)) {
        Admission::Send(w) => {
            assert_eq!(w.id, 4);
            assert_eq!(w.timestamp_rfc3339, "1970-01-01T00:00:05+00:00");
        }
        _ => panic!("not sent"),
    }
    assert_eq!(m.sat_metrics.downlink_dropped, 0);
    assert!(matches!(admit_packet(&mut m, &faults, &p, at(131 * MS)), Admission::Expired));
    assert_eq!(m.sat_metrics.downlink_dropped, 1);
    faults.strike("BATTERY_LOW", at(0));
    assert!(matches!(admit_packet(&mut m, &faults, &p, at(100 * MS)), Admission::Blocked(4)));
    assert_eq!(m.sat_metrics.downlink_dropped, 2);
    // a number beyond 32 bits is known as zero to the interlock
    next_id = 0x1_0000_0001;
    let high = packet(&mut next_id);
    assert!(matches!(admit_packet(&mut m, &faults, &high, at(100 * MS)), Admission::Blocked(0)));
}

#[test]
fn payloads_are_accounted_for() {
    let mut m = MonitoringData::new();
    payload_sent(&mut m, true);
    assert_eq!(settle_packet(&mut m, Some("ACK".to_string())), Some("ACK".to_string()));
    assert_eq!((m.sat_metrics.packets_generated, m.sat_metrics.downlink_sent), (1, 1));
    assert_eq!(m.sat_metrics.downlink_dropped, 0);
    payload_sent(&mut m, false);
    assert_eq!(settle_packet(&mut m, None), None);
    assert_eq!((m.sat_metrics.packets_generated, m.sat_metrics.downlink_sent), (2, 1));
    assert_eq!(m.sat_metrics.downlink_dropped, 2);
}

#[test]
fn ground_reads_what_was_sent() {
    for text in ["", "{\"id\":3}", "µs 🛰️"] {
        match ground_receive(&encode_payload(text)) {
            Reception::Plain(p) => assert_eq!(p, text),
            Reception::Undecodable(e, _) => panic!("{}", e),
        }
    }
    match ground_receive("abc") {
        Reception::Undecodable(reason, ack) => {
            assert_eq!(reason, "hex length must be even");
            assert_eq!(ack, "ACK: undecodable packet");
        }
        Reception::Plain(p) => panic!("{}", p),
    }
}

#[test]
fn ground_accepts_packets() {
    let mut m = MonitoringData::new();
    payload_sent(&mut m, true);
    let plain = "{\"id\":4294967297,\"timestamp\":\"1970-01-01T00:00:05.250Z\"}";
    let r = ground_accept(&mut m, &wire(4294967297, ""), plain, utc(6000));
    assert_eq!(r.processed_line, "[] ✅ Packet PROCESSED | Total: 1");
    assert_eq!(r.monitoring_line, "[] 📡 Monitoring packet ID: 1");
    assert_eq!(r.ack, "ACK: Packet 4294967297 processed");
    assert_eq!(m.telemetry_latencies_ms, vec![750]);
    assert_eq!(m.sat_metrics.packets_processed, 1);
    // without a stamp nothing is recorded
    ground_accept(&mut m, &wire(1, ""), "{\"id\":1}", utc(6000));
    assert_eq!(m.telemetry_latencies_ms.len(), 1);
}

#[test]
fn ground_answers_other_texts() {
    let mut m = MonitoringData::new();
    let r = ground_other(&mut m, "[1, 2]", utc(6000));
    assert!(r.json);
    assert_eq!(r.ack.unwrap(), "ACK: JSON received");
    let r = ground_other(&mut m, "hello", utc(6000));
    assert!(!r.json);
    assert_eq!(r.ack.unwrap(), "ACK: Text received");
    let r = ground_other(&mut m, "ACK: Text received", utc(6000));
    assert!(r.ack.is_none());
    assert!(m.telemetry_latencies_ms.is_empty());
    ground_other(&mut m, "{\"generated_at\":\"1970-01-01T01:00:05+01:00\"}", utc(6000));
    assert_eq!(m.telemetry_latencies_ms, vec![1000]);
    assert!(ground_reply("ACK: {}", &StampField::Missing).ack.is_none());
    assert!(!ground_reply("x", &StampField::Malformed).json);
}

#[test]
fn first_member_that_is_there_counts() {
    let stamp = |text: &str| match find_stamp(text) {
        StampField::Malformed => "malformed".to_string(),
        StampField::Missing => "missing".to_string(),
        StampField::Text(s) => s,
    };
    assert_eq!(stamp("{\"timestamp\":\"b\",\"window_start_at\":\"a\"}"), "a");
    assert_eq!(stamp("{\"generated_at\":\"c\",\"timestamp\":\"b\"}"), "b");
    assert_eq!(stamp("{\"generated_at\":\"c\"}"), "c");
    // a member of another kind hides those behind it
    assert_eq!(stamp("{\"window_start_at\":5,\"timestamp\":\"b\"}"), "missing");
    assert_eq!(stamp("{}"), "missing");
    assert_eq!(stamp("17"), "missing");
    assert_eq!(stamp("{"), "malformed");
    let r = choose_stamp(JsonMember::Absent, JsonMember::Other, JsonMember::Text("c".to_string()));
    assert!(matches!(r, StampField::Missing));
    assert_eq!(
        stamp_time(&StampField::Text("1970-01-01T00:00:05Z".to_string())),
        Some(Timestamp { secs: 5, nanos: 0 })
    );
    assert_eq!(stamp_time(&StampField::Text("yesterday".to_string())), None);
    assert_eq!(stamp_time(&StampField::Missing), None);
}

#[test]
fn commands_to_the_satellite() {
    let mut faults = FaultRegistry::new();
    let r = send_command(&faults, 10);
    assert!(r.sent);
    assert_eq!(r.check, None);
    assert_eq!(r.line, "[] 📡 Sending command 10 to satellite (no blocking faults).");
    faults.strike("TEMP_HIGH", at(0));
    let r = send_command(&faults, 10);
    assert!(!r.sent);
    assert_eq!(r.check, Some(10));
    assert_eq!(
        r.line,
        "[] ⚠️ Command 10 blocked due to active fault(s), not sending to satellite."
    );
}

#[test]
fn corrective_actions() {
    for (fault, action) in [
        ("TEMP_HIGH", "initiating cooling procedure"),
        ("BATTERY_LOW", "initiating power-saving procedure"),
        ("SIGNAL_LOSS", "initiating reconnection procedure"),
    ] {
        assert_eq!(
            trigger_fault_command(fault),
            vec![
                format!("[] [DownlinkManager] ⚠️ {} detected, {}", fault, action),
                format!(
                    "[] [DownlinkManager] 📡 Sending corrective action for {} to satellite...",
                    fault
                ),
                format!(
                    "[] [Satellite] 🛰️ Corrective action for {} executed successfully!",
                    fault
                ),
            ]
        );
    }
    assert_eq!(
        trigger_fault_command("X"),
        vec![
            "[] [DownlinkManager] ⚠️ X detected, no corrective action taken".to_string(),
            "[] [DownlinkManager] ⚠️ Unknown fault X, no action sent to satellite".to_string(),
        ]
    );
}

#[test]
fn telemetry_counts_failures() {
    let mut state = TelemetryState::new();
    let mut m = MonitoringData::new();
    match telemetry_decrypt(&mut state, &mut m, "zz") {
        Decoded::Failed(reason, event, line) => {
            assert_eq!(reason, "invalid digit found in string");
            assert_eq!(event, TelemetryEvent::PacketMissing(1));
            assert_eq!(line, "[] ⚠️ Telemetry missing (consecutive 1)");
        }
        Decoded::Plain(p) => panic!("{}", p),
    }
    let r = telemetry_unparsed(&mut state, &mut m);
    assert_eq!(r.events, vec![TelemetryEvent::PacketMissing(2)]);
    let r = telemetry_unparsed(&mut state, &mut m);
    assert_eq!(r.events, vec![TelemetryEvent::PacketMissing(3), TelemetryEvent::ContactLost]);
    assert_eq!(r.line, "[] 🚨 CONTACT LOST: 3 consecutive telemetry missing");
    assert_eq!(state.consecutive_failures, 3);
    telemetry_received(&mut state, &mut m, 1, None, at(0), utc(0), Duration { nanos: 0 });
    assert_eq!(state.consecutive_failures, 0);
    assert!(!m.contact_lost);
}

#[test]
fn telemetry_reads_what_was_sent() {
    let mut state = TelemetryState::new();
    let mut m = MonitoringData::new();
    let sent = encode_payload("{\"id\":3}");
    assert!(cipher::is_pairwise(&sent));
    match telemetry_decrypt(&mut state, &mut m, &sent) {
        Decoded::Plain(p) => assert_eq!(p, "{\"id\":3}"),
        Decoded::Failed(e, _, _) => panic!("{}", e),
    }
    assert_eq!(state, TelemetryState::new());
}

#[test]
fn telemetry_measures_latency_and_drift() {
    let mut state = TelemetryState::new();
    let mut m = MonitoringData::new();
    let decode = Duration { nanos: 3 * MS };
    let w = wire(8, "1970-01-01T00:00:05+00:00");
    let r = telemetry_packet(&mut state, &mut m, &w, at(0), utc(5123), decode);
    assert_eq!(r.latency_ms, 123);
    assert_eq!(
        r.event,
        TelemetryEvent::PacketReceived { packet_id: 8, latency_ms: 123, drift_us: 0 }
    );
    assert!(r.jitter_line.is_none());
    assert!(!r.slow_decode);
    assert!(m.jitter_values.is_empty());
    let r = telemetry_packet(&mut state, &mut m, &w, at(10_000), utc(4000), Duration { nanos: 3 * MS + 1 });
    assert_eq!(r.latency_ms, 0);
    assert_eq!(r.jitter_line.unwrap(), "[] ⏱️  Uplink jitter recorded: 0 µs");
    assert!(r.slow_decode);
    let r = telemetry_packet(&mut state, &mut m, &wire(9, "never"), at(13_500), utc(6000), decode);
    assert_eq!(
        r.event,
        TelemetryEvent::PacketReceived { packet_id: 9, latency_ms: 0, drift_us: 7 }
    );
    // the drift is kept twice
    assert_eq!(m.jitter_values, vec![0, 0, 7, 7]);
    assert_eq!(m.telemetry_latencies_ms, vec![123, 0, 0]);
    assert_eq!(state.last_interval_us, Some(3));
}

#[test]
fn telemetry_commands() {
    assert_eq!(command_of(&wire(0x1_0000_0007, "")), 7);
    assert!(is_dispatch_in_time(Duration { nanos: 2 * MS }));
    assert!(!is_dispatch_in_time(Duration { nanos: 2 * MS + 1 }));
}
