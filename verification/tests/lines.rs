use satlink::clock::{Duration, Instant};
use satlink::downlink::{batch_line, critical_line, outcome_line, BatchStats, CommandOutcome};
use satlink::fault::{
    age_line, checking_line, cleared_line, detected_line, handle_fault, injector_line,
    recovered_line, safe_line, verdict_line, FaultRegistry,
};
use satlink::monitor::{
    abort_line, backlog_line, contact_line, drift_line, recovery_line, FaultRecovery,
    MonitoringData, TickReport,
};
use satlink::telemetry::{
    blocked_line, decode_line, dispatch_line, failure_line, parsed_line, telemetry_received,
    undecrypted_line, unparsed_line, TelemetryState,
};

#[test]
fn lines_about_faults() {
    assert_eq!(detected_line("SIGNAL_LOSS"), "[] ⚠️  FAULT DETECTED [CRITICAL]: SIGNAL_LOSS");
    assert_eq!(cleared_line("TEMP_HIGH"), "[] ✅ FAULT CLEARED: TEMP_HIGH");
    assert_eq!(checking_line(12), "[] 🔎 Checking Packet 12 for faults...");
    assert_eq!(safe_line(12), "[] ✅ No faults. Packet 12 is SAFE.");
    let mut reg = FaultRegistry::new();
    reg.strike("BATTERY_LOW", Instant { nanos: 0 });
    let now = Instant { nanos: 3_000_000 };
    let blocked = handle_fault(&reg, 0, 12, now).unwrap();
    assert_eq!(verdict_line(&blocked, 12), "[] ❌ BLOCKED: Fault [BATTERY_LOW] blocks Packet 12");
    assert_eq!(age_line(&blocked), "[] 🕓 Fault Age: 3 ms | Severity: WARNING");
    let allowed = handle_fault(&reg, 0, 13, now).unwrap();
    assert_eq!(
        verdict_line(&allowed, 13),
        "[] ✅ ALLOWED: Fault [BATTERY_LOW] does not block Packet 13"
    );
    assert_eq!(
        recovered_line("TEMP_HIGH", Duration::from_millis(50)),
        "[] 🛠️ Fault [TEMP_HIGH] recovered in 50 ms"
    );
    assert_eq!(injector_line(), "[] 🛑 Fault injector thread terminated.");
}

#[test]
fn lines_about_commands() {
    assert_eq!(
        critical_line(1),
        "[] 🔥 Critical Command 1 (Thermal Control) preempting lower-priority tasks"
    );
    assert_eq!(
        batch_line(&BatchStats { first: 11, last: 20, min_us: 1, max_us: 9, avg_us: 4 }),
        "[] 📊 Drift Stats (Batch 11–20): Min=1µs | Max=9µs | Avg=4µs"
    );
    let in_time = CommandOutcome { elapsed_us: 1300, batch: None, late_us: None };
    assert_eq!(outcome_line(2, &in_time), "[] ✅ Command 2 executed on time (1300µs)");
    let late = CommandOutcome { elapsed_us: 2300, batch: None, late_us: Some(300) };
    assert_eq!(
        outcome_line(2, &late),
        "[] ⚠️ Deadline Miss: Command 2 delayed by 300µs (Exec: 2300µs)"
    );
}

#[test]
fn lines_about_telemetry() {
    assert_eq!(
        undecrypted_line("bad", "zz"),
        "[] ❌ Telemetry decryption failed: bad | raw=zz"
    );
    let mut state = TelemetryState::new();
    let mut m = MonitoringData::new();
    let now = Instant { nanos: 0 };
    let utc = satlink::clock::Timestamp { secs: 0, nanos: 0 };
    let quick = Duration { nanos: 3_000_000 };
    let r = telemetry_received(&mut state, &mut m, 7, None, now, utc, quick);
    assert_eq!(decode_line(&r, 7, quick), "[] ⏱️ Telemetry decode OK in 3000µs for Packet 7");
    let slow = Duration { nanos: 3_001_000 };
    let r = telemetry_received(&mut state, &mut m, 7, None, now, utc, slow);
    assert_eq!(decode_line(&r, 7, slow), "[] ⚠️ Telemetry decode SLOW: 3001µs for Packet 7");
    assert_eq!(parsed_line(7, 12), "[] ✅ Telemetry Packet 7 parsed | Latency=12ms");
    assert_eq!(
        dispatch_line(7, Duration { nanos: 2_000_000 }),
        "[] ⏱️  Command dispatched within deadline for Packet 7 (2000µs)"
    );
    assert_eq!(
        dispatch_line(7, Duration { nanos: 2_001_000 }),
        "[] ⚠️  Deadline MISS: Command dispatch took 2001µs for Packet 7"
    );
    assert_eq!(blocked_line(7), "[] ❌ Command for Packet 7 BLOCKED by safety system");
    assert_eq!(
        unparsed_line("eof", 2, "7B"),
        "[] ⚠️ Telemetry: failed to parse JSON (eof). Failure #2, raw=7B"
    );
    assert_eq!(failure_line(2), "[] 🔄 Re-requesting telemetry packet (attempt #2)");
    assert_eq!(failure_line(3), "[] 🚨 LOSS OF CONTACT: 3 consecutive packets failed");
}

#[test]
fn lines_about_monitoring() {
    let mut report =
        TickReport { drift: 15, missed_deadline: false, backlog_len: 4, contact_lost: false };
    assert_eq!(drift_line(&report), "[] ✅ Execution drift: 15 µs");
    assert_eq!(backlog_line(&report), "[] 📊 Telemetry backlog: 4 packets");
    report.drift = 2500;
    report.missed_deadline = true;
    assert_eq!(drift_line(&report), "[] ❗ Missed periodic deadline: drift 2500 µs");
    let mut m = MonitoringData::new();
    m.consecutive_missing_packets = 3;
    assert_eq!(contact_line(&m), "[] 🚨 CONTACT LOST (periodic): 3 intervals without packets");
    let recovery = FaultRecovery { duration_us: 200_500, abort: true };
    assert_eq!(recovery_line(&recovery), "[] 🛠️  Fault recovered in 200500 µs");
    assert_eq!(
        abort_line(&recovery),
        "[] 💥 Mission ABORT: Fault recovery exceeded 200ms (200500 µs)"
    );
}
