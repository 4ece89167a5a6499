use satlink::clock::{Duration, Instant, Timestamp};
use satlink::fault::{
    blocking_fault, fault_blocks_packet, fault_event_packet, handle_fault, handle_faults,
    is_command_safe, log_blocking_context, print_health_summary, severity, FaultRegistry,
};

const SECOND: u128 = 1_000_000_000;

fn at(nanos: u128) -> Instant {
    Instant { nanos }
}

#[test]
fn each_fault_blocks_its_multiples() {
    for id in 0u32..100 {
        assert_eq!(fault_blocks_packet("TEMP_HIGH", id), id % 5 == 0);
        assert_eq!(fault_blocks_packet("BATTERY_LOW", id), id % 4 == 0);
        assert_eq!(fault_blocks_packet("SIGNAL_LOSS", id), id % 2 == 0);
        assert!(!fault_blocks_packet("OTHER", id));
    }
}

#[test]
fn severities_are_fixed() {
    assert_eq!(severity("SIGNAL_LOSS"), "CRITICAL");
    assert_eq!(severity("BATTERY_LOW"), "WARNING");
    assert_eq!(severity("TEMP_HIGH"), "WARNING");
    assert_eq!(severity("temp_high"), "UNKNOWN");
}

#[test]
fn sweep_detects_new_faults_once() {
    let mut reg = FaultRegistry::new();
    let first = handle_faults(&mut reg, [Some(at(5)), None, Some(at(7))], at(10));
    assert_eq!(first.detected, vec!["TEMP_HIGH".to_string(), "SIGNAL_LOSS".to_string()]);
    assert!(first.cleared.is_empty());
    let second = handle_faults(&mut reg, [Some(at(20)), Some(at(21)), None], at(22));
    assert_eq!(second.detected, vec!["BATTERY_LOW".to_string()]);
    // the first detection counts
    assert_eq!(reg.timestamps.get("TEMP_HIGH"), Some(&at(5)));
    assert_eq!(reg.timestamps.get("BATTERY_LOW"), Some(&at(21)));
    assert_eq!(reg.severities.get("SIGNAL_LOSS").unwrap(), "CRITICAL");
    assert_eq!(reg.active.len(), 3);
}

#[test]
fn sweep_clears_faults_older_than_fifteen_seconds() {
    let mut reg = FaultRegistry::new();
    handle_faults(&mut reg, [Some(at(0)), Some(at(SECOND)), None], at(SECOND));
    let none = handle_faults(&mut reg, [None, None, None], at(15 * SECOND));
    assert!(none.cleared.is_empty());
    let one = handle_faults(&mut reg, [None, None, None], at(15 * SECOND + 1));
    assert_eq!(one.cleared, vec!["TEMP_HIGH".to_string()]);
    assert!(reg.active.find("TEMP_HIGH").is_none());
    assert!(reg.timestamps.get("TEMP_HIGH").is_none());
    assert!(reg.severities.get("TEMP_HIGH").is_none());
    assert!(reg.active.find("BATTERY_LOW").is_some());
}

#[test]
fn interlock_keeps_blocked_commands_back() {
    let mut reg = FaultRegistry::new();
    assert!(is_command_safe(&reg, 20));
    assert!(reg.strike("BATTERY_LOW", at(3)));
    assert!(!reg.strike("BATTERY_LOW", at(4)));
    assert!(!is_command_safe(&reg, 20));
    assert!(is_command_safe(&reg, 21));
    assert!(is_command_safe(&reg, 10));
    reg.strike("TEMP_HIGH", at(5));
    assert!(!is_command_safe(&reg, 10));
    let b = blocking_fault(&reg, 8, at(1_003)).unwrap();
    assert_eq!(b.fault, "BATTERY_LOW");
    assert_eq!(b.latency, Duration { nanos: 1_000 });
    assert!(blocking_fault(&reg, 9, at(1_003)).is_none());
    // neither two nor five divides the number
    reg.strike("SIGNAL_LOSS", at(6));
    for id in [1u32, 3, 7, 9, 11, 13] {
        assert!(is_command_safe(&reg, id));
    }
    reg.clear("BATTERY_LOW");
    reg.clear("SIGNAL_LOSS");
    assert!(is_command_safe(&reg, 8));
}

#[test]
fn blocking_lines_read_as_expected() {
    let lines = log_blocking_context("TEMP_HIGH", 10, Duration { nanos: 100_000_000 });
    assert_eq!(
        lines,
        vec![
            "[] 🚫 BLOCKED: Packet 10 blocked by [TEMP_HIGH]".to_string(),
            "[] ⏱️  Interlock Latency: 100 ms (from fault detection to command block)".to_string(),
            "[] 📄 Logged: Interlock delay for command 10 due to fault [TEMP_HIGH] was 100 ms"
                .to_string(),
        ]
    );
    let lines = log_blocking_context("TEMP_HIGH", 10, Duration { nanos: 100_000_001 });
    assert_eq!(lines.len(), 4);
    assert_eq!(lines[2], "[] 🔥 ALERT: Latency exceeds threshold (100 ms)");
}

#[test]
fn packet_is_checked_against_every_active_fault() {
    let mut reg = FaultRegistry::new();
    assert!(handle_fault(&reg, 0, 10, at(0)).is_none());
    reg.strike("TEMP_HIGH", at(0));
    reg.strike("BATTERY_LOW", at(SECOND));
    let first = handle_fault(&reg, 0, 10, at(2 * SECOND + 1_000_000)).unwrap();
    assert_eq!(first.fault, "TEMP_HIGH");
    assert!(first.blocked);
    assert_eq!(first.age.as_millis(), 2001);
    assert_eq!(first.severity, "WARNING");
    assert!(first.recover);
    let second = handle_fault(&reg, 1, 10, at(2 * SECOND + 1_000_000)).unwrap();
    assert_eq!(second.fault, "BATTERY_LOW");
    assert!(!second.blocked);
    assert!(!second.recover);
    assert!(handle_fault(&reg, 2, 10, at(2 * SECOND)).is_none());
    // two seconds and less than a millisecond are not enough
    assert!(!handle_fault(&reg, 0, 10, at(2 * SECOND + 999_999)).unwrap().recover);
}

#[test]
fn health_summary_lists_the_faults() {
    let mut reg = FaultRegistry::new();
    assert_eq!(print_health_summary(&reg), vec!["[] ✅ HEALTHY: No active faults.".to_string()]);
    reg.strike("SIGNAL_LOSS", at(0));
    assert_eq!(
        print_health_summary(&reg),
        vec![
            "[] 🛑 ALERT: 1 active fault(s) detected.".to_string(),
            "[] ➤ Fault: SIGNAL_LOSS | Severity: CRITICAL".to_string(),
        ]
    );
}

#[test]
fn fault_event_has_number_zero() {
    let t = Timestamp { secs: 5, nanos: 6 };
    let p = fault_event_packet(t, at(7), t);
    assert_eq!(p.id, 0);
    assert_eq!(p.sensor_name, "FAULT");
    assert_eq!(p.compressed_value, "FAULT_EVENT");
    assert_eq!(p.timestamp, t);
    assert_eq!(p.priority, 0);
    assert!(p.response_tx.is_none());
    assert_eq!(p.queued_at, at(7));
}
