use satlink::clock::{Duration, Instant};
use satlink::logger::{
    disable_logging, elapsed, enable_logging, init_logger, log_event, new_logger,
};
use satlink::mission::{count_processed, end_injected_fault, end_line, is_running, start_line};
use satlink::monitor::MonitoringData;

#[test]
fn log_lines_carry_stamp_and_elapsed_time() {
    let mut log = new_logger();
    assert_eq!(elapsed(&log, Instant { nanos: 9 }), None);
    assert_eq!(log_event(&log, "now", "1.000s", "hi").unwrap(), "[now | elapsed: N/A] hi");
    let first = init_logger(&mut log, Instant { nanos: 5 }, "2024-01-01 00:00:00");
    assert_eq!(first, "[2024-01-01 00:00:00] Logger initialized (elapsed: 0.000s)");
    assert_eq!(elapsed(&log, Instant { nanos: 9 }), Some(Duration { nanos: 4 }));
    assert_eq!(log_event(&log, "now", "1.000s", "hi").unwrap(), "[now | elapsed: 1.000s] hi");
}

#[test]
fn log_can_be_turned_off_and_on() {
    let mut log = new_logger();
    disable_logging(&mut log);
    assert!(log_event(&log, "now", "", "hi").is_none());
    enable_logging(&mut log);
    assert!(log_event(&log, "now", "", "hi").is_some());
}

#[test]
fn mission_lasts_thirty_seconds() {
    assert!(is_running(Duration { nanos: 29_999_999_999 }, false));
    assert!(!is_running(Duration { nanos: 30_000_000_000 }, false));
    assert!(!is_running(Duration { nanos: 0 }, true));
    assert_eq!(start_line(), "[] >>> Integrated Ground & Sensor Simulation Starting");
    assert_eq!(end_line(), "[] >>> Integrated Simulation Ended");
    let mut m = MonitoringData::new();
    count_processed(&mut m);
    count_processed(&mut m);
    assert_eq!(m.packets_processed, 2);
}

#[test]
fn long_recovery_ends_the_mission() {
    let mut m = MonitoringData::new();
    let r = end_injected_fault(&mut m, Instant { nanos: 0 }, Instant { nanos: 200_000_000 });
    assert!(!r.abort);
    assert_eq!(r.line, "🔧 [FAULT INJECTOR] Recovery time: 200 ms");
    let r = end_injected_fault(&mut m, Instant { nanos: 0 }, Instant { nanos: 300_400_000 });
    assert!(r.abort);
    assert_eq!(r.recovery.as_millis(), 300);
    assert_eq!(m.sat_metrics.fault_recoveries, 2);
    assert_eq!(m.sat_metrics.fault_recovery_sum_ms, 500);
}
