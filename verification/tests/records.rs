use satlink::clock::{Duration, Instant};
use satlink::monitor::{
    begin_monitoring, cpu_usage, log_fault_recovery, log_jitter, monitoring_report,
    periodic_monitoring, record_backlog, record_buffer_drop, record_downlink_dropped,
    record_downlink_latency, record_downlink_sent, record_fault_recovery, record_insert_latency,
    record_missed_deadline, record_missed_downlink, record_missing_telemetry,
    record_packet_generated, record_packet_processed, record_sched_drift, record_sensor_jitter,
    record_telemetry_latency_and_jitter, report_cpu_utilization_block, start_monitoring,
    update_cpu_active_time, LoadSample, MonitoringData,
};
use satlink::summary::{satellite_report, Stat};
use satlink::timing::{current_timestamp, stamped};
use satlink::types::JitterTracker;

const MS: u128 = 1_000_000;

fn at(nanos: u128) -> Instant {
    Instant { nanos }
}

fn us(micros: u64) -> Duration {
    Duration::from_micros(micros)
}

#[test]
fn statistics_follow_the_samples() {
    let mut s = Stat::new();
    assert_eq!(s.avg_micros(), 0);
    assert_eq!(s.min_micros, u128::MAX);
    for d in [7u64, 3, 12] {
        s.record(us(d));
    }
    assert_eq!(s, Stat { count: 3, sum_micros: 22, max_micros: 12, min_micros: 3 });
    assert_eq!(s.avg_micros(), 7);
    assert!(s.min_micros <= s.avg_micros() && s.avg_micros() <= s.max_micros);
}

#[test]
fn fresh_monitor_is_empty() {
    let m = MonitoringData::new();
    assert_eq!(m.calculate_average_jitter(), None);
    assert_eq!(m.calculate_average_drift(), None);
    assert_eq!(m.calculate_average_telemetry_latency(), None);
    assert_eq!(m.sat_metrics.backlog_min, usize::MAX);
    assert!(!m.contact_lost);
}

#[test]
fn averages_round_as_documented() {
    let mut m = MonitoringData::new();
    m.jitter_values = vec![1, 2, 5];
    m.execution_drift_records = vec![-5, -2];
    m.telemetry_latencies_ms = vec![10, 15];
    assert_eq!(m.calculate_average_jitter(), Some(2));
    assert_eq!(m.calculate_average_drift(), Some(-3));
    assert_eq!(m.calculate_average_telemetry_latency(), Some((25, 2)));
}

#[test]
fn contact_is_lost_with_the_third_missing_packet() {
    let mut m = MonitoringData::new();
    assert_eq!(record_missing_telemetry(&mut m), "[] ⚠️ Telemetry missing (consecutive 1)");
    assert_eq!(record_missing_telemetry(&mut m), "[] ⚠️ Telemetry missing (consecutive 2)");
    assert!(!m.contact_lost);
    assert_eq!(
        record_missing_telemetry(&mut m),
        "[] 🚨 CONTACT LOST: 3 consecutive telemetry missing"
    );
    assert!(m.contact_lost);
    assert_eq!(record_missing_telemetry(&mut m), "[] ⚠️ Telemetry missing (consecutive 4)");
    record_telemetry_latency_and_jitter(&mut m, 12, Some(9));
    assert!(!m.contact_lost);
    assert_eq!(m.consecutive_missing_packets, 0);
    assert_eq!(m.telemetry_latencies_ms, vec![12]);
    assert_eq!(m.jitter_values, vec![9]);
    record_telemetry_latency_and_jitter(&mut m, 13, None);
    assert_eq!(m.jitter_values, vec![9]);
}

#[test]
fn periodic_run_records_drift_and_backlog() {
    let mut m = MonitoringData::new();
    let mut state = begin_monitoring(&mut m, at(0), at(0));
    assert_eq!(m.monitoring_start, Some(at(0)));
    m.packets_processed = 1;
    let r = periodic_monitoring(
        &mut m,
        &mut state,
        Duration::from_millis(1000),
        at(1_002_000_999),
        0,
        at(1_002_100_000),
    );
    assert_eq!(r.drift, 2000);
    assert!(!r.missed_deadline);
    assert_eq!(r.backlog_len, 1);
    let r = periodic_monitoring(
        &mut m,
        &mut state,
        Duration::from_millis(1000),
        at(2_004_001_999),
        7,
        at(2_004_100_000),
    );
    assert_eq!(r.drift, 2001);
    assert!(r.missed_deadline);
    assert_eq!(r.backlog_len, 7);
    assert_eq!(m.missed_deadlines, 1);
    assert_eq!(m.max_drift, Some(2001));
    assert_eq!(m.min_drift, Some(2000));
    assert_eq!(m.execution_drift_records, vec![2000, 2001]);
    assert_eq!(m.backlog_history, vec![1, 7]);
    assert_eq!(
        m.simulated_cpu_load,
        vec![
            LoadSample { drift_us: 2000, backlog: 1 },
            LoadSample { drift_us: 2001, backlog: 7 }
        ]
    );
    assert_eq!(m.monitoring_end, Some(at(2_004_100_000)));
    assert_eq!(m.consecutive_missing_packets, 1);
}

#[test]
fn periodic_run_loses_contact_without_progress() {
    let mut m = MonitoringData::new();
    let mut state = begin_monitoring(&mut m, at(0), at(0));
    let interval = Duration::from_millis(1);
    for (n, lost) in [(1u128, false), (2, false), (3, true), (4, false)] {
        let r = periodic_monitoring(&mut m, &mut state, interval, at(n * MS), 0, at(n * MS));
        assert_eq!(r.contact_lost, lost);
    }
    assert!(m.contact_lost);
    m.packets_processed = 5;
    periodic_monitoring(&mut m, &mut state, interval, at(5 * MS), 0, at(5 * MS));
    assert!(!m.contact_lost);
    assert_eq!(state.last_packets_processed, 5);
    assert_eq!(state.tick, 5);
}

#[test]
fn simulated_backlog_mixes_tick_and_drift() {
    let mut m = MonitoringData::new();
    let mut state = begin_monitoring(&mut m, at(0), at(0));
    state.tick = 7;
    // run number eight, 6 microseconds late
    let r = periodic_monitoring(&mut m, &mut state, Duration::from_millis(1), at(MS + 6_500), 0, at(0));
    assert_eq!(r.backlog_len, 8 % 5 + 6 % 4);
}

#[test]
fn slow_recovery_aborts_the_mission() {
    let mut m = MonitoringData::new();
    let r = log_fault_recovery(&mut m, at(0), at(200 * MS + 999));
    assert_eq!(r.duration_us, 200_000);
    assert!(!r.abort);
    let r = log_fault_recovery(&mut m, at(0), at(200 * MS + 1000));
    assert!(r.abort);
    assert_eq!(m.fault_recovery_times, vec![200_000, 200_001]);
    assert_eq!(m.sat_metrics.fault_recoveries, 2);
    // the summary keeps whole milliseconds
    assert_eq!(m.sat_metrics.fault_recovery_sum_ms, 400);
    assert_eq!(satellite_report(&m.sat_metrics).avg_fault_recovery, 200);
}

#[test]
fn recorders_fill_the_summary() {
    let mut m = MonitoringData::new();
    record_sensor_jitter(&mut m, "TempSensor", us(5));
    record_sensor_jitter(&mut m, "GyroSensor", us(8));
    record_sensor_jitter(&mut m, "TempSensor", us(2));
    record_insert_latency(&mut m, "TempSensor", us(4));
    record_sched_drift(&mut m, us(6));
    record_missed_deadline(&mut m);
    record_buffer_drop(&mut m);
    record_downlink_sent(&mut m);
    record_downlink_dropped(&mut m);
    record_downlink_dropped(&mut m);
    record_backlog(&mut m, 3);
    record_backlog(&mut m, 8);
    record_packet_generated(&mut m);
    record_fault_recovery(&mut m, 50);
    record_fault_recovery(&mut m, 25);
    assert_eq!(m.sat_metrics.sensor_jitter.get("TempSensor").unwrap().count, 2);
    assert_eq!(m.sat_metrics.insert_latency.get("TempSensor").unwrap().max_micros, 4);
    let r = satellite_report(&m.sat_metrics);
    assert_eq!(r.avg_jitter_us, 5);
    assert_eq!(r.max_jitter_us, 8);
    assert_eq!(r.min_jitter_us, 2);
    assert_eq!((r.sched_avg_us, r.sched_max_us, r.sched_min_us), (6, 6, 6));
    assert_eq!(r.missed_deadlines, 1);
    assert_eq!(r.dropped_samples, 1);
    assert_eq!((r.downlink_sent, r.downlink_dropped), (1, 2));
    assert_eq!((r.backlog_sum, r.backlog_count), (11, 2));
    assert_eq!((r.backlog_max, r.backlog_min), (8, 3));
    assert_eq!(r.packets_generated, 1);
    assert_eq!((r.fault_recoveries, r.avg_fault_recovery), (2, 37));
}

#[test]
fn backlog_figures_are_those_of_the_lengths() {
    let mut m = MonitoringData::new();
    for len in [4usize, 9, 2, 2] {
        record_backlog(&mut m, len);
        record_buffer_drop(&mut m);
    }
    let s = &m.sat_metrics;
    assert_eq!((s.backlog_count, s.backlog_sum, s.backlog_max, s.backlog_min), (4, 17, 9, 2));
}

#[test]
fn missed_deadlines_count_the_late_runs() {
    let mut m = MonitoringData::new();
    let mut state = begin_monitoring(&mut m, at(0), at(0));
    let interval = Duration::from_millis(1);
    let mut now = 0;
    for late_us in [0u128, 2500, 2000, 2001, 9000] {
        now += MS + late_us * 1000;
        periodic_monitoring(&mut m, &mut state, interval, at(now), 3, at(now));
    }
    assert_eq!(m.execution_drift_records, vec![0, 2500, 2000, 2001, 9000]);
    assert_eq!(m.missed_deadlines, 3);
    assert_eq!(m.backlog_history, vec![3; 5]);
    assert_eq!((m.min_drift, m.max_drift), (Some(0), Some(9000)));
}

#[test]
fn empty_summary_reports_zeros() {
    let m = MonitoringData::new();
    let r = satellite_report(&m.sat_metrics);
    assert_eq!((r.avg_jitter_us, r.max_jitter_us, r.min_jitter_us), (0, 0, 0));
    assert_eq!((r.sched_avg_us, r.sched_max_us, r.sched_min_us), (0, 0, 0));
    assert_eq!((r.backlog_max, r.backlog_min), (0, 0));
    assert_eq!(r.avg_fault_recovery, 0);
}

#[test]
fn processed_never_exceeds_generated() {
    let mut m = MonitoringData::new();
    assert_eq!(
        record_packet_processed(&mut m),
        "[] ⚠️ Skipping processed increment: processed=0, generated=0"
    );
    record_packet_generated(&mut m);
    assert_eq!(record_packet_processed(&mut m), "[] ✅ Packet PROCESSED | Total: 1");
    assert_eq!(
        record_packet_processed(&mut m),
        "[] ⚠️ Skipping processed increment: processed=1, generated=1"
    );
    assert_eq!(m.sat_metrics.packets_processed, 1);
}

#[test]
fn ground_report_sums_up() {
    let mut m = MonitoringData::new();
    m.monitoring_start = Some(at(MS));
    m.monitoring_end = Some(at(4 * MS));
    m.jitter_values = vec![4, 6];
    m.execution_drift_records = vec![3, 4];
    m.max_drift = Some(4);
    m.min_drift = Some(3);
    m.backlog_history = vec![5, 2, 9];
    m.fault_recovery_times = vec![40, 10];
    m.missed_deadlines = 2;
    m.packets_processed = 11;
    update_cpu_active_time(&mut m, 1500);
    let r = monitoring_report(&m);
    assert_eq!(r.duration.nanos, 3 * MS);
    assert_eq!(r.avg_jitter_us, Some(5));
    assert_eq!((r.avg_drift_us, r.max_drift_us, r.min_drift_us), (3, 4, 3));
    assert_eq!((r.backlog_sum, r.backlog_count, r.max_backlog, r.min_backlog), (16, 3, 9, 2));
    assert_eq!((r.recoveries, r.recovery_sum_us, r.max_recovery_us, r.min_recovery_us), (2, 50, 40, 10));
    assert_eq!((r.missed_deadlines, r.packets_processed), (2, 11));
    assert_eq!((r.cpu.active_micros, r.cpu.total_micros), (1500, 3000));
}

#[test]
fn share_of_no_time_is_taken_of_one_microsecond() {
    assert_eq!(cpu_usage(5, Duration { nanos: 999 }).total_micros, 1);
    let m = MonitoringData::new();
    let r = report_cpu_utilization_block(&m, Duration { nanos: 0 });
    assert_eq!((r.active_micros, r.total_micros), (0, 1));
    assert_eq!(monitoring_report(&m).duration.nanos, 0);
}

#[test]
fn log_lines_of_the_monitor() {
    let mut m = MonitoringData::new();
    assert_eq!(start_monitoring(42), "[] 📡 Monitoring packet ID: 42");
    assert_eq!(log_jitter(&mut m, 17), "[] ⏱️  Uplink jitter recorded: 17 µs");
    assert_eq!(m.jitter_values, vec![17]);
    assert_eq!(record_missed_downlink("X", -3), "📡 Missed downlink for X | latency=-3ms");
    assert_eq!(
        record_missed_downlink("X", i64::MIN),
        format!("📡 Missed downlink for X | latency={}ms", i64::MIN)
    );
    assert_eq!(record_downlink_latency("X", 30), "📊 Downlink latency recorded for X | 30ms");
    assert_eq!(current_timestamp(), "");
    assert_eq!(stamped("x"), "[] x");
}

#[test]
fn jitter_tracker_keeps_a_window_of_a_hundred() {
    let mut t = JitterTracker::new(Duration::from_millis(10));
    t.record(at(0));
    assert!(t.jitters.is_empty());
    t.record(at(11 * MS));
    assert_eq!(t.violations, 0);
    t.record(at(32 * MS + 1));
    assert_eq!(t.violations, 1);
    t.record(at(33 * MS));
    assert_eq!(t.violations, 2);
    assert_eq!(
        t.jitters,
        vec![
            Duration { nanos: MS },
            Duration { nanos: 11 * MS + 1 },
            Duration { nanos: 9 * MS + 1 }
        ]
    );
    let mut now = 33 * MS;
    for _ in 0..100 {
        now += 10 * MS;
        t.record(at(now));
    }
    assert_eq!(t.jitters.len(), 100);
    assert!(t.jitters.iter().all(|j| j.nanos == 0));
    assert_eq!(t.violations, 2);
}
