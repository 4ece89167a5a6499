use satlink::clock::{Duration, Instant, Timestamp};
use satlink::monitor::MonitoringData;
use satlink::sensor::{
    expected_time, plan_wait, reading_for_roll, sensor_cycle, simulate_reading, SensorState, Wait,
};
use satlink::types::INVALID_READING;

const GENERATED: Timestamp = Timestamp { secs: 100, nanos: 0 };

fn at(nanos: u128) -> Instant {
    Instant { nanos }
}

#[test]
fn invalid_reading_is_minus_9999() {
    assert_eq!(f64::from_bits(INVALID_READING), -9999.0);
}

#[test]
fn cycles_are_due_at_multiples_of_the_interval() {
    assert_eq!(expected_time(at(5), 0, Duration { nanos: 10 }), at(5));
    assert_eq!(expected_time(at(5), 7, Duration { nanos: 10 }), at(75));
}

#[test]
fn wait_leaves_half_a_millisecond_to_spin() {
    assert_eq!(plan_wait(at(1_500_000), at(0)), Wait::Sleep(Duration { nanos: 1_000_000 }));
    assert_eq!(plan_wait(at(500_000), at(0)), Wait::Sleep(Duration { nanos: 0 }));
    assert_eq!(plan_wait(at(10), at(10)), Wait::Late(Duration { nanos: 0 }));
    assert_eq!(plan_wait(at(10), at(25)), Wait::Late(Duration { nanos: 15 }));
}

#[test]
fn a_tenth_of_the_rolls_is_invalid() {
    let drawn = 42.5f64.to_bits();
    for roll in 0u32..100 {
        let expected = if roll < 10 { INVALID_READING } else { drawn };
        assert_eq!(reading_for_roll(false, true, roll, drawn), expected);
        assert_eq!(reading_for_roll(true, true, roll, drawn), INVALID_READING);
        assert_eq!(reading_for_roll(true, false, roll, drawn), drawn);
    }
}

#[test]
fn simulated_readings_are_drawn_or_invalid() {
    let drawn = 42.5f64.to_bits();
    assert_eq!(simulate_reading(true, true, drawn), INVALID_READING);
    assert_eq!(simulate_reading(true, false, drawn), drawn);
    let mut valid = 0;
    let mut invalid = 0;
    for _ in 0..2000 {
        match simulate_reading(false, false, drawn) {
            INVALID_READING => invalid += 1,
            r => {
                assert_eq!(r, drawn);
                valid += 1;
            }
        }
    }
    assert!(valid > 0 && invalid > 0);
    assert!(valid > invalid);
}

#[test]
fn alert_comes_with_the_fourth_violation() {
    let mut state = SensorState::new();
    let mut m = MonitoringData::new();
    for n in 1i32..=5 {
        let r = sensor_cycle(
            &mut state,
            &mut m,
            "TempSensor",
            1,
            at(0),
            at(1_000_001),
            7,
            GENERATED,
        );
        assert!(r.violation);
        assert_eq!(r.safety_alert, n >= 4);
        assert_eq!(state.consecutive_jitter_violations, n);
        assert_eq!(state.consecutive_missed_cycles, n);
    }
    let r = sensor_cycle(&mut state, &mut m, "TempSensor", 1, at(0), at(1_000_000), 7, GENERATED);
    assert!(!r.violation);
    assert_eq!(state.consecutive_jitter_violations, 0);
    assert_eq!(state.cycle, 6);
    let stat = m.sat_metrics.sensor_jitter.get("TempSensor").unwrap();
    assert_eq!((stat.count, stat.sum_micros), (6, 6000));
}

#[test]
fn invalid_reading_is_a_violation_of_the_critical_sensor_only() {
    let mut state = SensorState::new();
    let mut m = MonitoringData::new();
    let r = sensor_cycle(
        &mut state,
        &mut m,
        "TempSensor",
        1,
        at(9),
        at(4),
        INVALID_READING,
        GENERATED,
    );
    assert!(r.violation);
    assert_eq!(r.jitter, Duration { nanos: 5 });
    let r = sensor_cycle(
        &mut state,
        &mut m,
        "GyroSensor",
        3,
        at(0),
        at(9_000_000),
        INVALID_READING,
        GENERATED,
    );
    assert!(!r.violation);
    assert_eq!(state.consecutive_jitter_violations, 1);
    assert!(m.sat_metrics.sensor_jitter.get("GyroSensor").is_none());
    assert_eq!(r.unit, "°/s");
    assert_eq!(r.data.name, "GyroSensor");
    assert_eq!(r.data.value, INVALID_READING);
    assert_eq!(r.data.priority, 3);
    assert_eq!(r.data.generated_at, GENERATED);
    assert_eq!(r.data.queued_at, GENERATED);
}

#[test]
fn lateness_does_not_add_up() {
    let mut state = SensorState::new();
    let mut m = MonitoringData::new();
    let interval = Duration::from_millis(10);
    for k in 0u32..8 {
        let due = expected_time(at(7), state.cycle, interval);
        assert_eq!(due, at(7 + k as u128 * 10_000_000));
        let late = at(due.nanos + 3_000_000);
        sensor_cycle(&mut state, &mut m, "TempSensor", 1, due, late, 7, GENERATED);
    }
    assert_eq!(state.cycle, 8);
    let stat = m.sat_metrics.sensor_jitter.get("TempSensor").unwrap();
    assert_eq!((stat.count, stat.sum_micros), (8, 24_000));
}

#[test]
fn units_belong_to_sensors() {
    let mut state = SensorState::new();
    let mut m = MonitoringData::new();
    for (name, unit) in [("TempSensor", "°C"), ("AccelSensor", "m/s²"), ("Other", "")] {
        let r = sensor_cycle(&mut state, &mut m, name, 1, at(0), at(0), 7, GENERATED);
        assert_eq!(r.unit, unit);
    }
}
