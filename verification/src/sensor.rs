//! One cycle of a sensor: when to sample, what the sample is, and whether it is safe.

use crate::clock;
use crate::clock::{Duration, Instant, Timestamp};
use crate::monitor;
use crate::monitor::{MonitorView, MonitoringData};
use crate::summary;
use crate::text;
use crate::types::{SensorData, INVALID_READING};
use vstd::prelude::*;

verus! {

/// The end of a wait that is spent spinning rather than sleeping, in nanoseconds.
pub const SPIN_NANOS: u128 = 500_000;

/// Jitter beyond which a cycle of the critical sensor is violated, in nanoseconds.
pub const JITTER_LIMIT_NANOS: u128 = 1_000_000;

/// Violated cycles in a row that do not yet raise the alert.
pub const TOLERATED_VIOLATIONS: i32 = 3;

/// The time at which cycle number `cycle` is due.
pub fn expected_time(start: Instant, cycle: u32, interval: Duration) -> (r: Instant)
    requires
        start.nanos + cycle * interval.nanos <= u128::MAX,
    ensures
        r.nanos == due_time(start, interval, cycle as int),
{
    assert(cycle * interval.nanos >= 0) by (nonlinear_arith);
    Instant { nanos: start.nanos + cycle as u128 * interval.nanos }
}

/// How to wait for a cycle.
#[derive(Clone, Copy, Debug, PartialEq, Eq, Structural)]
pub enum Wait {
    /// Sleep this long, then spin until the cycle is due.
    Sleep(Duration),
    /// The cycle was due this long ago.
    Late(Duration),
}

/// How to wait at `now` for a cycle that is due at `expected`.
pub fn plan_wait(expected: Instant, now: Instant) -> (r: Wait)
    ensures
        match r {
            Wait::Sleep(d) => expected.nanos > now.nanos && d.nanos == clock::positive_part(
                expected.nanos - now.nanos - SPIN_NANOS,
            ),
            Wait::Late(d) => expected.nanos <= now.nanos && d.nanos == now.nanos - expected.nanos,
        },
        r matches Wait::Sleep(d) ==> if expected.nanos >= now.nanos + 500_000 {
            now.nanos + d.nanos + 500_000 == expected.nanos
        } else {
            d.nanos == 0
        },
{
    if expected.nanos > now.nanos {
        let ahead: Duration = expected.duration_since(now);
        Wait::Sleep(ahead.saturating_sub(Duration { nanos: SPIN_NANOS }))
    } else {
        Wait::Late(now.duration_since(expected))
    }
}

/// The reading of a cycle: during an injected fault a coin decides whether it is invalid,
/// otherwise a roll below ten does.
pub open spec fn reading(injecting_fault: bool, coin: bool, roll: int, drawn: u64) -> u64 {
    if injecting_fault {
        if coin {
            INVALID_READING
        } else {
            drawn
        }
    } else if roll < 10 {
        INVALID_READING
    } else {
        drawn
    }
}

/// The reading of a cycle for a given roll of the hundred-sided die.
pub fn reading_for_roll(injecting_fault: bool, coin: bool, roll: u32, drawn: u64) -> (r: u64)
    ensures
        r == reading(injecting_fault, coin, roll as int, drawn),
{
    if injecting_fault {
        if coin {
            INVALID_READING
        } else {
            drawn
        }
    } else if roll < 10 {
        INVALID_READING
    } else {
        drawn
    }
}

/// `rand::Rng::gen_range` on the thread's generator. Trusted: the number is below a hundred.
#[verifier::external_body]
fn roll_percent() -> (r: u32)
    ensures
        r < 100,
{
    rand::Rng::gen_range(&mut rand::thread_rng(), 0..100)
}

/// The reading of a cycle: the value `drawn`, or the invalid reading.
pub fn simulate_reading(injecting_fault: bool, coin: bool, drawn: u64) -> (r: u64)
    ensures
        exists|roll: int|
            0 <= roll < 100 && r == #[trigger] reading(injecting_fault, coin, roll, drawn),
        injecting_fault ==> r == if coin {
            INVALID_READING
        } else {
            drawn
        },
        r == INVALID_READING || r == drawn,
{
    let roll: u32 = roll_percent();
    let r: u64 = reading_for_roll(injecting_fault, coin, roll, drawn);
    assert(r == reading(injecting_fault, coin, roll as int, drawn));
    r
}

/// What a sensor carries from one cycle to the next.
#[derive(Clone, Copy, Debug, PartialEq, Eq, Structural)]
pub struct SensorState {
    pub cycle: u32,
    pub consecutive_jitter_violations: i32,
    pub consecutive_missed_cycles: i32,
}

/// Whether this sensor is the critical one.
pub open spec fn is_critical(name: Seq<char>) -> bool {
    name == "TempSensor"@
}

/// Whether a cycle with this jitter and reading is violated.
pub open spec fn is_violation(jitter: int, value: u64) -> bool {
    jitter > JITTER_LIMIT_NANOS || value == INVALID_READING
}

impl SensorState {
    pub fn new() -> (r: Self)
        ensures
            r == (SensorState {
                cycle: 0,
                consecutive_jitter_violations: 0,
                consecutive_missed_cycles: 0,
            }),
    {
        SensorState { cycle: 0, consecutive_jitter_violations: 0, consecutive_missed_cycles: 0 }
    }

    /// Both counters stand for the same cycles.
    pub open spec fn wf(self) -> bool {
        0 <= self.consecutive_jitter_violations == self.consecutive_missed_cycles
    }

    /// After a cycle; violations count for the critical sensor only.
    pub open spec fn after_cycle(self, critical: bool, violation: bool) -> SensorState {
        let cycle = (self.cycle + 1) as u32;
        if !critical {
            SensorState { cycle, ..self }
        } else if violation {
            SensorState {
                cycle,
                consecutive_jitter_violations: (self.consecutive_jitter_violations + 1) as i32,
                consecutive_missed_cycles: (self.consecutive_missed_cycles + 1) as i32,
            }
        } else {
            SensorState { cycle, consecutive_jitter_violations: 0, consecutive_missed_cycles: 0 }
        }
    }

    /// After `n` violated cycles in a row of the critical sensor.
    pub open spec fn after_violations(self, n: nat) -> SensorState
        decreases n,
    {
        if n == 0 {
            self
        } else {
            self.after_violations((n - 1) as nat).after_cycle(true, true)
        }
    }
}

/// What one cycle gives.
pub struct CycleOutput {
    pub jitter: Duration,
    pub violation: bool,
    /// More critical cycles in a row were violated than can be tolerated.
    pub safety_alert: bool,
    /// The unit in which the reading is shown.
    pub unit: &'static str,
    pub data: SensorData,
}

/// The unit of a sensor.
pub open spec fn unit_of(name: Seq<char>) -> Seq<char> {
    if name == "TempSensor"@ {
        "°C"@
    } else if name == "AccelSensor"@ {
        "m/s²"@
    } else if name == "GyroSensor"@ {
        "°/s"@
    } else {
        ""@
    }
}

fn unit(name: &str) -> (r: &'static str)
    ensures
        r@ == unit_of(name@),
{
    if text::same_text(name, "TempSensor") {
        "°C"
    } else if text::same_text(name, "AccelSensor") {
        "m/s²"
    } else if text::same_text(name, "GyroSensor") {
        "°/s"
    } else {
        ""
    }
}

/// One cycle of the sensor `name`: it was due at `expected`, ran at `actual`, and read
/// `value` at `generated_at`. The jitter of the critical sensor is recorded.
pub fn sensor_cycle(
    state: &mut SensorState,
    m: &mut MonitoringData,
    name: &str,
    priority: u8,
    expected: Instant,
    actual: Instant,
    value: u64,
    generated_at: Timestamp,
) -> (r: CycleOutput)
    requires
        old(state).cycle < u32::MAX,
        is_critical(name@) && is_violation(
            clock::distance(actual.nanos as int, expected.nanos as int),
            value,
        ) ==> old(state).consecutive_jitter_violations < i32::MAX
            && old(state).consecutive_missed_cycles < i32::MAX,
        is_critical(name@) ==> summary::stat_of(
            old(m)@.sat_metrics.sensor_jitter,
            name@,
        ).has_room(
            (clock::distance(actual.nanos as int, expected.nanos as int) / 1000) as nat,
        ),
    ensures
        r.jitter.nanos == clock::distance(actual.nanos as int, expected.nanos as int),
        r.violation == (is_critical(name@) && is_violation(r.jitter.nanos as int, value)),
        *final(state) == old(state).after_cycle(is_critical(name@), r.violation),
        old(state).wf() ==> final(state).wf(),
        r.safety_alert == (r.violation && final(state).consecutive_jitter_violations
            > TOLERATED_VIOLATIONS),
        r.violation <==> name@ == "TempSensor"@ && (actual.nanos > expected.nanos + 1_000_000
            || expected.nanos > actual.nanos + 1_000_000 || value == 0xC0C3_8780_0000_0000),
        r.safety_alert <==> r.violation && final(state).consecutive_jitter_violations > 3,
        r.unit@ == unit_of(name@),
        r.data.name@ == name@,
        r.data.value == value,
        r.data.generated_at == generated_at,
        r.data.queued_at == generated_at,
        r.data.priority == priority,
        final(m)@ == if is_critical(name@) {
            old(m)@.with_sat(
                old(m)@.sat_metrics.with_sensor_jitter(name@, r.jitter.micros()),
            )
        } else {
            old(m)@
        },
{
    let jitter: Duration = if actual.nanos > expected.nanos {
        actual.duration_since(expected)
    } else {
        expected.duration_since(actual)
    };
    state.cycle = state.cycle + 1;
    let mut violation: bool = false;
    let mut safety_alert: bool = false;
    if text::same_text(name, "TempSensor") {
        violation = jitter.nanos > JITTER_LIMIT_NANOS || value == INVALID_READING;
        if violation {
            state.consecutive_jitter_violations = state.consecutive_jitter_violations + 1;
            state.consecutive_missed_cycles = state.consecutive_missed_cycles + 1;
            safety_alert = state.consecutive_jitter_violations > TOLERATED_VIOLATIONS;
        } else {
            state.consecutive_jitter_violations = 0;
            state.consecutive_missed_cycles = 0;
        }
        monitor::record_sensor_jitter(m, name, jitter);
    }
    CycleOutput {
        jitter,
        violation,
        safety_alert,
        unit: unit(name),
        data: SensorData {
            name: name.to_string(),
            value,
            generated_at,
            queued_at: generated_at,
            priority,
        },
    }
}

/// What one cycle finds: when it ran and what it read.
#[derive(Clone, Copy, Debug, PartialEq, Eq, Structural)]
pub struct Cycle {
    pub actual: Instant,
    pub value: u64,
}

/// When cycle number `k` of a sensor that started at `start` is due.
pub open spec fn due_time(start: Instant, interval: Duration, k: int) -> int {
    start.nanos + k * interval.nanos
}

/// The sensor and the monitor after all of `cycles`, each measured from its due time.
pub open spec fn after_cycles(
    state: SensorState,
    v: MonitorView,
    name: Seq<char>,
    start: Instant,
    interval: Duration,
    cycles: Seq<Cycle>,
) -> (SensorState, MonitorView)
    decreases cycles.len(),
{
    if cycles.len() == 0 {
        (state, v)
    } else {
        let (s, w) = after_cycles(state, v, name, start, interval, cycles.drop_last());
        let c = cycles.last();
        let jitter = clock::distance(
            c.actual.nanos as int,
            due_time(start, interval, s.cycle as int),
        );
        (
            s.after_cycle(is_critical(name), is_critical(name) && is_violation(jitter, c.value)),
            if is_critical(name) {
                w.with_sat(w.sat_metrics.with_sensor_jitter(name, (jitter / 1000) as nat))
            } else {
                w
            },
        )
    }
}

/// After `n` cycles of a new sensor the next one is number `n` and due `n` intervals after the
/// start, so lateness does not add up. Of the critical sensor, and of no other, each cycle has
/// left one jitter record.
pub proof fn law_cycles_keep_cadence(
    state: SensorState,
    v: MonitorView,
    name: Seq<char>,
    start: Instant,
    interval: Duration,
    cycles: Seq<Cycle>,
)
    requires
        state.cycle == 0,
        cycles.len() <= u32::MAX,
        summary::stat_of(v.sat_metrics.sensor_jitter, name).count + cycles.len() <= u64::MAX,
    ensures
        ({
            let (s, w) = after_cycles(state, v, name, start, interval, cycles);
            let n = cycles.len();
            &&& s.cycle == n
            &&& due_time(start, interval, s.cycle as int) == start.nanos + n * interval.nanos
            &&& is_critical(name) ==> summary::stat_of(w.sat_metrics.sensor_jitter, name).count
                == summary::stat_of(v.sat_metrics.sensor_jitter, name).count + n
            &&& !is_critical(name) ==> w == v
        }),
    decreases cycles.len(),
{
    if cycles.len() > 0 {
        law_cycles_keep_cadence(state, v, name, start, interval, cycles.drop_last());
    }
}

/// The alert comes with the fourth violated cycle in a row of the critical sensor, not
/// before; one good cycle starts the count over.
pub proof fn law_alert_with_fourth_violation(state: SensorState, n: nat)
    requires
        state.consecutive_jitter_violations == 0,
        state.consecutive_missed_cycles == 0,
        n <= i32::MAX,
    ensures
        state.after_violations(n).consecutive_jitter_violations == n,
        state.after_violations(n).wf(),
        state.after_violations(n).consecutive_jitter_violations > TOLERATED_VIOLATIONS <==> n >= 4,
        state.after_violations(n).after_cycle(true, false).consecutive_jitter_violations == 0,
    decreases n,
{
    if n > 0 {
        law_alert_with_fourth_violation(state, (n - 1) as nat);
    }
}

/// During an injected fault the coin alone decides whether a reading is the invalid one, and
/// otherwise the roll alone, by ten in a hundred; a reading that is not invalid is the one drawn.
pub proof fn law_readings(coin: bool, roll: int, drawn: u64)
    ensures
        reading(true, true, roll, drawn) == 0xC0C3_8780_0000_0000,
        reading(true, false, roll, drawn) == drawn,
        roll < 10 ==> reading(false, coin, roll, drawn) == 0xC0C3_8780_0000_0000,
        roll >= 10 ==> reading(false, coin, roll, drawn) == drawn,
{
}

/// A cycle is violated exactly when it was off by more than a millisecond or read the invalid
/// value; only the temperature sensor is critical.
pub proof fn law_violations(expected: Instant, actual: Instant, value: u64, name: Seq<char>)
    ensures
        is_violation(clock::distance(actual.nanos as int, expected.nanos as int), value) <==> {
            ||| actual.nanos > expected.nanos + 1_000_000
            ||| expected.nanos > actual.nanos + 1_000_000
            ||| value == 0xC0C3_8780_0000_0000
        },
        is_critical(name) <==> name == "TempSensor"@,
{
}

/// Every cycle is counted. Violations in a row are counted for the critical sensor, a good
/// cycle starts its count over, and nothing is counted for another sensor.
pub proof fn law_cycle_is_counted(state: SensorState, violation: bool)
    requires
        state.wf(),
        state.cycle < u32::MAX,
        state.consecutive_jitter_violations < i32::MAX,
    ensures
        ({
            let bad = state.after_cycle(true, true);
            let good = state.after_cycle(true, false);
            let other = state.after_cycle(false, violation);
            &&& bad.cycle == state.cycle + 1
            &&& good.cycle == state.cycle + 1
            &&& other.cycle == state.cycle + 1
            &&& bad.consecutive_jitter_violations == state.consecutive_jitter_violations + 1
            &&& bad.consecutive_missed_cycles == state.consecutive_missed_cycles + 1
            &&& good.consecutive_jitter_violations == 0
            &&& good.consecutive_missed_cycles == 0
            &&& other.consecutive_jitter_violations == state.consecutive_jitter_violations
            &&& other.consecutive_missed_cycles == state.consecutive_missed_cycles
        }),
{
}

/// The first cycle is due at the start, and each one an interval after the one before.
pub proof fn law_due_times_are_evenly_spaced(start: Instant, interval: Duration, k: int)
    ensures
        due_time(start, interval, 0) == start.nanos,
        due_time(start, interval, k + 1) - due_time(start, interval, k) == interval.nanos,
{
    let step = interval.nanos as int;
    assert((k + 1) * step == k * step + step) by (nonlinear_arith);
}

/// Each known sensor has its own unit, and any other has none.
pub proof fn law_units(name: Seq<char>)
    ensures
        unit_of("TempSensor"@) == "°C"@,
        unit_of("AccelSensor"@) == "m/s²"@,
        unit_of("GyroSensor"@) == "°/s"@,
        name != "TempSensor"@ && name != "AccelSensor"@ && name != "GyroSensor"@ ==> unit_of(name)
            == ""@,
{
    reveal_strlit("TempSensor");
    reveal_strlit("AccelSensor");
    reveal_strlit("GyroSensor");
    assert("TempSensor"@[0] == 'T');
    assert("AccelSensor"@[0] == 'A');
    assert("GyroSensor"@[0] == 'G');
}

} // verus!
