//! What the ground station records about itself and about the satellite.

use crate::clock;
use crate::clock::{Duration, Instant};
use crate::stats;
use crate::summary;
use crate::summary::{SatelliteSummary, Stat, SummaryView};
use crate::text;
use crate::timing;
use vstd::prelude::*;

verus! {

/// Drift beyond which a periodic run has missed its deadline, in microseconds.
pub const DRIFT_LIMIT_US: i128 = 2_000;

/// Missing packets in a row after which contact counts as lost.
pub const CONTACT_LOSS_LIMIT: usize = 3;

/// Recovery time beyond which the mission is aborted, in microseconds.
pub const RECOVERY_LIMIT_US: u128 = 200_000;

/// What the simulated system load of one periodic run is computed from.
#[derive(Clone, Copy, Debug, PartialEq, Eq, Structural)]
pub struct LoadSample {
    pub drift_us: u128,
    pub backlog: usize,
}

/// What the monitor holds.
#[verifier::ext_equal]
pub struct MonitorView {
    pub jitter_values: Seq<u128>,
    pub telemetry_latencies_ms: Seq<u64>,
    pub execution_drift_records: Seq<i128>,
    pub missed_deadlines: nat,
    pub backlog_history: Seq<usize>,
    pub fault_recovery_times: Seq<u128>,
    pub max_drift: Option<i128>,
    pub min_drift: Option<i128>,
    pub monitoring_start: Option<Instant>,
    pub monitoring_end: Option<Instant>,
    pub simulated_cpu_load: Seq<LoadSample>,
    pub packets_processed: nat,
    pub cpu_active_micros: u128,
    pub sat_metrics: SummaryView,
    pub consecutive_missing_packets: nat,
    pub contact_lost: bool,
}

impl MonitorView {
    /// After a telemetry packet: its latency, and its jitter if known, are kept, and the
    /// link counts as up.
    pub open spec fn after_reception(self, latency_ms: u64, jitter_us: Option<u128>) -> MonitorView {
        MonitorView {
            telemetry_latencies_ms: self.telemetry_latencies_ms.push(latency_ms),
            jitter_values: match jitter_us {
                Some(j) => self.jitter_values.push(j),
                None => self.jitter_values,
            },
            consecutive_missing_packets: 0,
            contact_lost: false,
            ..self
        }
    }

    /// After a missing packet: with the third in a row contact is lost.
    pub open spec fn after_missing(self) -> MonitorView {
        MonitorView {
            consecutive_missing_packets: self.consecutive_missing_packets + 1,
            contact_lost: self.contact_lost || self.consecutive_missing_packets + 1
                >= CONTACT_LOSS_LIMIT,
            ..self
        }
    }

    /// After `n` missing packets in a row.
    pub open spec fn after_missing_run(self, n: nat) -> MonitorView
        decreases n,
    {
        if n == 0 {
            self
        } else {
            self.after_missing_run((n - 1) as nat).after_missing()
        }
    }

    /// With `sat` in place of the satellite's figures.
    pub open spec fn with_sat(self, sat: SummaryView) -> MonitorView {
        MonitorView { sat_metrics: sat, ..self }
    }

    /// After a fault recovery that took `micros`.
    pub open spec fn after_fault_recovery(self, micros: u128) -> MonitorView {
        MonitorView {
            fault_recovery_times: self.fault_recovery_times.push(micros),
            sat_metrics: self.sat_metrics.with_fault_recovery((micros / 1000) as nat),
            ..self
        }
    }

    /// After a periodic run with this drift and backlog that ended at `end`;
    /// `last_processed` is the packet count of the last run that saw progress.
    pub open spec fn after_tick(
        self,
        drift: i128,
        backlog: usize,
        last_processed: nat,
        end: Instant,
    ) -> MonitorView {
        let counted = MonitorView {
            execution_drift_records: self.execution_drift_records.push(drift),
            max_drift: match self.max_drift {
                Some(m) if m > drift => Some(m),
                _ => Some(drift),
            },
            min_drift: match self.min_drift {
                Some(m) if m < drift => Some(m),
                _ => Some(drift),
            },
            missed_deadlines: if drift > DRIFT_LIMIT_US {
                self.missed_deadlines + 1
            } else {
                self.missed_deadlines
            },
            backlog_history: self.backlog_history.push(backlog),
            simulated_cpu_load: self.simulated_cpu_load.push(
                LoadSample { drift_us: drift as u128, backlog },
            ),
            monitoring_end: Some(end),
            ..self
        };
        if self.packets_processed == last_processed {
            counted.after_missing()
        } else {
            MonitorView { consecutive_missing_packets: 0, contact_lost: false, ..counted }
        }
    }

    /// The drift extremes are those of the recorded drifts.
    pub open spec fn extremes_hold(self) -> bool {
        let drifts = stats::signed_ints(self.execution_drift_records);
        match (self.min_drift, self.max_drift) {
            (Some(low), Some(high)) => stats::is_least(drifts, low as int) && stats::is_greatest(
                drifts,
                high as int,
            ),
            (None, None) => drifts.len() == 0,
            _ => false,
        }
    }

    /// The missed deadlines are the recorded drifts beyond the limit.
    pub open spec fn deadlines_counted(self) -> bool {
        self.missed_deadlines == late_runs(self.execution_drift_records)
    }

    /// Every periodic run left one drift, one backlog and one load sample.
    pub open spec fn one_record_per_tick(self) -> bool {
        &&& self.execution_drift_records.len() == self.backlog_history.len()
        &&& self.backlog_history.len() == self.simulated_cpu_load.len()
    }
}

/// How many of `drifts` are beyond the limit.
pub open spec fn late_runs(drifts: Seq<i128>) -> nat
    decreases drifts.len(),
{
    if drifts.len() == 0 {
        0
    } else if drifts.last() > DRIFT_LIMIT_US {
        late_runs(drifts.drop_last()) + 1
    } else {
        late_runs(drifts.drop_last())
    }
}

/// Everything the ground station records.
pub struct MonitoringData {
    pub jitter_values: Vec<u128>,
    pub telemetry_latencies_ms: Vec<u64>,
    pub execution_drift_records: Vec<i128>,
    pub missed_deadlines: usize,
    pub backlog_history: Vec<usize>,
    pub fault_recovery_times: Vec<u128>,
    pub max_drift: Option<i128>,
    pub min_drift: Option<i128>,
    pub monitoring_start: Option<Instant>,
    pub monitoring_end: Option<Instant>,
    pub simulated_cpu_load: Vec<LoadSample>,
    pub packets_processed: usize,
    pub cpu_active_micros: u128,
    pub sat_metrics: SatelliteSummary,
    pub consecutive_missing_packets: usize,
    pub contact_lost: bool,
}

impl View for MonitoringData {
    type V = MonitorView;

    open spec fn view(&self) -> MonitorView {
        MonitorView {
            jitter_values: self.jitter_values@,
            telemetry_latencies_ms: self.telemetry_latencies_ms@,
            execution_drift_records: self.execution_drift_records@,
            missed_deadlines: self.missed_deadlines as nat,
            backlog_history: self.backlog_history@,
            fault_recovery_times: self.fault_recovery_times@,
            max_drift: self.max_drift,
            min_drift: self.min_drift,
            monitoring_start: self.monitoring_start,
            monitoring_end: self.monitoring_end,
            simulated_cpu_load: self.simulated_cpu_load@,
            packets_processed: self.packets_processed as nat,
            cpu_active_micros: self.cpu_active_micros,
            sat_metrics: self.sat_metrics@,
            consecutive_missing_packets: self.consecutive_missing_packets as nat,
            contact_lost: self.contact_lost,
        }
    }
}

impl MonitoringData {
    pub fn new() -> (r: Self)
        ensures
            r@.jitter_values == Seq::<u128>::empty(),
            r@.telemetry_latencies_ms == Seq::<u64>::empty(),
            r@.execution_drift_records == Seq::<i128>::empty(),
            r@.missed_deadlines == 0,
            r@.backlog_history == Seq::<usize>::empty(),
            r@.fault_recovery_times == Seq::<u128>::empty(),
            r@.max_drift is None,
            r@.min_drift is None,
            r@.monitoring_start is None,
            r@.monitoring_end is None,
            r@.simulated_cpu_load == Seq::<LoadSample>::empty(),
            r@.packets_processed == 0,
            r@.cpu_active_micros == 0,
            r@.sat_metrics == (SummaryView {
                sensor_jitter: Map::empty(),
                insert_latency: Map::empty(),
                scheduling_drift: Stat::fresh(),
                missed_deadlines: 0,
                dropped_samples: 0,
                downlink_sent: 0,
                downlink_dropped: 0,
                backlog_sum: 0,
                backlog_count: 0,
                backlog_max: 0,
                backlog_min: usize::MAX as nat,
                packets_generated: 0,
                packets_processed: 0,
                fault_recoveries: 0,
                fault_recovery_sum_ms: 0,
            }),
            r@.sat_metrics.describes_backlogs(Seq::empty()),
            r@.consecutive_missing_packets == 0,
            !r@.contact_lost,
            r@.extremes_hold(),
            r@.deadlines_counted(),
            r@.one_record_per_tick(),
    {
        MonitoringData {
            jitter_values: Vec::new(),
            telemetry_latencies_ms: Vec::new(),
            execution_drift_records: Vec::new(),
            missed_deadlines: 0,
            backlog_history: Vec::new(),
            fault_recovery_times: Vec::new(),
            max_drift: None,
            min_drift: None,
            monitoring_start: None,
            monitoring_end: None,
            simulated_cpu_load: Vec::new(),
            packets_processed: 0,
            cpu_active_micros: 0,
            sat_metrics: SatelliteSummary::new(),
            consecutive_missing_packets: 0,
            contact_lost: false,
        }
    }

    /// The mean jitter, rounded down.
    pub fn calculate_average_jitter(&self) -> (r: Option<u128>)
        requires
            stats::total(stats::ints(self@.jitter_values)) <= u128::MAX,
        ensures
            match r {
                Some(avg) => self@.jitter_values.len() > 0 && avg == stats::total(
                    stats::ints(self@.jitter_values),
                ) / self@.jitter_values.len() as int,
                None => self@.jitter_values.len() == 0,
            },
    {
        if self.jitter_values.len() == 0 {
            None
        } else {
            Some(stats::sum_samples(&self.jitter_values) / self.jitter_values.len() as u128)
        }
    }

    /// The mean drift, rounded toward zero.
    pub fn calculate_average_drift(&self) -> (r: Option<i128>)
        requires
            stats::sums_fit(stats::signed_ints(self@.execution_drift_records)),
        ensures
            match r {
                Some(avg) => self@.execution_drift_records.len() > 0 && avg
                    == clock::truncated_div(
                    stats::total(stats::signed_ints(self@.execution_drift_records)),
                    self@.execution_drift_records.len() as int,
                ),
                None => self@.execution_drift_records.len() == 0,
            },
    {
        if self.execution_drift_records.len() == 0 {
            None
        } else {
            let sum: i128 = stats::sum_signed(&self.execution_drift_records);
            Some(sum / self.execution_drift_records.len() as i128)
        }
    }

    /// The mean telemetry latency as a fraction: the sum in milliseconds over the count.
    pub fn calculate_average_telemetry_latency(&self) -> (r: Option<(u64, usize)>)
        requires
            stats::total(stats::latencies(self@.telemetry_latencies_ms)) <= u64::MAX,
        ensures
            match r {
                Some((sum, count)) => count > 0 && count == self@.telemetry_latencies_ms.len()
                    && sum == stats::total(stats::latencies(self@.telemetry_latencies_ms)),
                None => self@.telemetry_latencies_ms.len() == 0,
            },
    {
        if self.telemetry_latencies_ms.len() == 0 {
            None
        } else {
            Some(
                (
                    stats::sum_latencies(&self.telemetry_latencies_ms),
                    self.telemetry_latencies_ms.len(),
                ),
            )
        }
    }
}

/// The log line for a packet that comes under observation.
pub fn start_monitoring(packet_id: u32) -> (line: String)
    ensures
        line@ == timing::stamped_text("📡 Monitoring packet ID: "@ + text::decimal(packet_id as nat)),
{
    timing::stamped(
        text::join("📡 Monitoring packet ID: ", text::number(packet_id as u128).as_str()).as_str(),
    )
}

/// Records a telemetry reception: its latency in milliseconds and, where known, its
/// jitter in microseconds.
pub fn record_telemetry_latency_and_jitter(
    m: &mut MonitoringData,
    latency_ms: u64,
    jitter_us: Option<u128>,
)
    ensures
        final(m)@ == old(m)@.after_reception(latency_ms, jitter_us),
{
    m.telemetry_latencies_ms.push(latency_ms);
    if let Some(j) = jitter_us {
        m.jitter_values.push(j);
    }
    m.consecutive_missing_packets = 0;
    m.contact_lost = false;
}

/// The log line of a missing packet, before which the monitor stood at `v`.
pub open spec fn missing_line(v: MonitorView) -> Seq<char> {
    let n = v.consecutive_missing_packets + 1;
    timing::stamped_text(
        if n >= CONTACT_LOSS_LIMIT && !v.contact_lost {
            "🚨 CONTACT LOST: "@ + text::decimal(n) + " consecutive telemetry missing"@
        } else {
            "⚠️ Telemetry missing (consecutive "@ + text::decimal(n) + ")"@
        },
    )
}

/// Records a missing telemetry packet and gives the log line for it.
pub fn record_missing_telemetry(m: &mut MonitoringData) -> (line: String)
    requires
        old(m)@.consecutive_missing_packets < usize::MAX,
    ensures
        final(m)@ == old(m)@.after_missing(),
        line@ == missing_line(old(m)@),
        ({
            let n = old(m)@.consecutive_missing_packets + 1;
            line@ == timing::stamped_text(
                if n >= 3 && !old(m)@.contact_lost {
                    "🚨 CONTACT LOST: "@ + text::decimal(n) + " consecutive telemetry missing"@
                } else {
                    "⚠️ Telemetry missing (consecutive "@ + text::decimal(n) + ")"@
                },
            )
        }),
{
    m.consecutive_missing_packets += 1;
    let count: String = text::number(m.consecutive_missing_packets as u128);
    if m.consecutive_missing_packets >= CONTACT_LOSS_LIMIT && !m.contact_lost {
        m.contact_lost = true;
        timing::stamped(
            text::join3(
                "🚨 CONTACT LOST: ",
                count.as_str(),
                " consecutive telemetry missing",
            ).as_str(),
        )
    } else {
        timing::stamped(
            text::join3("⚠️ Telemetry missing (consecutive ", count.as_str(), ")").as_str(),
        )
    }
}

/// From a link that is up, contact is lost with the third missing packet in a row and not
/// before, and stays lost; the count is that of the missing packets. The next reception
/// brings the link up again.
pub proof fn law_contact_lost_with_third_missing(
    v: MonitorView,
    n: nat,
    latency_ms: u64,
    jitter_us: Option<u128>,
)
    requires
        v.consecutive_missing_packets == 0,
        !v.contact_lost,
    ensures
        v.after_missing_run(n).contact_lost <==> n >= 3,
        v.after_missing_run(n).consecutive_missing_packets == n,
        !v.after_missing_run(n).after_reception(latency_ms, jitter_us).contact_lost,
        v.after_missing_run(n).after_reception(latency_ms, jitter_us).consecutive_missing_packets
            == 0,
    decreases n,
{
    if n > 0 {
        law_contact_lost_with_third_missing(v, (n - 1) as nat, latency_ms, jitter_us);
    }
}

/// What the periodic run carries from one turn to the next.
#[derive(Clone, Copy, Debug, PartialEq, Eq, Structural)]
pub struct MonitorLoop {
    pub last_run_time: Instant,
    pub tick: usize,
    pub last_packets_processed: usize,
}

/// What one periodic run found.
#[derive(Clone, Copy, Debug, PartialEq, Eq, Structural)]
pub struct TickReport {
    /// How late the run came, in microseconds.
    pub drift: i128,
    pub missed_deadline: bool,
    pub backlog_len: usize,
    /// Whether contact was lost with this very run.
    pub contact_lost: bool,
}

/// Begins the periodic runs: monitoring starts at `start`, the first run is measured from
/// `run_start`.
pub fn begin_monitoring(m: &mut MonitoringData, start: Instant, run_start: Instant) -> (r:
    MonitorLoop)
    ensures
        final(m)@ == (MonitorView { monitoring_start: Some(start), ..old(m)@ }),
        r == (MonitorLoop { last_run_time: run_start, tick: 0, last_packets_processed: 0 }),
{
    m.monitoring_start = Some(start);
    MonitorLoop { last_run_time: run_start, tick: 0, last_packets_processed: 0 }
}

/// How late a run at `now` comes when the last one was at `last`, in microseconds.
pub open spec fn drift_of(last: Instant, interval: Duration, now: Instant) -> int {
    clock::positive_part(now.nanos - (last.nanos + interval.nanos)) / 1000
}

/// The backlog that run number `tick` reports: the length of the queue, or a made-up small
/// number while the queue is empty.
pub open spec fn shown_backlog(queue_len: nat, tick: nat, drift: int) -> int {
    if queue_len == 0 {
        tick % 5 + drift % 4
    } else {
        queue_len as int
    }
}

/// What a periodic run finds: the time, the telemetry queue and the packets processed so
/// far, and the time at which it ends.
#[derive(Clone, Copy, Debug, PartialEq, Eq, Structural)]
pub struct Run {
    pub now: Instant,
    pub queue_len: usize,
    pub packets_processed: usize,
    pub end: Instant,
}

/// The monitor and the loop after one periodic run.
pub open spec fn after_run(v: MonitorView, state: MonitorLoop, interval: Duration, run: Run) -> (
    MonitorView,
    MonitorLoop,
) {
    let drift = drift_of(state.last_run_time, interval, run.now);
    let backlog = shown_backlog(run.queue_len as nat, (state.tick + 1) as nat, drift);
    let seen = MonitorView { packets_processed: run.packets_processed as nat, ..v };
    (
        seen.after_tick(
            drift as i128,
            backlog as usize,
            state.last_packets_processed as nat,
            run.end,
        ),
        MonitorLoop {
            last_run_time: run.now,
            tick: (state.tick + 1) as usize,
            last_packets_processed: run.packets_processed,
        },
    )
}

/// The monitor and the loop after all of `runs`.
pub open spec fn after_runs(
    v: MonitorView,
    state: MonitorLoop,
    interval: Duration,
    runs: Seq<Run>,
) -> (MonitorView, MonitorLoop)
    decreases runs.len(),
{
    if runs.len() == 0 {
        (v, state)
    } else {
        let (before, at) = after_runs(v, state, interval, runs.drop_last());
        after_run(before, at, interval, runs.last())
    }
}

/// After `n` runs there are `n` drifts, none of them negative, `n` backlogs, each that of the
/// queue unless that was empty, and `n` load samples of the two. The drift extremes are those
/// of the drifts, and the missed deadlines are the drifts beyond the limit.
pub proof fn law_runs_are_recorded(
    v: MonitorView,
    state: MonitorLoop,
    interval: Duration,
    runs: Seq<Run>,
)
    requires
        v.execution_drift_records.len() == 0,
        v.backlog_history.len() == 0,
        v.simulated_cpu_load.len() == 0,
        v.max_drift is None,
        v.min_drift is None,
        v.missed_deadlines == 0,
        state.tick == 0,
        runs.len() <= usize::MAX,
    ensures
        ({
            let (w, at) = after_runs(v, state, interval, runs);
            &&& w.execution_drift_records.len() == runs.len()
            &&& w.backlog_history.len() == runs.len()
            &&& w.simulated_cpu_load.len() == runs.len()
            &&& w.extremes_hold()
            &&& w.deadlines_counted()
            &&& forall|k: int|
                0 <= k < runs.len() ==> {
                    &&& (#[trigger] w.execution_drift_records[k]) >= 0
                    &&& runs[k].queue_len > 0 ==> w.backlog_history[k] == runs[k].queue_len
                    &&& w.simulated_cpu_load[k] == (LoadSample {
                        drift_us: w.execution_drift_records[k] as u128,
                        backlog: w.backlog_history[k],
                    })
                }
            &&& at.tick == runs.len()
            &&& runs.len() > 0 ==> at.last_packets_processed == runs.last().packets_processed
        }),
    decreases runs.len(),
{
    if runs.len() > 0 {
        let run = runs.last();
        let (before, at) = after_runs(v, state, interval, runs.drop_last());
        law_runs_are_recorded(v, state, interval, runs.drop_last());
        let seen = MonitorView { packets_processed: run.packets_processed as nat, ..before };
        let drift = drift_of(at.last_run_time, interval, run.now);
        let backlog = shown_backlog(run.queue_len as nat, (at.tick + 1) as nat, drift);
        let (w, _) = after_runs(v, state, interval, runs);
        assert(0 <= drift <= u128::MAX / 1000);
        lemma_extremes_kept(
            seen,
            drift as i128,
            backlog as usize,
            at.last_packets_processed as nat,
            run.end,
        );
        assert(w.execution_drift_records.drop_last() =~= before.execution_drift_records);
        assert forall|k: int| 0 <= k < runs.len() implies {
            &&& (#[trigger] w.execution_drift_records[k]) >= 0
            &&& runs[k].queue_len > 0 ==> w.backlog_history[k] == runs[k].queue_len
            &&& w.simulated_cpu_load[k] == (LoadSample {
                drift_us: w.execution_drift_records[k] as u128,
                backlog: w.backlog_history[k],
            })
        } by {
            if k < runs.len() - 1 {
                assert(w.execution_drift_records[k] == before.execution_drift_records[k]);
                assert(runs.drop_last()[k] == runs[k]);
            }
        }
    } else {
        assert(stats::signed_ints(v.execution_drift_records).len() == 0);
    }
}

/// A run without progress since the last one counts as a missing packet, with the third in a
/// row contact is lost and stays lost; progress starts the count over and brings contact back.
pub proof fn law_contact_follows_progress(
    v: MonitorView,
    state: MonitorLoop,
    interval: Duration,
    run: Run,
)
    ensures
        ({
            let (w, _) = after_run(v, state, interval, run);
            let missing = v.consecutive_missing_packets + 1;
            if run.packets_processed == state.last_packets_processed {
                w.consecutive_missing_packets == missing && w.contact_lost == (v.contact_lost
                    || missing >= 3)
            } else {
                w.consecutive_missing_packets == 0 && !w.contact_lost
            }
        }),
{
}

/// One periodic run at `now`, with `queue_len` packets in the telemetry queue, that ends at
/// `end`.
pub fn periodic_monitoring(
    m: &mut MonitoringData,
    state: &mut MonitorLoop,
    expected_interval: Duration,
    now: Instant,
    queue_len: usize,
    end: Instant,
) -> (r: TickReport)
    requires
        old(state).tick < usize::MAX,
        old(state).last_run_time.nanos + expected_interval.nanos <= u128::MAX,
        drift_of(old(state).last_run_time, expected_interval, now) > DRIFT_LIMIT_US
            ==> old(m)@.missed_deadlines < usize::MAX,
        old(m)@.packets_processed == old(state).last_packets_processed
            ==> old(m)@.consecutive_missing_packets < usize::MAX,
    ensures
        r.drift == drift_of(old(state).last_run_time, expected_interval, now),
        r.missed_deadline == (r.drift > DRIFT_LIMIT_US),
        r.backlog_len == shown_backlog(
            queue_len as nat,
            (old(state).tick + 1) as nat,
            r.drift as int,
        ),
        r.contact_lost == (!old(m)@.contact_lost && final(m)@.contact_lost),
        final(m)@ == old(m)@.after_tick(
            r.drift,
            r.backlog_len,
            old(state).last_packets_processed as nat,
            end,
        ),
        *final(state) == (MonitorLoop {
            last_run_time: now,
            tick: (old(state).tick + 1) as usize,
            last_packets_processed: old(m).packets_processed,
        }),
        (final(m)@, *final(state)) == after_run(
            old(m)@,
            *old(state),
            expected_interval,
            (Run { now, queue_len, packets_processed: old(m).packets_processed, end }),
        ),
        old(m)@.extremes_hold() ==> final(m)@.extremes_hold(),
        old(m)@.deadlines_counted() ==> final(m)@.deadlines_counted(),
        old(m)@.one_record_per_tick() ==> final(m)@.one_record_per_tick(),
{
    let ghost before = m@;
    state.tick = state.tick + 1;
    let scheduled: Instant = state.last_run_time.plus(expected_interval);
    let drift: i128 = now.duration_since(scheduled).as_micros() as i128;
    state.last_run_time = now;

    m.execution_drift_records.push(drift);
    m.max_drift =
    match m.max_drift {
        Some(high) => if high > drift {
            Some(high)
        } else {
            Some(drift)
        },
        None => Some(drift),
    };
    m.min_drift =
    match m.min_drift {
        Some(low) => if low < drift {
            Some(low)
        } else {
            Some(drift)
        },
        None => Some(drift),
    };
    let missed_deadline: bool = drift > DRIFT_LIMIT_US;
    if missed_deadline {
        m.missed_deadlines += 1;
    }
    let backlog_len: usize = if queue_len == 0 {
        state.tick % 5 + (drift % 4) as usize
    } else {
        queue_len
    };
    m.backlog_history.push(backlog_len);
    m.simulated_cpu_load.push(LoadSample { drift_us: drift as u128, backlog: backlog_len });

    let mut contact_lost: bool = false;
    if m.packets_processed == state.last_packets_processed {
        m.consecutive_missing_packets += 1;
        if m.consecutive_missing_packets >= CONTACT_LOSS_LIMIT && !m.contact_lost {
            m.contact_lost = true;
            contact_lost = true;
        }
    } else {
        m.consecutive_missing_packets = 0;
        m.contact_lost = false;
        state.last_packets_processed = m.packets_processed;
    }
    m.monitoring_end = Some(end);
    proof {
        lemma_extremes_kept(
            before,
            drift,
            backlog_len,
            old(state).last_packets_processed as nat,
            end,
        );
        assert(m@.execution_drift_records.drop_last() =~= before.execution_drift_records);
    }
    TickReport { drift, missed_deadline, backlog_len, contact_lost }
}

proof fn lemma_extremes_kept(
    v: MonitorView,
    drift: i128,
    backlog: usize,
    last_processed: nat,
    end: Instant,
)
    requires
        drift >= 0,
    ensures
        v.extremes_hold() ==> v.after_tick(drift, backlog, last_processed, end).extremes_hold(),
{
    if v.extremes_hold() {
        let w = v.after_tick(drift, backlog, last_processed, end);
        let was = stats::signed_ints(v.execution_drift_records);
        let is = stats::signed_ints(w.execution_drift_records);
        assert(is =~= was.push(drift as int));
        assert(is[was.len() as int] == drift);
        if v.max_drift is Some {
            let i = was.index_of(v.max_drift->0 as int);
            let j = was.index_of(v.min_drift->0 as int);
            assert(is[i] == v.max_drift->0);
            assert(is[j] == v.min_drift->0);
        }
        assert forall|k: int| 0 <= k < is.len() implies w.min_drift->0 <= #[trigger] is[k] && is[k]
            <= w.max_drift->0 by {
            if k < was.len() {
                assert(is[k] == was[k]);
            }
        }
    }
}

/// Keeps an uplink jitter in microseconds and gives the log line for it.
pub fn log_jitter(m: &mut MonitoringData, jitter: u128) -> (line: String)
    ensures
        final(m)@ == (MonitorView { jitter_values: old(m)@.jitter_values.push(jitter), ..old(m)@ }),
        line@ == timing::stamped_text(
            "⏱️  Uplink jitter recorded: "@ + text::decimal(jitter as nat) + " µs"@,
        ),
{
    m.jitter_values.push(jitter);
    timing::stamped(
        text::join3(
            "⏱️  Uplink jitter recorded: ",
            text::number(jitter).as_str(),
            " µs",
        ).as_str(),
    )
}

/// How a fault recovery went.
#[derive(Clone, Copy, Debug, PartialEq, Eq, Structural)]
pub struct FaultRecovery {
    pub duration_us: u128,
    /// Whether it took so long that the mission has to end.
    pub abort: bool,
}

/// Records a fault recovery from `start` to `now`, for the ground station and for the
/// satellite's summary.
pub fn log_fault_recovery(m: &mut MonitoringData, start: Instant, now: Instant) -> (r:
    FaultRecovery)
    requires
        old(m)@.sat_metrics.fault_recoveries < u64::MAX,
        old(m)@.sat_metrics.fault_recovery_sum_ms + clock::positive_part(now.nanos - start.nanos)
            / 1000 / 1000 <= u128::MAX,
    ensures
        r.duration_us == clock::positive_part(now.nanos - start.nanos) / 1000,
        r.abort == (r.duration_us > RECOVERY_LIMIT_US),
        r.abort <==> now.nanos >= start.nanos + 200_001_000,
        final(m)@ == old(m)@.after_fault_recovery(r.duration_us),
{
    let duration_us: u128 = now.duration_since(start).as_micros();
    m.fault_recovery_times.push(duration_us);
    m.sat_metrics.record_fault_recovery(duration_us / 1000);
    FaultRecovery { duration_us, abort: duration_us > RECOVERY_LIMIT_US }
}

/// A share of processor time: what was active of a whole that is never zero.
#[derive(Clone, Copy, Debug, PartialEq, Eq, Structural)]
pub struct CpuUsage {
    pub active_micros: u128,
    pub total_micros: u128,
}

/// `micros`, but at least one.
pub open spec fn at_least_one(micros: int) -> int {
    if micros < 1 {
        1
    } else {
        micros
    }
}

/// The share that `active_micros` is of `duration`.
pub fn cpu_usage(active_micros: u128, duration: Duration) -> (r: CpuUsage)
    ensures
        r.active_micros == active_micros,
        r.total_micros == at_least_one(duration.micros() as int),
{
    let micros: u128 = duration.as_micros();
    let total_micros: u128 = if micros < 1 {
        1
    } else {
        micros
    };
    CpuUsage { active_micros, total_micros }
}

/// The share of `sim_duration` that the recorded active time is.
pub fn report_cpu_utilization_block(m: &MonitoringData, sim_duration: Duration) -> (r: CpuUsage)
    ensures
        r.active_micros == m@.cpu_active_micros,
        r.total_micros == at_least_one(sim_duration.micros() as int),
{
    cpu_usage(m.cpu_active_micros, sim_duration)
}

/// Sets the active processor time.
pub fn update_cpu_active_time(m: &mut MonitoringData, micros: u128)
    ensures
        final(m)@ == (MonitorView { cpu_active_micros: micros, ..old(m)@ }),
{
    m.cpu_active_micros = micros;
}

/// The figures of the ground station's final report. Averages that are printed with a
/// fraction stand as sum and count.
#[derive(Clone, Copy, Debug, PartialEq, Eq, Structural)]
pub struct MonitoringReport {
    pub duration: Duration,
    pub avg_jitter_us: Option<u128>,
    pub avg_drift_us: i128,
    pub max_drift_us: i128,
    pub min_drift_us: i128,
    pub missed_deadlines: usize,
    pub packets_processed: usize,
    pub max_backlog: usize,
    pub min_backlog: usize,
    pub backlog_sum: usize,
    pub backlog_count: usize,
    pub recoveries: usize,
    pub recovery_sum_us: u128,
    pub max_recovery_us: u128,
    pub min_recovery_us: u128,
    pub cpu: CpuUsage,
}

/// The time that monitoring lasted, none while it has no start or no end.
pub open spec fn monitoring_duration(v: MonitorView) -> int {
    match (v.monitoring_start, v.monitoring_end) {
        (Some(start), Some(end)) => clock::positive_part(end.nanos - start.nanos),
        _ => 0,
    }
}

/// Whether the sums of the report can be computed.
pub open spec fn sums_in_range(v: MonitorView) -> bool {
    &&& stats::total(stats::ints(v.jitter_values)) <= u128::MAX
    &&& stats::sums_fit(stats::signed_ints(v.execution_drift_records))
    &&& stats::total(stats::sizes(v.backlog_history)) <= usize::MAX
    &&& stats::total(stats::ints(v.fault_recovery_times)) <= u128::MAX
}

/// The figures of the ground station's final report.
pub fn monitoring_report(m: &MonitoringData) -> (r: MonitoringReport)
    requires
        sums_in_range(m@),
    ensures
        r.duration.nanos == monitoring_duration(m@),
        match r.avg_jitter_us {
            Some(avg) => m@.jitter_values.len() > 0 && avg == stats::total(
                stats::ints(m@.jitter_values),
            ) / m@.jitter_values.len() as int,
            None => m@.jitter_values.len() == 0,
        },
        r.avg_drift_us == if m@.execution_drift_records.len() == 0 {
            0
        } else {
            clock::truncated_div(
                stats::total(stats::signed_ints(m@.execution_drift_records)),
                m@.execution_drift_records.len() as int,
            )
        },
        r.max_drift_us == match m@.max_drift {
            Some(d) => d,
            None => 0,
        },
        r.min_drift_us == match m@.min_drift {
            Some(d) => d,
            None => 0,
        },
        r.missed_deadlines == m@.missed_deadlines,
        r.packets_processed == m@.packets_processed,
        r.backlog_count == m@.backlog_history.len(),
        r.backlog_sum == stats::total(stats::sizes(m@.backlog_history)),
        if m@.backlog_history.len() == 0 {
            r.max_backlog == 0 && r.min_backlog == 0
        } else {
            stats::is_greatest(stats::sizes(m@.backlog_history), r.max_backlog as int)
                && stats::is_least(stats::sizes(m@.backlog_history), r.min_backlog as int)
        },
        r.recoveries == m@.fault_recovery_times.len(),
        r.recovery_sum_us == stats::total(stats::ints(m@.fault_recovery_times)),
        if m@.fault_recovery_times.len() == 0 {
            r.max_recovery_us == 0 && r.min_recovery_us == 0
        } else {
            stats::is_greatest(stats::ints(m@.fault_recovery_times), r.max_recovery_us as int)
                && stats::is_least(stats::ints(m@.fault_recovery_times), r.min_recovery_us as int)
        },
        r.cpu.active_micros == m@.cpu_active_micros,
        r.cpu.total_micros == at_least_one(monitoring_duration(m@) / 1000),
{
    let duration: Duration = match m.monitoring_start {
        Some(start) => match m.monitoring_end {
            Some(end) => end.duration_since(start),
            None => Duration { nanos: 0 },
        },
        None => Duration { nanos: 0 },
    };
    let avg_drift_us: i128 = match m.calculate_average_drift() {
        Some(d) => d,
        None => 0,
    };
    let max_drift_us: i128 = match m.max_drift {
        Some(d) => d,
        None => 0,
    };
    let min_drift_us: i128 = match m.min_drift {
        Some(d) => d,
        None => 0,
    };
    let (min_backlog, max_backlog): (usize, usize) = match stats::size_range(&m.backlog_history) {
        Some(range) => range,
        None => (0, 0),
    };
    let (min_recovery_us, max_recovery_us): (u128, u128) = match stats::sample_range(
        &m.fault_recovery_times,
    ) {
        Some(range) => range,
        None => (0, 0),
    };
    MonitoringReport {
        duration,
        avg_jitter_us: m.calculate_average_jitter(),
        avg_drift_us,
        max_drift_us,
        min_drift_us,
        missed_deadlines: m.missed_deadlines,
        packets_processed: m.packets_processed,
        max_backlog,
        min_backlog,
        backlog_sum: stats::sum_sizes(&m.backlog_history),
        backlog_count: m.backlog_history.len(),
        recoveries: m.fault_recovery_times.len(),
        recovery_sum_us: stats::sum_samples(&m.fault_recovery_times),
        max_recovery_us,
        min_recovery_us,
        cpu: report_cpu_utilization_block(m, duration),
    }
}

/// Records the jitter of a sensor.
pub fn record_sensor_jitter(m: &mut MonitoringData, name: &str, d: Duration)
    requires
        summary::stat_of(old(m)@.sat_metrics.sensor_jitter, name@).has_room(d.micros()),
    ensures
        final(m)@ == old(m)@.with_sat(old(m)@.sat_metrics.with_sensor_jitter(name@, d.micros())),
{
    m.sat_metrics.record_sensor_jitter(name, d);
}

/// Records how long a sample took from its sensor into the buffer.
pub fn record_insert_latency(m: &mut MonitoringData, name: &str, d: Duration)
    requires
        summary::stat_of(old(m)@.sat_metrics.insert_latency, name@).has_room(d.micros()),
    ensures
        final(m)@ == old(m)@.with_sat(old(m)@.sat_metrics.with_insert_latency(name@, d.micros())),
{
    m.sat_metrics.record_insert_latency(name, d);
}

/// Records how late a sample was processed.
pub fn record_sched_drift(m: &mut MonitoringData, d: Duration)
    requires
        old(m)@.sat_metrics.scheduling_drift.has_room(d.micros()),
    ensures
        final(m)@ == old(m)@.with_sat(old(m)@.sat_metrics.with_sched_drift(d.micros())),
{
    m.sat_metrics.record_sched_drift(d);
}

/// Counts a missed deadline of the satellite.
pub fn record_missed_deadline(m: &mut MonitoringData)
    requires
        old(m)@.sat_metrics.missed_deadlines < u64::MAX,
    ensures
        final(m)@ == old(m)@.with_sat(old(m)@.sat_metrics.with_missed_deadline()),
{
    m.sat_metrics.record_missed_deadline();
}

/// Counts a sample or packet that found no room.
pub fn record_buffer_drop(m: &mut MonitoringData)
    requires
        old(m)@.sat_metrics.dropped_samples < u64::MAX,
    ensures
        final(m)@ == old(m)@.with_sat(old(m)@.sat_metrics.with_buffer_drop()),
{
    m.sat_metrics.record_buffer_drop();
}

/// Counts a packet handed to the downlink.
pub fn record_downlink_sent(m: &mut MonitoringData)
    requires
        old(m)@.sat_metrics.downlink_sent < u64::MAX,
    ensures
        final(m)@ == old(m)@.with_sat(old(m)@.sat_metrics.with_downlink_sent()),
{
    m.sat_metrics.record_downlink_sent();
}

/// Counts a packet that the downlink lost.
pub fn record_downlink_dropped(m: &mut MonitoringData)
    requires
        old(m)@.sat_metrics.downlink_dropped < u64::MAX,
    ensures
        final(m)@ == old(m)@.with_sat(old(m)@.sat_metrics.with_downlink_dropped()),
{
    m.sat_metrics.record_downlink_dropped();
}

/// Records the fill of the sample buffer.
pub fn record_backlog(m: &mut MonitoringData, len: usize)
    requires
        old(m)@.sat_metrics.backlog_sum + len <= u128::MAX,
        old(m)@.sat_metrics.backlog_count < u64::MAX,
    ensures
        final(m)@ == old(m)@.with_sat(old(m)@.sat_metrics.with_backlog(len as nat)),
{
    m.sat_metrics.record_backlog(len);
}

/// Counts a packet sent to the ground.
pub fn record_packet_generated(m: &mut MonitoringData)
    requires
        old(m)@.sat_metrics.packets_generated < u64::MAX,
    ensures
        final(m)@ == old(m)@.with_sat(old(m)@.sat_metrics.with_packet_generated()),
        old(m)@.sat_metrics.processed_within_generated()
            ==> final(m)@.sat_metrics.processed_within_generated(),
{
    m.sat_metrics.record_packet_generated();
}

/// The log line of a processed packet, before which the summary stood at `v`.
pub open spec fn processed_line(v: SummaryView) -> Seq<char> {
    timing::stamped_text(
        if v.packets_processed < v.packets_generated {
            "✅ Packet PROCESSED | Total: "@ + text::decimal(v.packets_processed + 1)
        } else {
            "⚠️ Skipping processed increment: processed="@ + text::decimal(v.packets_processed)
                + ", generated="@ + text::decimal(v.packets_generated)
        },
    )
}

/// Counts a packet processed on the ground, never more than were generated, and gives the
/// log line for it.
pub fn record_packet_processed(m: &mut MonitoringData) -> (line: String)
    ensures
        final(m)@ == old(m)@.with_sat(old(m)@.sat_metrics.with_packet_processed()),
        line@ == processed_line(old(m)@.sat_metrics),
        ({
            let done = old(m)@.sat_metrics.packets_processed;
            let made = old(m)@.sat_metrics.packets_generated;
            line@ == timing::stamped_text(
                if done < made {
                    "✅ Packet PROCESSED | Total: "@ + text::decimal(done + 1)
                } else {
                    "⚠️ Skipping processed increment: processed="@ + text::decimal(done)
                        + ", generated="@ + text::decimal(made)
                },
            )
        }),
        old(m)@.sat_metrics.processed_within_generated()
            ==> final(m)@.sat_metrics.processed_within_generated(),
{
    if m.sat_metrics.record_packet_processed() {
        timing::stamped(
            text::join(
                "✅ Packet PROCESSED | Total: ",
                text::number(m.sat_metrics.packets_processed as u128).as_str(),
            ).as_str(),
        )
    } else {
        let mut line: String = text::join3(
            "⚠️ Skipping processed increment: processed=",
            text::number(m.sat_metrics.packets_processed as u128).as_str(),
            ", generated=",
        );
        line.append(text::number(m.sat_metrics.packets_generated as u128).as_str());
        timing::stamped(line.as_str())
    }
}

/// Records a fault recovery in the satellite's summary.
pub fn record_fault_recovery(m: &mut MonitoringData, ms: u128)
    requires
        old(m)@.sat_metrics.fault_recoveries < u64::MAX,
        old(m)@.sat_metrics.fault_recovery_sum_ms + ms <= u128::MAX,
    ensures
        final(m)@ == old(m)@.with_sat(old(m)@.sat_metrics.with_fault_recovery(ms as nat)),
{
    m.sat_metrics.record_fault_recovery(ms);
}

/// The log line of a downlink that came too late.
pub fn record_missed_downlink(sensor_name: &str, latency_ms: i64) -> (line: String)
    ensures
        line@ == "📡 Missed downlink for "@ + sensor_name@ + " | latency="@
            + text::signed_decimal(latency_ms as int) + "ms"@,
{
    let mut line: String = text::join3("📡 Missed downlink for ", sensor_name, " | latency=");
    line.append(text::signed_number(latency_ms as i128).as_str());
    line.append("ms");
    line
}

/// The log line of a downlink's latency.
pub fn record_downlink_latency(sensor_name: &str, latency_ms: i64) -> (line: String)
    ensures
        line@ == "📊 Downlink latency recorded for "@ + sensor_name@ + " | "@
            + text::signed_decimal(latency_ms as int) + "ms"@,
{
    let mut line: String = text::join3("📊 Downlink latency recorded for ", sensor_name, " | ");
    line.append(text::signed_number(latency_ms as i128).as_str());
    line.append("ms");
    line
}

/// The log line about the drift of a periodic run.
pub fn drift_line(report: &TickReport) -> (r: String)
    ensures
        r@ == timing::stamped_text(
            if report.missed_deadline {
                "❗ Missed periodic deadline: drift "@
            } else {
                "✅ Execution drift: "@
            } + text::signed_decimal(report.drift as int) + " µs"@,
        ),
{
    let head: &str = if report.missed_deadline {
        "❗ Missed periodic deadline: drift "
    } else {
        "✅ Execution drift: "
    };
    timing::stamped(
        text::join3(head, text::signed_number(report.drift).as_str(), " µs").as_str(),
    )
}

/// The log line about the backlog that a periodic run saw.
pub fn backlog_line(report: &TickReport) -> (r: String)
    ensures
        r@ == timing::stamped_text(
            "📊 Telemetry backlog: "@ + text::decimal(report.backlog_len as nat) + " packets"@,
        ),
{
    timing::stamped(
        text::join3(
            "📊 Telemetry backlog: ",
            text::number(report.backlog_len as u128).as_str(),
            " packets",
        ).as_str(),
    )
}

/// The log line of a periodic run with which contact was lost.
pub fn contact_line(m: &MonitoringData) -> (r: String)
    ensures
        r@ == timing::stamped_text(
            "🚨 CONTACT LOST (periodic): "@
                + text::decimal(m@.consecutive_missing_packets as nat)
                + " intervals without packets"@,
        ),
{
    timing::stamped(
        text::join3(
            "🚨 CONTACT LOST (periodic): ",
            text::number(m.consecutive_missing_packets as u128).as_str(),
            " intervals without packets",
        ).as_str(),
    )
}

/// The log line of a fault recovery.
pub fn recovery_line(recovery: &FaultRecovery) -> (r: String)
    ensures
        r@ == timing::stamped_text(
            "🛠️  Fault recovered in "@ + text::decimal(recovery.duration_us as nat) + " µs"@,
        ),
{
    timing::stamped(
        text::join3(
            "🛠️  Fault recovered in ",
            text::number(recovery.duration_us as u128).as_str(),
            " µs",
        ).as_str(),
    )
}

/// The log line of a fault recovery that ends the mission.
pub fn abort_line(recovery: &FaultRecovery) -> (r: String)
    ensures
        r@ == timing::stamped_text(
            "💥 Mission ABORT: Fault recovery exceeded 200ms ("@
                + text::decimal(recovery.duration_us as nat) + " µs)"@,
        ),
{
    timing::stamped(
        text::join3(
            "💥 Mission ABORT: Fault recovery exceeded 200ms (",
            text::number(recovery.duration_us as u128).as_str(),
            " µs)",
        ).as_str(),
    )
}

/// A packet leaves its latency, and its jitter where that is known, and brings contact back;
/// nothing else changes.
pub proof fn law_reception_is_recorded(v: MonitorView, latency_ms: u64, jitter_us: u128)
    ensures
        v.after_reception(latency_ms, None) == (MonitorView {
            telemetry_latencies_ms: v.telemetry_latencies_ms.push(latency_ms),
            consecutive_missing_packets: 0,
            contact_lost: false,
            ..v
        }),
        v.after_reception(latency_ms, Some(jitter_us)) == (MonitorView {
            jitter_values: v.jitter_values.push(jitter_us),
            ..v.after_reception(latency_ms, None)
        }),
{
}

/// A missing packet is counted, contact is lost from the third in a row on, and nothing else
/// changes.
pub proof fn law_missing_packet_is_counted(v: MonitorView)
    ensures
        ({
            let w = v.after_missing();
            &&& w.consecutive_missing_packets - v.consecutive_missing_packets == 1
            &&& w.contact_lost <==> v.contact_lost || v.consecutive_missing_packets >= 2
            &&& w == (MonitorView {
                consecutive_missing_packets: w.consecutive_missing_packets,
                contact_lost: w.contact_lost,
                ..v
            })
        }),
{
}

/// A fault recovery is kept in microseconds, and counted for the satellite in whole
/// milliseconds; nothing else changes.
pub proof fn law_fault_recovery_is_recorded(v: MonitorView, micros: u128)
    ensures
        ({
            let w = v.after_fault_recovery(micros);
            let ms = w.sat_metrics.fault_recovery_sum_ms - v.sat_metrics.fault_recovery_sum_ms;
            &&& w.fault_recovery_times == v.fault_recovery_times.push(micros)
            &&& 1000 * ms <= micros < 1000 * ms + 1000
            &&& w.sat_metrics.fault_recoveries == v.sat_metrics.fault_recoveries + 1
            &&& w == (MonitorView {
                fault_recovery_times: w.fault_recovery_times,
                sat_metrics: SummaryView {
                    fault_recoveries: w.sat_metrics.fault_recoveries,
                    fault_recovery_sum_ms: w.sat_metrics.fault_recovery_sum_ms,
                    ..v.sat_metrics
                },
                ..v
            })
        }),
{
}

/// A run is late by the whole microseconds that have gone by since an interval after the run
/// before, and by nothing when it comes earlier.
pub proof fn law_drift_of_a_run(last: Instant, interval: Duration, now: Instant)
    ensures
        ({
            let drift = drift_of(last, interval, now);
            let late = now.nanos - last.nanos - interval.nanos;
            &&& late <= 0 ==> drift == 0
            &&& late > 0 ==> 1000 * drift <= late < 1000 * drift + 1000
        }),
{
}

/// The backlog reported is that of the queue. For an empty one it is made up: it repeats every
/// five runs and every four microseconds of drift, and goes up by one with each within that.
pub proof fn law_shown_backlog(queue_len: nat, tick: nat, drift: nat)
    ensures
        queue_len > 0 ==> shown_backlog(queue_len, tick, drift as int) == queue_len,
        shown_backlog(0, tick + 5, drift as int) == shown_backlog(0, tick, drift as int),
        shown_backlog(0, tick, drift as int + 4) == shown_backlog(0, tick, drift as int),
        tick < 5 && drift < 4 ==> shown_backlog(0, tick, drift as int) == tick + drift,
{
}

/// A run leaves its drift, its backlog and the two as a load sample, widens the drift extremes
/// where it exceeds them, counts as a missed deadline when it is more than two milliseconds late,
/// and sets the end. Without a packet since the last run it counts a missing one, otherwise the
/// count starts over. Nothing else changes.
pub proof fn law_run_is_recorded(
    v: MonitorView,
    drift: i128,
    backlog: usize,
    last_processed: nat,
    end: Instant,
)
    requires
        drift >= 0,
    ensures
        ({
            let w = v.after_tick(drift, backlog, last_processed, end);
            &&& w.execution_drift_records == v.execution_drift_records.push(drift)
            &&& w.backlog_history == v.backlog_history.push(backlog)
            &&& w.simulated_cpu_load.len() == v.simulated_cpu_load.len() + 1
            &&& w.simulated_cpu_load.drop_last() == v.simulated_cpu_load
            &&& w.simulated_cpu_load.last().drift_us == drift
            &&& w.simulated_cpu_load.last().backlog == backlog
            &&& w.monitoring_end == Some(end)
            &&& w.max_drift is Some && w.max_drift->0 >= drift
            &&& w.max_drift == Some(drift) || w.max_drift == v.max_drift
            &&& v.max_drift is Some ==> w.max_drift->0 >= v.max_drift->0
            &&& w.min_drift is Some && w.min_drift->0 <= drift
            &&& w.min_drift == Some(drift) || w.min_drift == v.min_drift
            &&& v.min_drift is Some ==> w.min_drift->0 <= v.min_drift->0
            &&& w.missed_deadlines - v.missed_deadlines == if drift > 2_000 {
                1int
            } else {
                0int
            }
            &&& v.packets_processed == last_processed ==> w.consecutive_missing_packets
                == v.consecutive_missing_packets + 1 && (w.contact_lost <==> v.contact_lost
                || v.consecutive_missing_packets >= 2)
            &&& v.packets_processed != last_processed ==> w.consecutive_missing_packets == 0
                && !w.contact_lost
            &&& w.jitter_values == v.jitter_values
            &&& w.telemetry_latencies_ms == v.telemetry_latencies_ms
            &&& w.fault_recovery_times == v.fault_recovery_times
            &&& w.monitoring_start == v.monitoring_start
            &&& w.packets_processed == v.packets_processed
            &&& w.cpu_active_micros == v.cpu_active_micros
            &&& w.sat_metrics == v.sat_metrics
        }),
{
}

/// A run passes its drift, its backlog and its packet count on to the records, and is the one
/// that the next is measured from.
pub proof fn law_next_run_follows_this_one(
    v: MonitorView,
    state: MonitorLoop,
    interval: Duration,
    run: Run,
)
    requires
        state.tick < usize::MAX,
    ensures
        ({
            let (w, next) = after_run(v, state, interval, run);
            let late = run.now.nanos - state.last_run_time.nanos - interval.nanos;
            let drift = w.execution_drift_records.last();
            &&& w.execution_drift_records.drop_last() == v.execution_drift_records
            &&& late <= 0 ==> drift == 0
            &&& late > 0 ==> 1000 * drift <= late < 1000 * drift + 1000
            &&& w.backlog_history.drop_last() == v.backlog_history
            &&& run.queue_len > 0 ==> w.backlog_history.last() == run.queue_len
            &&& run.queue_len == 0 ==> w.backlog_history.last() == (state.tick + 1) % 5 + drift
                as int % 4
            &&& w.packets_processed == run.packets_processed
            &&& w.monitoring_end == Some(run.end)
            &&& w.sat_metrics == v.sat_metrics
            &&& next.last_run_time == run.now
            &&& next.tick == state.tick + 1
            &&& next.last_packets_processed == run.packets_processed
        }),
{
    let drift = drift_of(state.last_run_time, interval, run.now);
    assert(0 <= drift <= u128::MAX / 1000);
}

/// One more drift is one more late run exactly when it is above two milliseconds.
pub proof fn law_late_runs_are_counted(drifts: Seq<i128>, drift: i128)
    ensures
        late_runs(Seq::<i128>::empty()) == 0,
        drift > 2_000 ==> late_runs(drifts.push(drift)) == late_runs(drifts) + 1,
        drift <= 2_000 ==> late_runs(drifts.push(drift)) == late_runs(drifts),
{
    assert(drifts.push(drift).drop_last() =~= drifts);
}

/// Monitoring lasted from its start to its end, and not at all when one of the two is missing or
/// they are in the wrong order. A whole that a share is taken of is never zero.
pub proof fn law_monitoring_duration(v: MonitorView, start: Instant, end: Instant, micros: int)
    ensures
        ({
            let w = MonitorView {
                monitoring_start: Some(start),
                monitoring_end: Some(end),
                ..v
            };
            &&& start.nanos <= end.nanos ==> start.nanos + monitoring_duration(w) == end.nanos
            &&& start.nanos > end.nanos ==> monitoring_duration(w) == 0
        }),
        v.monitoring_start is None || v.monitoring_end is None ==> monitoring_duration(v) == 0,
        micros >= 1 ==> at_least_one(micros) == micros,
        micros < 1 ==> at_least_one(micros) == 1,
{
}

/// The monitor is seen with its own records.
pub proof fn law_monitor_is_seen_whole(m: MonitoringData)
    ensures
        m@.jitter_values == m.jitter_values@,
        m@.telemetry_latencies_ms == m.telemetry_latencies_ms@,
        m@.execution_drift_records == m.execution_drift_records@,
        m@.missed_deadlines == m.missed_deadlines,
        m@.backlog_history == m.backlog_history@,
        m@.fault_recovery_times == m.fault_recovery_times@,
        m@.max_drift == m.max_drift,
        m@.min_drift == m.min_drift,
        m@.monitoring_start == m.monitoring_start,
        m@.monitoring_end == m.monitoring_end,
        m@.simulated_cpu_load == m.simulated_cpu_load@,
        m@.packets_processed == m.packets_processed,
        m@.cpu_active_micros == m.cpu_active_micros,
        m@.sat_metrics == m.sat_metrics@,
        m@.consecutive_missing_packets == m.consecutive_missing_packets,
        m@.contact_lost == m.contact_lost,
{
}

/// The satellite's figures are replaced without touching the rest.
pub proof fn law_ground_records_stay_apart(v: MonitorView, sat: SummaryView)
    ensures
        v.with_sat(sat).sat_metrics == sat,
        v.with_sat(sat) == (MonitorView { sat_metrics: sat, ..v }),
{
}

} // verus!
