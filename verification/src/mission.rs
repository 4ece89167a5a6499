//! The rules by which the whole simulation runs and ends.

use crate::clock;
use crate::clock::{Duration, Instant};
use crate::monitor;
use crate::monitor::{MonitorView, MonitoringData};
use crate::text;
use crate::timing;
use vstd::prelude::*;

verus! {

/// How long the mission lasts, in nanoseconds.
pub const MISSION_NANOS: u128 = 30_000_000_000;

/// Recovery time beyond which the mission is aborted, in nanoseconds.
pub const ABORT_NANOS: u128 = 200_000_000;

/// Whether the mission goes on after `elapsed`.
pub fn is_running(elapsed: Duration, shutdown: bool) -> (r: bool)
    ensures
        r == (elapsed.nanos < MISSION_NANOS && !shutdown),
        !shutdown ==> (r <==> elapsed.nanos < 30_000_000_000),
{
    elapsed.nanos < MISSION_NANOS && !shutdown
}

/// Counts one packet that the main loop processed.
pub fn count_processed(m: &mut MonitoringData)
    requires
        old(m)@.packets_processed < usize::MAX,
    ensures
        final(m)@ == (MonitorView {
            packets_processed: (old(m)@.packets_processed + 1) as nat,
            ..old(m)@
        }),
{
    m.packets_processed += 1;
}

/// The line that the mission starts.
pub fn start_line() -> (r: String)
    ensures
        r@ == timing::stamped_text(">>> Integrated Ground & Sensor Simulation Starting"@),
{
    timing::stamped(">>> Integrated Ground & Sensor Simulation Starting")
}

/// The line that the mission ended.
pub fn end_line() -> (r: String)
    ensures
        r@ == timing::stamped_text(">>> Integrated Simulation Ended"@),
{
    timing::stamped(">>> Integrated Simulation Ended")
}

/// The end of an injected fault.
pub struct InjectedFault {
    pub recovery: Duration,
    /// The log line of the recovery.
    pub line: String,
    /// Recovery took so long that the mission ends.
    pub abort: bool,
}

/// Records the recovery from a fault that was injected at `start` and cleared at `end`.
pub fn end_injected_fault(m: &mut MonitoringData, start: Instant, end: Instant) -> (r:
    InjectedFault)
    requires
        old(m)@.sat_metrics.fault_recoveries < u64::MAX,
        old(m)@.sat_metrics.fault_recovery_sum_ms + clock::positive_part(end.nanos - start.nanos)
            / 1_000_000 <= u128::MAX,
    ensures
        r.recovery.nanos == clock::positive_part(end.nanos - start.nanos),
        r.line@ == "🔧 [FAULT INJECTOR] Recovery time: "@ + text::decimal(r.recovery.millis())
            + " ms"@,
        r.abort == (r.recovery.nanos > ABORT_NANOS),
        r.abort <==> end.nanos > start.nanos + 200_000_000,
        final(m)@ == old(m)@.with_sat(
            old(m)@.sat_metrics.with_fault_recovery(r.recovery.millis()),
        ),
{
    let recovery: Duration = end.duration_since(start);
    monitor::record_fault_recovery(m, recovery.as_millis());
    InjectedFault {
        recovery,
        line: text::join3(
            "🔧 [FAULT INJECTOR] Recovery time: ",
            text::number(recovery.as_millis()).as_str(),
            " ms",
        ),
        abort: recovery.nanos > ABORT_NANOS,
    }
}

} // verus!
