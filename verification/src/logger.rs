//! The event log: whether it is on, and how its lines read.

use crate::clock;
use crate::clock::{Duration, Instant};
use crate::text;
use vstd::prelude::*;

verus! {

/// The state of the event log.
#[derive(Clone, Copy, Debug, PartialEq, Eq, Structural)]
pub struct Logger {
    pub enabled: bool,
    /// When the log was initialized.
    pub start: Option<Instant>,
}

/// A log that is on and not initialized.
pub fn new_logger() -> (r: Logger)
    ensures
        r == (Logger { enabled: true, start: None }),
{
    Logger { enabled: true, start: None }
}

/// Turns the log off.
pub fn disable_logging(log: &mut Logger)
    ensures
        *final(log) == (Logger { enabled: false, ..*old(log) }),
{
    log.enabled = false;
}

/// Turns the log on.
pub fn enable_logging(log: &mut Logger)
    ensures
        *final(log) == (Logger { enabled: true, ..*old(log) }),
{
    log.enabled = true;
}

/// The first line of the log, written at `stamp`.
pub open spec fn first_line(stamp: Seq<char>) -> Seq<char> {
    "["@ + stamp + "] Logger initialized (elapsed: 0.000s)"@
}

/// The line for `event`, written at `stamp`.
pub open spec fn event_line(stamp: Seq<char>, elapsed: Seq<char>, event: Seq<char>) -> Seq<char> {
    "["@ + stamp + " | elapsed: "@ + elapsed + "] "@ + event
}

/// Starts the clock of the log and gives its first line.
pub fn init_logger(log: &mut Logger, now: Instant, stamp: &str) -> (line: String)
    ensures
        *final(log) == (Logger { start: Some(now), ..*old(log) }),
        line@ == first_line(stamp@),
        line@ == "["@ + stamp@ + "] Logger initialized (elapsed: 0.000s)"@,
{
    log.start = Some(now);
    text::join3("[", stamp, "] Logger initialized (elapsed: 0.000s)")
}

/// The time since the log was initialized.
pub fn elapsed(log: &Logger, now: Instant) -> (r: Option<Duration>)
    ensures
        match r {
            Some(d) => log.start matches Some(start) && d.nanos == clock::positive_part(
                now.nanos - start.nanos,
            ),
            None => log.start is None,
        },
{
    match log.start {
        Some(start) => Some(now.duration_since(start)),
        None => None,
    }
}

/// The line for `event`, none while the log is off. `shown` is the time since the log was
/// initialized, as it is to be written.
pub fn log_event(log: &Logger, stamp: &str, shown: &str, event: &str) -> (line: Option<String>)
    ensures
        match line {
            Some(s) => log.enabled && s@ == event_line(
                stamp@,
                if log.start is Some {
                    shown@
                } else {
                    "N/A"@
                },
                event@,
            ),
            None => !log.enabled,
        },
        log.enabled && log.start is Some ==> line->0@ == "["@ + stamp@ + " | elapsed: "@ + shown@
            + "] "@ + event@,
        log.enabled && log.start is None ==> line->0@ == "["@ + stamp@ + " | elapsed: "@ + "N/A"@
            + "] "@ + event@,
{
    if !log.enabled {
        return None;
    }
    let mut line: String = text::join3("[", stamp, " | elapsed: ");
    match log.start {
        Some(_) => line.append(shown),
        None => line.append("N/A"),
    }
    line.append("] ");
    line.append(event);
    Some(line)
}

} // verus!
