//! The telemetry monitor: what it makes of every text that comes from the satellite.

use crate::cipher;
use crate::clock;
use crate::clock::{Duration, Instant, Timestamp};
use crate::monitor;
use crate::monitor::{MonitorView, MonitoringData};
use crate::text;
use crate::timing;
use crate::types;
use crate::types::{WirePacket, ENC_KEY};
use vstd::prelude::*;
use vstd::utf8::*;

verus! {

/// What the telemetry monitor reports.
#[derive(Clone, Copy, Debug, PartialEq, Eq, Structural)]
pub enum TelemetryEvent {
    PacketReceived { packet_id: u64, latency_ms: u64, drift_us: i128 },
    /// How many packets in a row are missing.
    PacketMissing(u64),
    ContactLost,
}

/// Failures in a row after which contact counts as lost.
pub const FAILURE_LIMIT: u64 = 3;

/// Longest decoding time that is in order, in nanoseconds.
pub const DECODE_LIMIT_NANOS: u128 = 3_000_000;

/// Longest time for a command dispatch that is in order, in nanoseconds.
pub const DISPATCH_LIMIT_NANOS: u128 = 2_000_000;

/// What the telemetry monitor carries from one packet to the next.
#[derive(Clone, Copy, Debug, PartialEq, Eq, Structural)]
pub struct TelemetryState {
    pub last_packet_time: Option<Instant>,
    pub last_interval_us: Option<i128>,
    pub consecutive_failures: u64,
}

impl TelemetryState {
    /// Intervals are not negative.
    pub open spec fn wf(self) -> bool {
        self.last_interval_us matches Some(us) ==> us >= 0
    }

    /// The time from the last packet to one at `now`, in microseconds.
    pub open spec fn interval_at(self, now: Instant) -> int
        recommends
            self.last_packet_time is Some,
    {
        clock::positive_part(now.nanos - self.last_packet_time->0.nanos) / 1000
    }

    /// How much the interval before a packet at `now` differs from the one before it.
    pub open spec fn drift_at(self, now: Instant) -> int {
        match (self.last_packet_time, self.last_interval_us) {
            (Some(_), Some(us)) => clock::distance(self.interval_at(now), us as int),
            _ => 0,
        }
    }

    /// After a packet at `now`.
    pub open spec fn after_packet(self, now: Instant) -> TelemetryState {
        TelemetryState {
            last_packet_time: Some(now),
            last_interval_us: match self.last_packet_time {
                Some(_) => Some(self.interval_at(now) as i128),
                None => self.last_interval_us,
            },
            consecutive_failures: 0,
        }
    }

    /// After one more text that holds no packet.
    pub open spec fn after_failure(self) -> TelemetryState {
        TelemetryState {
            consecutive_failures: (self.consecutive_failures + 1) as u64,
            ..self
        }
    }

    pub fn new() -> (r: Self)
        ensures
            r == (TelemetryState {
                last_packet_time: None,
                last_interval_us: None,
                consecutive_failures: 0,
            }),
            r.wf(),
    {
        TelemetryState { last_packet_time: None, last_interval_us: None, consecutive_failures: 0 }
    }
}

/// What comes of a text from the satellite.
pub enum Decoded {
    Plain(String),
    /// It cannot be decrypted: the reason, the event, and the log line.
    Failed(String, TelemetryEvent, String),
}

/// Decrypts a text from the satellite; one that cannot be decrypted counts as missing.
pub fn telemetry_decrypt(
    state: &mut TelemetryState,
    m: &mut MonitoringData,
    serialized: &str,
) -> (r: Decoded)
    requires
        cipher::pairs_whole(encode_utf8(serialized@)),
        old(state).consecutive_failures < u64::MAX,
        old(m)@.consecutive_missing_packets < usize::MAX,
    ensures
        ({
            let bytes = encode_utf8(serialized@);
            let plain = cipher::xored(cipher::unhexed(bytes), ENC_KEY@);
            match r {
                Decoded::Plain(p) => {
                    &&& cipher::all_hex(bytes) && valid_utf8(plain)
                    &&& p@ == decode_utf8(plain)
                    &&& *final(state) == *old(state)
                    &&& final(m)@ == old(m)@
                },
                Decoded::Failed(reason, event, line) => {
                    &&& !(cipher::all_hex(bytes) && valid_utf8(plain))
                    &&& reason@ == if cipher::all_hex(bytes) {
                        cipher::utf8_error_text(plain)
                    } else {
                        "invalid digit found in string"@
                    }
                    &&& *final(state) == old(state).after_failure()
                    &&& event == TelemetryEvent::PacketMissing(final(state).consecutive_failures)
                    &&& final(m)@ == old(m)@.after_missing()
                    &&& line@ == monitor::missing_line(old(m)@)
                },
            }
        }),
{
    match types::xor_decrypt_from_hex(serialized, ENC_KEY.as_slice()) {
        Ok(p) => Decoded::Plain(p),
        Err(e) => {
            state.consecutive_failures = state.consecutive_failures + 1;
            let line: String = monitor::record_missing_telemetry(m);
            Decoded::Failed(
                e.message(),
                TelemetryEvent::PacketMissing(state.consecutive_failures),
                line,
            )
        },
    }
}

/// The telemetry monitor decrypts what the downlink manager sends.
pub proof fn law_monitor_reads_what_was_sent(serialized: Seq<char>)
    ensures
        ({
            let bytes = encode_utf8(cipher::encrypted(serialized, ENC_KEY@));
            let plain = cipher::xored(cipher::unhexed(bytes), ENC_KEY@);
            &&& cipher::pairs_whole(bytes)
            &&& cipher::all_hex(bytes)
            &&& valid_utf8(plain)
            &&& decode_utf8(plain) == serialized
        }),
{
    assert(ENC_KEY@.len() == 13);
    cipher::law_decryption_inverts_encryption(serialized, ENC_KEY@);
}

/// What comes of a plain text that holds no packet.
pub struct Unparsed {
    pub events: Vec<TelemetryEvent>,
    pub line: String,
}

/// The events of failure number `n` in a row.
pub open spec fn failure_events(n: u64) -> Seq<TelemetryEvent> {
    if n >= FAILURE_LIMIT {
        seq![TelemetryEvent::PacketMissing(n), TelemetryEvent::ContactLost]
    } else {
        seq![TelemetryEvent::PacketMissing(n)]
    }
}

/// Counts a plain text that holds no packet as missing; with the third failure in a row
/// contact is lost.
pub fn telemetry_unparsed(state: &mut TelemetryState, m: &mut MonitoringData) -> (r: Unparsed)
    requires
        old(state).consecutive_failures < u64::MAX,
        old(m)@.consecutive_missing_packets < usize::MAX,
    ensures
        *final(state) == old(state).after_failure(),
        final(m)@ == old(m)@.after_missing(),
        r.events@ == failure_events(final(state).consecutive_failures),
        r.line@ == monitor::missing_line(old(m)@),
{
    state.consecutive_failures = state.consecutive_failures + 1;
    let line: String = monitor::record_missing_telemetry(m);
    let mut events: Vec<TelemetryEvent> = Vec::new();
    events.push(TelemetryEvent::PacketMissing(state.consecutive_failures));
    if state.consecutive_failures >= FAILURE_LIMIT {
        events.push(TelemetryEvent::ContactLost);
    }
    assert(events@ =~= failure_events(state.consecutive_failures));
    Unparsed { events, line }
}

/// What comes of a packet.
pub struct Received {
    pub event: TelemetryEvent,
    pub latency_ms: u64,
    /// Log line about the jitter, from the second packet on.
    pub jitter_line: Option<String>,
    /// Whether decoding took too long.
    pub slow_decode: bool,
}

/// The latency at `now` of something stamped `stamp`.
pub open spec fn latency_at(stamp: Option<Timestamp>, now: Timestamp) -> int {
    match stamp {
        Some(t) => clock::positive_part(clock::millis_between(now, t)),
        None => 0,
    }
}

/// The monitor after a packet with this latency; from the second packet on the drift is
/// kept with the uplink jitters as well as with the latency.
pub open spec fn monitor_after(
    v: MonitorView,
    state: TelemetryState,
    now: Instant,
    latency_ms: u64,
) -> MonitorView {
    if state.last_packet_time is Some {
        let drift = state.drift_at(now) as u128;
        MonitorView {
            jitter_values: v.jitter_values.push(drift),
            ..v
        }.after_reception(latency_ms, Some(drift))
    } else {
        v.after_reception(latency_ms, None)
    }
}

/// Takes in packet `packet_id`, stamped `stamp`, at `now` on the monotonic clock and
/// `now_utc` in civil time; decoding took `decode`.
pub fn telemetry_received(
    state: &mut TelemetryState,
    m: &mut MonitoringData,
    packet_id: u64,
    stamp: Option<Timestamp>,
    now: Instant,
    now_utc: Timestamp,
    decode: Duration,
) -> (r: Received)
    requires
        old(state).wf(),
        now_utc.wf(),
        stamp matches Some(t) ==> t.wf(),
    ensures
        r.latency_ms == latency_at(stamp, now_utc),
        r.event == (TelemetryEvent::PacketReceived {
            packet_id,
            latency_ms: r.latency_ms,
            drift_us: old(state).drift_at(now) as i128,
        }),
        match r.jitter_line {
            Some(line) => old(state).last_packet_time is Some && line@ == timing::stamped_text(
                "⏱️  Uplink jitter recorded: "@ + text::decimal(old(state).drift_at(now) as nat)
                    + " µs"@,
            ),
            None => old(state).last_packet_time is None,
        },
        r.slow_decode == (decode.nanos > DECODE_LIMIT_NANOS),
        r.slow_decode <==> decode.nanos > 3_000_000,
        *final(state) == old(state).after_packet(now),
        final(state).wf(),
        final(m)@ == monitor_after(old(m)@, *old(state), now, r.latency_ms),
{
    state.consecutive_failures = 0;
    let latency_ms: u64 = clock::delay_since(stamp, now_utc);
    let mut drift_us: i128 = 0;
    let mut jitter_line: Option<String> = None;
    match state.last_packet_time {
        Some(last) => {
            let interval_us: i128 = now.duration_since(last).as_micros() as i128;
            drift_us =
            match state.last_interval_us {
                Some(prev) => if interval_us > prev {
                    interval_us - prev
                } else {
                    prev - interval_us
                },
                None => 0,
            };
            state.last_interval_us = Some(interval_us);
            jitter_line = Some(monitor::log_jitter(m, drift_us as u128));
            monitor::record_telemetry_latency_and_jitter(m, latency_ms, Some(drift_us as u128));
        },
        None => {
            monitor::record_telemetry_latency_and_jitter(m, latency_ms, None);
        },
    }
    state.last_packet_time = Some(now);
    Received {
        event: TelemetryEvent::PacketReceived { packet_id, latency_ms, drift_us },
        latency_ms,
        jitter_line,
        slow_decode: decode.nanos > DECODE_LIMIT_NANOS,
    }
}

/// Takes in `packet`, reading its time stamp; a stamp that cannot be read gives no latency.
pub fn telemetry_packet(
    state: &mut TelemetryState,
    m: &mut MonitoringData,
    packet: &WirePacket,
    now: Instant,
    now_utc: Timestamp,
    decode: Duration,
) -> (r: Received)
    requires
        old(state).wf(),
        now_utc.wf(),
    ensures
        r.latency_ms == latency_at(packet.time(), now_utc),
        r.event == (TelemetryEvent::PacketReceived {
            packet_id: packet.id,
            latency_ms: r.latency_ms,
            drift_us: old(state).drift_at(now) as i128,
        }),
        match r.jitter_line {
            Some(line) => old(state).last_packet_time is Some && line@ == timing::stamped_text(
                "⏱️  Uplink jitter recorded: "@ + text::decimal(old(state).drift_at(now) as nat)
                    + " µs"@,
            ),
            None => old(state).last_packet_time is None,
        },
        r.slow_decode == (decode.nanos > DECODE_LIMIT_NANOS),
        r.slow_decode <==> decode.nanos > 3_000_000,
        *final(state) == old(state).after_packet(now),
        final(state).wf(),
        final(m)@ == monitor_after(old(m)@, *old(state), now, r.latency_ms),
{
    let stamp: Option<Timestamp> = clock::parse_rfc3339(packet.timestamp_rfc3339.as_str());
    telemetry_received(state, m, packet.id, stamp, now, now_utc, decode)
}

/// The latency of a packet whose stamp reads back the time at which its sample was
/// generated, as every stamp in a four-digit year does, is measured from that time; it is
/// never negative and grows with the time of reception.
pub proof fn law_latency_measured_from_generation(
    packet: types::DownlinkPacket,
    wire: WirePacket,
    now: Timestamp,
    later: Timestamp,
)
    ensures
        wire.time() == Some(packet.timestamp) ==> {
            &&& latency_at(wire.time(), now) == clock::positive_part(
                clock::millis_between(now, packet.timestamp),
            )
            &&& latency_at(wire.time(), now) >= 0
            &&& now.nanos < 1_000_000_000 && later.nanos < 1_000_000_000
                && packet.timestamp.nanos < 1_000_000_000 && (now.secs < later.secs || (now.secs
                == later.secs && now.nanos <= later.nanos)) ==> latency_at(wire.time(), now)
                <= latency_at(wire.time(), later)
        },
{
}

/// Failures in a row number themselves from one, and from the third on contact is lost; a
/// packet ends the row.
pub proof fn law_third_failure_loses_contact(state: TelemetryState, now: Instant)
    requires
        state.consecutive_failures < u64::MAX,
    ensures
        ({
            let n = state.after_failure().consecutive_failures;
            &&& n == state.consecutive_failures + 1
            &&& failure_events(n).contains(TelemetryEvent::ContactLost) <==> n >= 3
            &&& state.after_packet(now).after_failure().consecutive_failures == 1
        }),
{
    let n = state.after_failure().consecutive_failures;
    if n >= 3 {
        assert(failure_events(n)[1] == TelemetryEvent::ContactLost);
    }
}

/// The number under which the command of a packet is dispatched: the lower 32 bits.
pub fn command_of(packet: &WirePacket) -> (r: u32)
    ensures
        r == packet.id % 0x1_0000_0000,
{
    (packet.id % 0x1_0000_0000) as u32
}

/// Whether a command dispatch of this length was in time.
pub fn is_dispatch_in_time(took: Duration) -> (r: bool)
    ensures
        r == (took.nanos <= DISPATCH_LIMIT_NANOS),
        r <==> took.nanos <= 2_000_000,
{
    took.nanos <= DISPATCH_LIMIT_NANOS
}

/// The log line of a text that cannot be decrypted.
pub fn undecrypted_line(reason: &str, raw: &str) -> (r: String)
    ensures
        r@ == timing::stamped_text(
            "❌ Telemetry decryption failed: "@ + reason@ + " | raw="@ + raw@,
        ),
{
    let mut body: String = text::join3("❌ Telemetry decryption failed: ", reason, " | raw=");
    body.append(raw);
    timing::stamped(body.as_str())
}

/// The log line about the decoding time of a packet.
pub fn decode_line(received: &Received, packet_id: u64, decode: Duration) -> (r: String)
    ensures
        r@ == timing::stamped_text(
            if received.slow_decode {
                "⚠️ Telemetry decode SLOW: "@ + text::decimal(decode.micros()) + "µs for Packet "@
            } else {
                "⏱️ Telemetry decode OK in "@ + text::decimal(decode.micros()) + "µs for Packet "@
            } + text::decimal(packet_id as nat),
        ),
{
    let micros: String = text::number(decode.as_micros());
    let mut body: String = if received.slow_decode {
        text::join3("⚠️ Telemetry decode SLOW: ", micros.as_str(), "µs for Packet ")
    } else {
        text::join3("⏱️ Telemetry decode OK in ", micros.as_str(), "µs for Packet ")
    };
    body.append(text::number(packet_id as u128).as_str());
    timing::stamped(body.as_str())
}

/// The log line of a packet that was taken in.
pub fn parsed_line(packet_id: u64, latency_ms: u64) -> (r: String)
    ensures
        r@ == timing::stamped_text(
            "✅ Telemetry Packet "@ + text::decimal(packet_id as nat) + " parsed | Latency="@
                + text::decimal(latency_ms as nat) + "ms"@,
        ),
{
    let mut body: String = text::join3(
        "✅ Telemetry Packet ",
        text::number(packet_id as u128).as_str(),
        " parsed | Latency=",
    );
    body.append(text::number(latency_ms as u128).as_str());
    body.append("ms");
    timing::stamped(body.as_str())
}

/// The log line about a command dispatch.
pub fn dispatch_line(packet_id: u64, took: Duration) -> (r: String)
    ensures
        r@ == timing::stamped_text(
            if took.nanos <= DISPATCH_LIMIT_NANOS {
                "⏱️  Command dispatched within deadline for Packet "@ + text::decimal(
                    packet_id as nat,
                ) + " ("@ + text::decimal(took.micros()) + "µs)"@
            } else {
                "⚠️  Deadline MISS: Command dispatch took "@ + text::decimal(took.micros())
                    + "µs for Packet "@ + text::decimal(packet_id as nat)
            },
        ),
{
    let id: String = text::number(packet_id as u128);
    let micros: String = text::number(took.as_micros());
    if is_dispatch_in_time(took) {
        let mut body: String = text::join3(
            "⏱️  Command dispatched within deadline for Packet ",
            id.as_str(),
            " (",
        );
        body.append(micros.as_str());
        body.append("µs)");
        timing::stamped(body.as_str())
    } else {
        let mut body: String = text::join3(
            "⚠️  Deadline MISS: Command dispatch took ",
            micros.as_str(),
            "µs for Packet ",
        );
        body.append(id.as_str());
        timing::stamped(body.as_str())
    }
}

/// The log line of a packet whose command is kept back.
pub fn blocked_line(packet_id: u64) -> (r: String)
    ensures
        r@ == timing::stamped_text(
            "❌ Command for Packet "@ + text::decimal(packet_id as nat)
                + " BLOCKED by safety system"@,
        ),
{
    timing::stamped(
        text::join3(
            "❌ Command for Packet ",
            text::number(packet_id as u128).as_str(),
            " BLOCKED by safety system",
        ).as_str(),
    )
}

/// The log line of a plain text that holds no packet.
pub fn unparsed_line(reason: &str, failures: u64, raw: &str) -> (r: String)
    ensures
        r@ == timing::stamped_text(
            "⚠️ Telemetry: failed to parse JSON ("@ + reason@ + "). Failure #"@
                + text::decimal(failures as nat) + ", raw="@ + raw@,
        ),
{
    let mut body: String = text::join3(
        "⚠️ Telemetry: failed to parse JSON (",
        reason,
        "). Failure #",
    );
    body.append(text::number(failures as u128).as_str());
    body.append(", raw=");
    body.append(raw);
    timing::stamped(body.as_str())
}

/// The log line of what follows from failure number `failures` in a row.
pub fn failure_line(failures: u64) -> (r: String)
    ensures
        r@ == timing::stamped_text(
            if failures >= FAILURE_LIMIT {
                "🚨 LOSS OF CONTACT: 3 consecutive packets failed"@
            } else {
                "🔄 Re-requesting telemetry packet (attempt #"@ + text::decimal(failures as nat)
                    + ")"@
            },
        ),
{
    if failures >= FAILURE_LIMIT {
        timing::stamped("🚨 LOSS OF CONTACT: 3 consecutive packets failed")
    } else {
        timing::stamped(
            text::join3(
                "🔄 Re-requesting telemetry packet (attempt #",
                text::number(failures as u128).as_str(),
                ")",
            ).as_str(),
        )
    }
}

/// The drift of a packet is how much its interval differs from the one before, whichever is
/// longer: of three packets in a row the third has the difference of the two intervals, taken
/// without its sign. It is nothing exactly when both are equal, and the same when they are
/// swapped.
pub proof fn law_drift_is_the_change_of_intervals(
    state: TelemetryState,
    t0: Instant,
    t1: Instant,
    t2: Instant,
)
    requires
        state.last_packet_time is None,
        state.last_interval_us is None,
        t0.nanos <= t1.nanos <= t2.nanos,
    ensures
        ({
            let a = (t1.nanos - t0.nanos) / 1000;
            let b = (t2.nanos - t1.nanos) / 1000;
            let first = state.after_packet(t0);
            let second = first.after_packet(t1);
            let d = second.drift_at(t2);
            let swapped = Instant { nanos: (t0.nanos + (t2.nanos - t1.nanos)) as u128 };
            &&& state.drift_at(t0) == 0
            &&& first.drift_at(t1) == 0
            &&& d >= 0
            &&& d == b - a || d == a - b
            &&& d == 0 <==> a == b
            &&& first.after_packet(swapped).drift_at(t2) == d
        }),
{
}

/// From any state with a packet before, the interval is the time since that packet, the drift
/// is its difference to the interval on record, and both go on record; a first packet has
/// neither interval nor drift.
pub proof fn law_intervals_go_on_record(state: TelemetryState, now: Instant)
    ensures
        ({
            let after = state.after_packet(now);
            &&& after.last_packet_time == Some(now)
            &&& after.consecutive_failures == 0
            &&& match state.last_packet_time {
                Some(last) => {
                    let us = if now.nanos >= last.nanos {
                        (now.nanos - last.nanos) / 1000
                    } else {
                        0
                    };
                    &&& after.last_interval_us == Some(us as i128)
                    &&& after.last_interval_us->0 == us
                    &&& match state.last_interval_us {
                        Some(prev) => state.drift_at(now) >= 0 && (state.drift_at(now) == us - prev
                            || state.drift_at(now) == prev - us),
                        None => state.drift_at(now) == 0,
                    }
                },
                None => after.last_interval_us == state.last_interval_us && state.drift_at(now)
                    == 0,
            }
        }),
{
}

/// A failure changes the count of failures by one and nothing else. Its number is told, and
/// from the third in a row on the loss of contact too.
pub proof fn law_failures_are_told(state: TelemetryState)
    requires
        state.consecutive_failures < u64::MAX,
    ensures
        ({
            let after = state.after_failure();
            let n = (state.consecutive_failures + 1) as u64;
            &&& after.consecutive_failures == state.consecutive_failures + 1
            &&& after.last_packet_time == state.last_packet_time
            &&& after.last_interval_us == state.last_interval_us
            &&& failure_events(n)[0] == TelemetryEvent::PacketMissing(n)
            &&& failure_events(n).len() == if state.consecutive_failures >= 2 {
                2nat
            } else {
                1nat
            }
            &&& state.consecutive_failures >= 2 ==> failure_events(n)[1]
                == TelemetryEvent::ContactLost
        }),
{
}

/// The latency of something without a stamp, or with one from the future, is nothing; of
/// anything else it is the whole milliseconds since the stamp.
pub proof fn law_latency(stamp: Option<Timestamp>, now: Timestamp)
    ensures
        match stamp {
            None => latency_at(stamp, now) == 0,
            Some(t) => {
                &&& clock::millis_between(now, t) >= 0 ==> latency_at(stamp, now)
                    == clock::millis_between(now, t)
                &&& clock::millis_between(now, t) < 0 ==> latency_at(stamp, now) == 0
            },
        },
{
}

/// A packet leaves its latency, brings contact back, and from the second packet on leaves its
/// drift twice; nothing else is recorded.
pub proof fn law_packet_leaves_latency_and_drift(
    v: MonitorView,
    state: TelemetryState,
    now: Instant,
    latency_ms: u64,
)
    ensures
        ({
            let w = monitor_after(v, state, now, latency_ms);
            let drift = state.drift_at(now) as u128;
            w == (MonitorView {
                telemetry_latencies_ms: v.telemetry_latencies_ms.push(latency_ms),
                jitter_values: if state.last_packet_time is Some {
                    v.jitter_values.push(drift).push(drift)
                } else {
                    v.jitter_values
                },
                consecutive_missing_packets: 0,
                contact_lost: false,
                ..v
            })
        }),
{
}

} // verus!
