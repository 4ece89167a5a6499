//! The values that sensors, tasks, the downlink and the ground station exchange.

use crate::cipher;
use crate::clock;
use crate::clock::{Duration, Instant, Timestamp};
use std::collections::VecDeque;
use vstd::prelude::*;
use vstd::utf8::*;

verus! {

/// The sending half of a channel; values of it are only carried along.
#[verifier::external_type_specification]
#[verifier::external_body]
#[verifier::reject_recursive_types(T)]
pub struct ExSender<T>(crossbeam_channel::Sender<T>);

/// Shared secret key of the radio link.
pub const ENC_KEY: [u8; 13] = [109, 121, 45, 115, 101, 99, 114, 101, 116, 45, 107, 101, 121];

/// The reading -9999.0 that a sensor gives in place of an invalid value, as the bits of
/// its binary64 form.
pub const INVALID_READING: u64 = 0xC0C3_8780_0000_0000;

/// One sample of a sensor. `value` holds the bits of a binary64 number.
#[derive(Debug)]
pub struct SensorData {
    pub name: String,
    pub value: u64,
    pub generated_at: Timestamp,
    pub queued_at: Timestamp,
    pub priority: u8,
}

impl Clone for SensorData {
    fn clone(&self) -> (r: Self)
        ensures
            r == *self,
    {
        SensorData {
            name: self.name.clone(),
            value: self.value,
            generated_at: self.generated_at,
            queued_at: self.queued_at,
            priority: self.priority,
        }
    }
}

impl SensorData {
    /// Whether both time stamps are points of the calendar.
    pub open spec fn wf(self) -> bool {
        self.generated_at.wf() && self.queued_at.wf()
    }
}

/// How many jitters a tracker keeps.
pub const JITTER_WINDOW: usize = 100;

/// What a jitter tracker holds.
#[verifier::ext_equal]
pub struct JitterView {
    pub expected_interval: Duration,
    pub last_time: Option<Instant>,
    pub jitters: Seq<Duration>,
    pub violations: nat,
}

impl JitterView {
    /// How far a reading at `now` is off the expected interval.
    pub open spec fn jitter_at(self, now: Instant) -> Duration
        recommends
            self.last_time is Some,
    {
        Duration {
            nanos: clock::distance(
                clock::positive_part(now.nanos - self.last_time->0.nanos),
                self.expected_interval.nanos as int,
            ) as u128,
        }
    }

    /// The tracker after a reading at `now`: the first reading only sets the clock; each
    /// later one adds a jitter, the oldest of a full window making room, and counts as a
    /// violation when it is off by more than a millisecond.
    pub open spec fn recorded(self, now: Instant) -> JitterView {
        match self.last_time {
            None => JitterView { last_time: Some(now), ..self },
            Some(_) => JitterView {
                last_time: Some(now),
                jitters: if self.jitters.len() == JITTER_WINDOW {
                    self.jitters.skip(1).push(self.jitter_at(now))
                } else {
                    self.jitters.push(self.jitter_at(now))
                },
                violations: if self.jitter_at(now).nanos > 1_000_000 {
                    self.violations + 1
                } else {
                    self.violations
                },
                ..self
            },
        }
    }

    /// The tracker after readings at all of `times`.
    pub open spec fn after_readings(self, times: Seq<Instant>) -> JitterView
        decreases times.len(),
    {
        if times.len() == 0 {
            self
        } else {
            self.after_readings(times.drop_last()).recorded(times.last())
        }
    }
}

/// How far each step of `times` is off `interval`.
pub open spec fn step_jitters(times: Seq<Instant>, interval: Duration) -> Seq<Duration> {
    Seq::new(
        (times.len() - 1) as nat,
        |i: int|
            Duration {
                nanos: clock::distance(
                    clock::positive_part(times[i + 1].nanos - times[i].nanos),
                    interval.nanos as int,
                ) as u128,
            },
    )
}

/// How many of `jitters` are longer than a millisecond.
pub open spec fn violations_in(jitters: Seq<Duration>) -> nat
    decreases jitters.len(),
{
    if jitters.len() == 0 {
        0
    } else if jitters.last().nanos > 1_000_000 {
        violations_in(jitters.drop_last()) + 1
    } else {
        violations_in(jitters.drop_last())
    }
}

/// A new tracker holds the jitters of the last hundred steps, all of them while there are
/// not more, and has counted every step that was off by more than a millisecond.
pub proof fn law_tracker_holds_latest_jitters(v: JitterView, times: Seq<Instant>)
    requires
        v.last_time is None,
        v.jitters.len() == 0,
        v.violations == 0,
        times.len() > 0,
    ensures
        ({
            let all = step_jitters(times, v.expected_interval);
            let after = v.after_readings(times);
            &&& after.expected_interval == v.expected_interval
            &&& after.last_time == Some(times.last())
            &&& after.violations == violations_in(all)
            &&& after.jitters == if all.len() > JITTER_WINDOW {
                all.skip(all.len() - JITTER_WINDOW)
            } else {
                all
            }
        }),
    decreases times.len(),
{
    let before = times.drop_last();
    let all = step_jitters(times, v.expected_interval);
    if times.len() == 1 {
        assert(v.after_readings(before) == v);
        assert(all.len() == 0);
        assert(v.jitters =~= all);
    } else {
        law_tracker_holds_latest_jitters(v, before);
        let seen = step_jitters(before, v.expected_interval);
        let state = v.after_readings(before);
        let step = state.jitter_at(times.last());
        assert(before.last() == times[times.len() - 2]);
        assert(all =~= seen.push(step));
        assert(all.drop_last() =~= seen);
        if all.len() > JITTER_WINDOW {
            assert(state.jitters.skip(1).push(step) =~= all.skip(all.len() - JITTER_WINDOW));
        }
    }
}

/// Watches how evenly something happens at a fixed interval.
#[derive(Debug)]
pub struct JitterTracker {
    pub expected_interval: Duration,
    pub last_time: Option<Instant>,
    pub jitters: VecDeque<Duration>,
    pub violations: u32,
}

impl View for JitterTracker {
    type V = JitterView;

    open spec fn view(&self) -> JitterView {
        JitterView {
            expected_interval: self.expected_interval,
            last_time: self.last_time,
            jitters: self.jitters@,
            violations: self.violations as nat,
        }
    }
}

impl JitterTracker {
    pub fn new(expected_interval: Duration) -> (r: Self)
        ensures
            r@ == (JitterView {
                expected_interval,
                last_time: None,
                jitters: Seq::empty(),
                violations: 0,
            }),
    {
        JitterTracker {
            expected_interval,
            last_time: None,
            jitters: VecDeque::with_capacity(JITTER_WINDOW),
            violations: 0,
        }
    }

    /// Records a reading of the clock.
    pub fn record(&mut self, now: Instant)
        requires
            old(self)@.recorded(now).violations <= u32::MAX,
        ensures
            final(self)@ == old(self)@.recorded(now),
            old(self)@.jitters.len() <= JITTER_WINDOW ==> final(self)@.jitters.len()
                <= JITTER_WINDOW,
    {
        if let Some(last) = self.last_time {
            let elapsed: Duration = now.duration_since(last);
            let jitter: Duration = elapsed.abs_diff(self.expected_interval);
            assert(jitter == old(self)@.jitter_at(now));
            if jitter.nanos > 1_000_000 {
                self.violations += 1;
            }
            if self.jitters.len() == JITTER_WINDOW {
                let _oldest: Option<Duration> = self.jitters.pop_front();
                assert(self.jitters@ =~= old(self)@.jitters.skip(1));
            }
            self.jitters.push_back(jitter);
        }
        self.last_time = Some(now);
    }
}

/// A periodic job of the system scheduler. A lower `priority` number runs first.
#[derive(Debug)]
pub struct SystemTask {
    pub name: String,
    pub period: Duration,
    pub execution_time: Duration,
    pub priority: u8,
    pub next_release: Instant,
    pub deadline: Instant,
}

impl Clone for SystemTask {
    fn clone(&self) -> (r: Self)
        ensures
            r == *self,
    {
        SystemTask {
            name: self.name.clone(),
            period: self.period,
            execution_time: self.execution_time,
            priority: self.priority,
            next_release: self.next_release,
            deadline: self.deadline,
        }
    }
}

/// Jobs are the same when they bear the same name.
impl PartialEq for SystemTask {
    fn eq(&self, other: &Self) -> (r: bool) {
        self.name == other.name
    }
}

impl vstd::std_specs::cmp::PartialEqSpecImpl for SystemTask {
    open spec fn obeys_eq_spec() -> bool {
        true
    }

    open spec fn eq_spec(&self, other: &Self) -> bool {
        self.name@ == other.name@
    }
}

impl Eq for SystemTask {

}

/// The job with the lower priority number is the greater one.
impl PartialOrd for SystemTask {
    fn partial_cmp(&self, other: &Self) -> (r: Option<std::cmp::Ordering>) {
        if other.priority < self.priority {
            Some(std::cmp::Ordering::Less)
        } else if other.priority == self.priority {
            Some(std::cmp::Ordering::Equal)
        } else {
            Some(std::cmp::Ordering::Greater)
        }
    }
}

impl vstd::std_specs::cmp::PartialOrdSpecImpl for SystemTask {
    open spec fn obeys_partial_cmp_spec() -> bool {
        true
    }

    open spec fn partial_cmp_spec(&self, other: &Self) -> Option<std::cmp::Ordering> {
        if other.priority < self.priority {
            Some(std::cmp::Ordering::Less)
        } else if other.priority == self.priority {
            Some(std::cmp::Ordering::Equal)
        } else {
            Some(std::cmp::Ordering::Greater)
        }
    }
}

/// A sample on its way to the ground station.
#[derive(Debug, Clone)]
pub struct DownlinkPacket {
    pub id: u64,
    pub sensor_name: String,
    pub compressed_value: String,
    pub timestamp: Timestamp,
    pub priority: u8,
    pub response_tx: Option<crossbeam_channel::Sender<String>>,
    pub queued_at: Instant,
    pub window_start_at: Timestamp,
}

/// What is actually sent over the link: no channels and no clock readings.
#[derive(Debug)]
pub struct WirePacket {
    pub id: u64,
    pub sensor_name: String,
    pub compressed_value: String,
    pub timestamp_rfc3339: String,
    pub priority: u8,
}

impl WirePacket {
    /// Whether this is `packet`, its time written as `stamp`.
    pub open spec fn carries(&self, packet: &DownlinkPacket, stamp: Seq<char>) -> bool {
        &&& self.id == packet.id
        &&& self.sensor_name == packet.sensor_name
        &&& self.compressed_value == packet.compressed_value
        &&& self.timestamp_rfc3339@ == stamp
        &&& self.priority == packet.priority
    }

    /// The point of time that the stamp names.
    pub open spec fn time(&self) -> Option<Timestamp> {
        match clock::rfc3339_time(self.timestamp_rfc3339@) {
            Some((secs, nanos)) => Some(Timestamp { secs, nanos }),
            None => None,
        }
    }

    /// `packet` in the form it is sent, its time already written as `stamp`.
    pub fn with_stamp(packet: &DownlinkPacket, stamp: String) -> (r: WirePacket)
        ensures
            r.carries(packet, stamp@),
    {
        WirePacket {
            id: packet.id,
            sensor_name: packet.sensor_name.clone(),
            compressed_value: packet.compressed_value.clone(),
            timestamp_rfc3339: stamp,
            priority: packet.priority,
        }
    }

    /// `packet` in the form it is sent, its time written as RFC 3339. A four-digit year
    /// can be read back from it.
    pub fn from_packet(packet: &DownlinkPacket) -> (r: WirePacket)
        requires
            packet.timestamp.wf(),
        ensures
            r.carries(
                packet,
                clock::rfc3339_text(packet.timestamp.secs, packet.timestamp.nanos),
            ),
            packet.timestamp.four_digit_year() ==> r.time() == Some(packet.timestamp),
    {
        WirePacket::with_stamp(packet, clock::format_rfc3339(packet.timestamp))
    }
}

/// Why `xor_decrypt_from_hex` fails.
#[derive(Debug)]
pub enum DecryptError {
    EmptyKey,
    /// A pair of characters is not hexadecimal.
    InvalidDigit,
    /// The decrypted bytes are not UTF-8; the words say where.
    InvalidUtf8(String),
}

impl DecryptError {
    /// The words for this error.
    pub fn message(&self) -> (r: String)
        ensures
            r@ == match *self {
                DecryptError::EmptyKey => "empty key"@,
                DecryptError::InvalidDigit => "invalid digit found in string"@,
                DecryptError::InvalidUtf8(words) => words@,
            },
    {
        match self {
            DecryptError::EmptyKey => "empty key".to_string(),
            DecryptError::InvalidDigit => "invalid digit found in string".to_string(),
            DecryptError::InvalidUtf8(words) => words.clone(),
        }
    }
}

/// XOR-encrypts a plain text into hexadecimal; gives nothing without a key.
pub fn xor_encrypt_to_hex(plain: &str, key: &[u8]) -> (r: String)
    ensures
        r@ == cipher::encrypted(plain@, key@),
        r@.len() == if key@.len() == 0 {
            0
        } else {
            2 * encode_utf8(plain@).len()
        },
        forall|i: int|
            key@.len() > 0 && 0 <= i < encode_utf8(plain@).len() ==> 16 * cipher::worth(
                #[trigger] r@[2 * i] as int,
            ) + cipher::worth(r@[2 * i + 1] as int) == encode_utf8(plain@)[i] ^ key@[i
                % key@.len() as int],
{
    proof {
        cipher::law_every_byte_is_encrypted(plain@, key@, 0);
    }
    cipher::encrypt(plain, key)
}

/// XOR-decrypts a hexadecimal text back to plain text. The text is taken in pairs of
/// bytes, so it must not end in half a pair or have a pair end inside a character.
pub fn xor_decrypt_from_hex(cipher_hex: &str, key: &[u8]) -> (r: Result<String, DecryptError>)
    requires
        key@.len() > 0 ==> cipher::pairs_whole(encode_utf8(cipher_hex@)),
    ensures
        ({
            let bytes = encode_utf8(cipher_hex@);
            let plain = cipher::xored(cipher::unhexed(bytes), key@);
            match r {
                Ok(s) => key@.len() > 0 && cipher::all_hex(bytes) && valid_utf8(plain) && s@
                    == decode_utf8(plain),
                Err(DecryptError::EmptyKey) => key@.len() == 0,
                Err(DecryptError::InvalidDigit) => key@.len() > 0 && !cipher::all_hex(bytes),
                Err(DecryptError::InvalidUtf8(words)) => key@.len() > 0 && cipher::all_hex(bytes)
                    && !valid_utf8(plain) && words@ == cipher::utf8_error_text(plain),
            }
        }),
        ({
            let bytes = encode_utf8(cipher_hex@);
            r matches Ok(s) ==> encode_utf8(s@) == Seq::new(
                bytes.len() / 2,
                |k: int|
                    (cipher::pair_worth(bytes[2 * k] as int, bytes[2 * k + 1] as int) as u8)
                        ^ key@[k % key@.len() as int],
            )
        }),
{
    proof {
        let bytes = encode_utf8(cipher_hex@);
        if key@.len() > 0 && cipher::all_hex(bytes) {
            let got = cipher::xored(cipher::unhexed(bytes), key@);
            let plain = Seq::new(
                bytes.len() / 2,
                |k: int|
                    (cipher::pair_worth(bytes[2 * k] as int, bytes[2 * k + 1] as int) as u8)
                        ^ key@[k % key@.len() as int],
            );
            assert forall|k: int| 0 <= k < bytes.len() / 2 implies got[k] == plain[k] by {
                cipher::law_every_pair_is_decrypted(bytes, key@, k);
            }
            cipher::law_every_pair_is_decrypted(bytes, key@, 0);
            assert(got =~= plain);
            if valid_utf8(got) {
                decode_utf8_encode_utf8(got);
            }
        }
    }
    if key.len() == 0 {
        return Err(DecryptError::EmptyKey);
    }
    match cipher::decrypt(cipher_hex, key) {
        Ok(s) => Ok(s),
        Err(cipher::CipherFault::NotHex(_)) => Err(DecryptError::InvalidDigit),
        Err(cipher::CipherFault::NotUtf8(words)) => Err(DecryptError::InvalidUtf8(words)),
    }
}

/// A reading after another leaves by how much the time between them is off the expected interval,
/// as the latest of at most a hundred jitters of which the oldest makes room, and counts as a
/// violation exactly when that is more than a millisecond. The first reading leaves none.
pub proof fn law_reading_leaves_its_jitter(v: JitterView, last: Instant, now: Instant)
    requires
        v.last_time == Some(last),
        last.nanos <= now.nanos,
    ensures
        ({
            let w = v.recorded(now);
            let step = now.nanos - last.nanos;
            let jitter = w.jitters.last();
            let kept = w.jitters.drop_last();
            &&& w.last_time == Some(now)
            &&& w.expected_interval == v.expected_interval
            &&& w.jitters.len() > 0
            &&& step >= v.expected_interval.nanos ==> jitter.nanos == step
                - v.expected_interval.nanos
            &&& step < v.expected_interval.nanos ==> jitter.nanos == v.expected_interval.nanos
                - step
            &&& v.jitters.len() != 100 ==> kept == v.jitters
            &&& v.jitters.len() == 100 ==> seq![v.jitters[0]] + kept == v.jitters
            &&& w.violations - v.violations == if jitter.nanos > 1_000_000 {
                1int
            } else {
                0int
            }
        }),
        (JitterView { last_time: None, ..v }).recorded(now) == (JitterView {
            last_time: Some(now),
            ..v
        }),
{
    let w = v.recorded(now);
    if v.jitters.len() == 100 {
        assert(w.jitters.drop_last() =~= v.jitters.skip(1));
    } else {
        assert(w.jitters.drop_last() =~= v.jitters);
    }
}

/// One more jitter is one more violation exactly when it is longer than a millisecond.
pub proof fn law_violations_are_counted(jitters: Seq<Duration>, jitter: Duration)
    ensures
        violations_in(Seq::<Duration>::empty()) == 0,
        jitter.nanos > 1_000_000 ==> violations_in(jitters.push(jitter)) == violations_in(jitters)
            + 1,
        jitter.nanos <= 1_000_000 ==> violations_in(jitters.push(jitter)) == violations_in(
            jitters,
        ),
{
    assert(jitters.push(jitter).drop_last() =~= jitters);
}

/// The tracker is seen with its own readings.
pub proof fn law_tracker_is_seen_whole(t: JitterTracker)
    ensures
        t@.expected_interval == t.expected_interval,
        t@.last_time == t.last_time,
        t@.jitters == t.jitters@,
        t@.violations == t.violations,
{
}

/// A job is the same as another exactly when they bear the same name, and the greater one exactly
/// when its priority number is lower, whatever the names.
pub proof fn law_jobs_are_ordered_by_priority(a: SystemTask, b: SystemTask)
    ensures
        vstd::std_specs::cmp::PartialEqSpec::eq_spec(&a, &b) <==> a.name@ == b.name@,
        vstd::std_specs::cmp::PartialOrdSpec::partial_cmp_spec(&a, &b) == Some(
            std::cmp::Ordering::Greater,
        ) <==> a.priority < b.priority,
        vstd::std_specs::cmp::PartialOrdSpec::partial_cmp_spec(&a, &b) == Some(
            std::cmp::Ordering::Equal,
        ) <==> a.priority == b.priority,
        vstd::std_specs::cmp::PartialOrdSpec::partial_cmp_spec(&a, &b) == Some(
            std::cmp::Ordering::Less,
        ) <==> a.priority > b.priority,
{
}

/// What is sent carries every field that the packet has for the ground, whatever the number.
pub proof fn law_sent_form_keeps_the_fields(
    sent: &WirePacket,
    packet: &DownlinkPacket,
    stamp: Seq<char>,
)
    ensures
        sent.carries(packet, stamp) <==> {
            &&& sent.id == packet.id
            &&& sent.priority == packet.priority
            &&& sent.sensor_name == packet.sensor_name
            &&& sent.compressed_value == packet.compressed_value
            &&& sent.timestamp_rfc3339@ == stamp
        },
        match clock::rfc3339_time(sent.timestamp_rfc3339@) {
            Some((secs, nanos)) => sent.time() == Some((Timestamp { secs, nanos })),
            None => sent.time() is None,
        },
{
}

} // verus!
