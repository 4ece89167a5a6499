//! The command scheduler, the downlink manager and the ground station.

use crate::cipher;
use crate::clock;
use crate::clock::{Duration, Instant, Timestamp};
use crate::fault;
use crate::fault::FaultRegistry;
use crate::json;
use crate::json::StampField;
use crate::monitor;
use crate::monitor::{CpuUsage, MonitorView, MonitoringData};
use crate::stats;
use crate::summary::SummaryView;
use crate::text;
use crate::timing;
use crate::types;
use crate::types::{DownlinkPacket, SensorData, WirePacket, ENC_KEY};
use std::collections::VecDeque;
use vstd::prelude::*;
use vstd::utf8::*;

verus! {

/// The priority of a command, one being the highest.
pub open spec fn command_priority(command_id: u32) -> u8 {
    if command_id == 1 {
        1
    } else if command_id == 2 {
        2
    } else if command_id == 3 {
        3
    } else {
        5
    }
}

/// The priority of a command, one being the highest.
pub fn get_priority(command_id: u32) -> (r: u8)
    ensures
        r == command_priority(command_id),
{
    match command_id {
        1 => 1,
        2 => 2,
        3 => 3,
        _ => 5,
    }
}

/// The byte at which the first pair of `bytes` starts that is not hexadecimal.
pub open spec fn first_bad_pair(bytes: Seq<u8>) -> nat {
    (2 * (choose|k: int|
        0 <= 2 * k < bytes.len() && cipher::pairs_decode(bytes, k) && (#[trigger] cipher::pair_at(
            bytes,
            k,
        )) is None)) as nat
}

/// What decrypting `hex` with `key` gives: the plain text, or the words of the error.
pub open spec fn decryption(hex: Seq<char>, key: Seq<u8>) -> Result<Seq<char>, Seq<char>> {
    let bytes = encode_utf8(text::trimmed(hex));
    let plain = cipher::xored(cipher::unhexed(bytes), key);
    if key.len() == 0 {
        Err("empty key"@)
    } else if bytes.len() % 2 != 0 {
        Err("hex length must be even"@)
    } else if !cipher::all_hex(bytes) {
        Err(
            "hex parse error at "@ + text::decimal(first_bad_pair(bytes))
                + ": invalid digit found in string"@,
        )
    } else if valid_utf8(plain) {
        Ok(decode_utf8(plain))
    } else {
        Err("utf8 error: "@ + cipher::utf8_error_text(plain))
    }
}

/// Whether `hex`, trimmed, either has odd length or never has a pair of bytes end inside a
/// character before the first pair that is not hexadecimal.
pub open spec fn decryptable(hex: Seq<char>) -> bool {
    let bytes = encode_utf8(text::trimmed(hex));
    bytes.len() % 2 != 0 || cipher::pairs_whole(bytes)
}

/// The characters of a result.
pub open spec fn result_text(r: Result<String, String>) -> Result<Seq<char>, Seq<char>> {
    match r {
        Ok(s) => Ok(s@),
        Err(e) => Err(e@),
    }
}

/// Whether `hex` can be decrypted or refused without cutting a character.
pub fn is_decryptable(hex: &str) -> (r: bool)
    ensures
        r == decryptable(hex@),
{
    let s: &str = text::trim(hex);
    s.as_bytes().len() % 2 != 0 || cipher::is_pairwise(s)
}

/// Decodes a hexadecimal text and decrypts it with the repeated key; white space around it
/// does not count.
pub fn xor_decrypt_from_hex(hex: &str, key: &[u8]) -> (r: Result<String, String>)
    requires
        key@.len() > 0 ==> decryptable(hex@),
    ensures
        result_text(r) == decryption(hex@, key@),
{
    if key.len() == 0 {
        return Err("empty key".to_string());
    }
    let s: &str = text::trim(hex);
    if s.as_bytes().len() % 2 != 0 {
        return Err("hex length must be even".to_string());
    }
    match cipher::decrypt(s, key) {
        Ok(plain) => Ok(plain),
        Err(cipher::CipherFault::NotHex(at)) => {
            proof {
                let bytes = encode_utf8(s@);
                let k = at as int / 2;
                assert(2 * k == at);
                let c = choose|j: int|
                    0 <= 2 * j < bytes.len() && cipher::pairs_decode(bytes, j) && (
                    #[trigger] cipher::pair_at(bytes, j)) is None;
                assert(0 <= 2 * c < bytes.len() && cipher::pairs_decode(bytes, c)
                    && cipher::pair_at(bytes, c) is None);
                assert(c == k) by {
                    if c < k {
                        assert(cipher::pair_at(bytes, c) is Some);
                    } else if k < c {
                        assert(cipher::pair_at(bytes, k) is Some);
                    }
                }
                assert(!cipher::all_hex(bytes)) by {
                    assert(cipher::pair_at(bytes, k) is None);
                }
            }
            Err(
                text::join3(
                    "hex parse error at ",
                    text::number(at as u128).as_str(),
                    ": invalid digit found in string",
                ),
            )
        },
        Err(cipher::CipherFault::NotUtf8(words)) => Err(
            text::join("utf8 error: ", words.as_str()),
        ),
    }
}

/// What was encrypted with a key, the same key decrypts.
pub proof fn law_decryption_gives_plain_text_back(plain: Seq<char>, key: Seq<u8>)
    requires
        key.len() > 0,
    ensures
        decryptable(cipher::encrypted(plain, key)),
        decryption(cipher::encrypted(plain, key), key) == Ok::<Seq<char>, Seq<char>>(plain),
{
    cipher::law_decryption_inverts_encryption(plain, key);
}

/// The log line that the command scheduler starts with.
pub fn init_command_scheduler() -> (line: String)
    ensures
        line@ == "📡 Command Scheduler Initialized (Rate Monotonic Scheduling)"@,
{
    "📡 Command Scheduler Initialized (Rate Monotonic Scheduling)".to_string()
}

/// Commands taken, their execution times, and the processor time they took together.
pub struct CommandScheduler {
    pub queue: VecDeque<u32>,
    pub stats: Vec<u128>,
    pub cpu_active_micros: u128,
}

/// What the command scheduler holds.
#[verifier::ext_equal]
pub struct SchedulerView {
    pub queue: Seq<u32>,
    pub stats: Seq<u128>,
    pub cpu_active_micros: u128,
}

impl SchedulerView {
    /// The active time is the sum of the execution times.
    pub open spec fn consistent(self) -> bool {
        self.cpu_active_micros == stats::total(stats::ints(self.stats))
    }
}

impl View for CommandScheduler {
    type V = SchedulerView;

    open spec fn view(&self) -> SchedulerView {
        SchedulerView {
            queue: self.queue@,
            stats: self.stats@,
            cpu_active_micros: self.cpu_active_micros,
        }
    }
}

impl CommandScheduler {
    pub fn new() -> (r: Self)
        ensures
            r@ == (SchedulerView {
                queue: Seq::empty(),
                stats: Seq::empty(),
                cpu_active_micros: 0,
            }),
            r@.consistent(),
    {
        CommandScheduler { queue: VecDeque::new(), stats: Vec::new(), cpu_active_micros: 0 }
    }
}

/// A command under way.
#[derive(Clone, Copy, Debug, PartialEq, Eq, Structural)]
pub struct CommandRun {
    pub packet_id: u32,
    /// Whether it goes before every lower priority.
    pub critical: bool,
    /// How long its execution takes, in microseconds.
    pub exec_micros: u64,
    pub start: Instant,
    pub deadline: Instant,
}

/// How long a command executes, in microseconds.
pub open spec fn command_exec_micros(command_id: u32) -> u64 {
    if command_priority(command_id) == 1 {
        1000
    } else if command_priority(command_id) == 2 {
        1300
    } else if command_priority(command_id) == 3 {
        1500
    } else {
        1800
    }
}

/// How long a command has until its deadline, in nanoseconds.
pub const COMMAND_DEADLINE_NANOS: u128 = 2_000_000;

/// Takes a command at `now`, unless a fault keeps it back; its execution starts at `start`.
pub fn trigger_command_scheduler(
    s: &mut CommandScheduler,
    faults: &FaultRegistry,
    packet_id: u32,
    now: Instant,
    start: Instant,
) -> (r: Option<CommandRun>)
    requires
        now.nanos + COMMAND_DEADLINE_NANOS <= u128::MAX,
    ensures
        match r {
            Some(run) => {
                &&& faults@.safe(packet_id)
                &&& run.packet_id == packet_id
                &&& run.critical == (command_priority(packet_id) == 1)
                &&& run.exec_micros == command_exec_micros(packet_id)
                &&& run.start == start
                &&& run.deadline.nanos == now.nanos + COMMAND_DEADLINE_NANOS
                &&& run.deadline.nanos - now.nanos == 2_000_000
                &&& final(s)@ == (SchedulerView {
                    queue: old(s)@.queue.push(packet_id),
                    ..old(s)@
                })
            },
            None => !faults@.safe(packet_id) && final(s)@ == old(s)@,
        },
        old(s)@.consistent() ==> final(s)@.consistent(),
{
    if !fault::is_command_safe(faults, packet_id) {
        return None;
    }
    let priority: u8 = get_priority(packet_id);
    let deadline: Instant = now.plus(Duration { nanos: COMMAND_DEADLINE_NANOS });
    s.queue.push_back(packet_id);
    let exec_micros: u64 = match priority {
        1 => 1000,
        2 => 1300,
        3 => 1500,
        _ => 1800,
    };
    Some(CommandRun { packet_id, critical: priority == 1, exec_micros, start, deadline })
}

/// Statistics over all execution times, given with every tenth command.
#[derive(Clone, Copy, Debug, PartialEq, Eq, Structural)]
pub struct BatchStats {
    /// Number of the first and the last command of the batch that is complete.
    pub first: usize,
    pub last: usize,
    pub min_us: u128,
    pub max_us: u128,
    pub avg_us: u128,
}

/// How a command went.
#[derive(Clone, Copy, Debug, PartialEq, Eq, Structural)]
pub struct CommandOutcome {
    pub elapsed_us: u128,
    pub batch: Option<BatchStats>,
    /// How long after its deadline it ended, in microseconds, if it ended after it.
    pub late_us: Option<u128>,
}

/// Whether `b` holds the statistics of the execution times `s`.
pub open spec fn batch_of(s: Seq<u128>, b: BatchStats) -> bool {
    &&& b.first == s.len() - 9
    &&& b.last == s.len()
    &&& stats::is_least(stats::ints(s), b.min_us as int)
    &&& stats::is_greatest(stats::ints(s), b.max_us as int)
    &&& b.avg_us == stats::total(stats::ints(s)) / s.len() as int
}

/// The execution time in microseconds of a command that started at `start` and ended at
/// `now`.
pub open spec fn elapsed_us(start: Instant, now: Instant) -> int {
    clock::positive_part(now.nanos - start.nanos) / 1000
}

/// Ends a command at `now`: its time is kept and counted as active, and the monitor is told
/// the new sum.
pub fn finish_command(
    s: &mut CommandScheduler,
    m: &mut MonitoringData,
    run: CommandRun,
    now: Instant,
) -> (r: CommandOutcome)
    requires
        old(s)@.cpu_active_micros + elapsed_us(run.start, now) <= u128::MAX,
        (old(s)@.stats.len() + 1) % 10 == 0 ==> stats::total(
            stats::ints(old(s)@.stats.push(elapsed_us(run.start, now) as u128)),
        ) <= u128::MAX,
    ensures
        r.elapsed_us == elapsed_us(run.start, now),
        final(s)@ == (SchedulerView {
            stats: old(s)@.stats.push(r.elapsed_us),
            cpu_active_micros: (old(s)@.cpu_active_micros + r.elapsed_us) as u128,
            ..old(s)@
        }),
        final(m)@ == (MonitorView {
            cpu_active_micros: final(s)@.cpu_active_micros,
            ..old(m)@
        }),
        match r.batch {
            Some(b) => final(s)@.stats.len() % 10 == 0 && batch_of(final(s)@.stats, b),
            None => final(s)@.stats.len() % 10 != 0,
        },
        match r.late_us {
            Some(late) => now.nanos > run.deadline.nanos && late == elapsed_us(run.deadline, now),
            None => now.nanos <= run.deadline.nanos,
        },
        old(s)@.consistent() ==> final(s)@.consistent(),
{
    let elapsed_us: u128 = now.duration_since(run.start).as_micros();
    s.cpu_active_micros = s.cpu_active_micros + elapsed_us;
    monitor::update_cpu_active_time(m, s.cpu_active_micros);
    s.stats.push(elapsed_us);
    proof {
        let times = stats::ints(s@.stats);
        assert(times.drop_last() =~= stats::ints(old(s)@.stats));
        assert(times.last() == elapsed_us);
    }
    let n: usize = s.stats.len();
    let batch: Option<BatchStats> = if n % 10 == 0 {
        match stats::sample_range(&s.stats) {
            Some((min_us, max_us)) => {
                let avg_us: u128 = stats::sum_samples(&s.stats) / n as u128;
                let tens: usize = n / 10;
                Some(
                    BatchStats {
                        first: (tens - 1) * 10 + 1,
                        last: tens * 10,
                        min_us,
                        max_us,
                        avg_us,
                    },
                )
            },
            None => None,
        }
    } else {
        None
    };
    let late_us: Option<u128> = if now.nanos <= run.deadline.nanos {
        None
    } else {
        Some(now.duration_since(run.deadline).as_micros())
    };
    CommandOutcome { elapsed_us, batch, late_us }
}

/// The share of `sim_duration` that commands kept the processor active.
pub fn report_cpu_utilization(s: &CommandScheduler, sim_duration: Duration) -> (r: CpuUsage)
    ensures
        r.active_micros == s@.cpu_active_micros,
        r.total_micros == monitor::at_least_one(sim_duration.micros() as int),
{
    monitor::cpu_usage(s.cpu_active_micros, sim_duration)
}

/// The processor time that commands took, in microseconds.
pub fn get_cpu_active_micros(s: &CommandScheduler) -> (r: u128)
    ensures
        r == s@.cpu_active_micros,
{
    s.cpu_active_micros
}

/// Whether `len` packets fill more than four fifths of a buffer for `max`.
pub open spec fn over_four_fifths(len: nat, max: nat) -> bool {
    5 * len > 4 * max
}

/// The distance between neighbouring binary32 numbers at the integer `n`.
pub open spec fn binary32_unit(n: nat) -> nat
    decreases n,
{
    if n < 0x100_0000 {
        1
    } else {
        2 * binary32_unit(n / 2)
    }
}

/// The binary32 number nearest to the integer `n`; of two as near, the even one. Integers
/// below 2^24 are such numbers themselves.
pub open spec fn binary32_of(n: nat) -> nat {
    let unit = binary32_unit(n);
    let below = n / unit;
    let rest = n % unit;
    if n < 0x100_0000 {
        n
    } else if 2 * rest < unit || (2 * rest == unit && below % 2 == 0) {
        below * unit
    } else {
        (below + 1) * unit
    }
}

/// Whether the binary32 quotient of `len` by `max` lies above the binary32 number 0.8.
///
/// That number is 13421773 / 2^24, and the next one above it 13421774 / 2^24. A quotient is
/// rounded to the latter or beyond exactly when it reaches the middle between the two,
/// 26843547 / 2^25; the middle itself goes to the even neighbour, which is the upper one.
/// Something divided by nothing is above every number, nothing divided by nothing is not.
pub open spec fn ratio_above_limit(len: nat, max: nat) -> bool {
    len > 0 && 33554432 * binary32_of(len) >= 26843547 * binary32_of(max)
}

proof fn lemma_binary32_unit(n: nat)
    ensures
        binary32_unit(n) >= 1,
        n > 0 ==> binary32_unit(n) <= n,
        n >= 0x100_0000 ==> n / binary32_unit(n) >= 0x80_0000,
    decreases n,
{
    if n >= 0x100_0000 {
        let half = n / 2;
        let unit = binary32_unit(half);
        lemma_binary32_unit(half);
        vstd::arithmetic::div_mod::lemma_div_denominator(n as int, 2, unit as int);
        if half < 0x100_0000 {
            assert(unit == 1);
            assert(half / 1 == half);
        }
    }
}

/// A buffer for not more than 4194304 packets is degraded exactly when it is filled above
/// four fifths.
pub proof fn law_degraded_above_four_fifths(len: nat, max: nat)
    requires
        max <= 4194304,
    ensures
        ratio_above_limit(len, max) <==> over_four_fifths(len, max),
        ratio_above_limit(len, max) <==> 5 * len > 4 * max,
{
    if len >= 0x100_0000 {
        let unit = binary32_unit(len);
        let below = len / unit;
        lemma_binary32_unit(len);
        assert(below * unit >= below) by (nonlinear_arith)
            requires
                unit >= 1,
                below >= 0,
        ;
        assert((below + 1) * unit >= below) by (nonlinear_arith)
            requires
                unit >= 1,
                below >= 0,
        ;
    }
}

/// The binary32 number nearest to `n`.
fn to_binary32(n: usize) -> (r: u128)
    ensures
        r == binary32_of(n as nat),
        r <= 2 * n + 2,
{
    let n: u128 = n as u128;
    if n < 0x100_0000 {
        return n;
    }
    let mut unit: u128 = 1;
    let mut rest: u128 = n;
    assert(1 * binary32_unit(n as nat) == binary32_unit(n as nat));
    while rest >= 0x100_0000
        invariant
            n <= usize::MAX,
            rest <= n,
            1 <= unit,
            unit * rest <= n,
            unit * binary32_unit(rest as nat) == binary32_unit(n as nat),
        decreases rest,
    {
        proof {
            let next = binary32_unit((rest / 2) as nat);
            assert(2 * unit * (rest / 2) <= unit * rest) by (nonlinear_arith)
                requires
                    unit >= 1,
                    rest >= 2,
            ;
            assert(2 * unit <= unit * rest) by (nonlinear_arith)
                requires
                    unit >= 1,
                    rest >= 2,
            ;
            assert(unit * (2 * next) == (2 * unit) * next) by (nonlinear_arith);
        }
        rest = rest / 2;
        unit = 2 * unit;
    }
    assert(unit * 1 == unit);
    let below: u128 = n / unit;
    proof {
        lemma_binary32_unit(n as nat);
        vstd::arithmetic::div_mod::lemma_fundamental_div_mod(n as int, unit as int);
        assert(below * unit <= n) by (nonlinear_arith)
            requires
                n == unit * below + n % unit,
                n % unit >= 0,
        ;
        assert((below + 1) * unit == below * unit + unit) by (nonlinear_arith);
        assert(below <= n) by (nonlinear_arith)
            requires
                below * unit <= n,
                unit >= 1,
                below >= 0,
        ;
    }
    let over: u128 = n % unit;
    if 2 * over < unit || (2 * over == unit && below % 2 == 0) {
        below * unit
    } else {
        (below + 1) * unit
    }
}

/// Whether a buffer for `max` packets that holds `len` is nearly full.
pub fn is_degraded(len: usize, max: usize) -> (r: bool)
    ensures
        r == ratio_above_limit(len as nat, max as nat),
{
    len > 0 && 33554432 * to_binary32(len) >= 26843547 * to_binary32(max)
}

/// Preparation time in milliseconds beyond which a communication counts as missed.
pub const PREPARATION_LIMIT_MS: i64 = 30;

/// Time in microseconds after which the downlink should have been ready.
pub const INIT_LIMIT_US: u128 = 5000;

/// A packet ready for the downlink, and what was noticed on the way.
pub struct Prepared {
    pub packet: DownlinkPacket,
    /// The downlink was not ready in time.
    pub missed_init: bool,
    /// The buffer is nearly full.
    pub degraded: bool,
    /// From the generation of the sample until the packet was ready.
    pub prep_elapsed_ms: i64,
    /// The packet was not prepared in time.
    pub missed_communication: bool,
}

/// The number that follows `id`; after the highest one the numbers start over.
pub open spec fn next_number(id: u64) -> u64 {
    if id == u64::MAX {
        0
    } else {
        (id + 1) as u64
    }
}

/// The number of the packet that comes `n` packets after the one with the number `id`.
pub open spec fn number_after(id: u64, n: nat) -> u64
    decreases n,
{
    if n == 0 {
        id
    } else {
        next_number(number_after(id, (n - 1) as nat))
    }
}

proof fn lemma_number_after(id: u64, n: nat)
    ensures
        number_after(id, n) == (id + n) % 0x1_0000_0000_0000_0000,
    decreases n,
{
    if n > 0 {
        lemma_number_after(id, (n - 1) as nat);
    }
}

/// Packet numbers are unique: they repeat only after all 64-bit numbers have been given.
pub proof fn law_packet_numbers_are_unique(id: u64, i: nat, j: nat)
    requires
        i < j,
        j - i <= u64::MAX,
    ensures
        number_after(id, i) != number_after(id, j),
{
    lemma_number_after(id, i);
    lemma_number_after(id, j);
}

/// Makes a packet of a sample. `compressed` is the sample's value as text; the packet gets
/// the next number of `next_id`, which starts over after the highest. The clock readings
/// are, in order: the wait for the downlink in microseconds, the time of queueing, the start
/// of the window, and the time at which the packet is ready.
pub fn compress_and_packetize(
    next_id: &mut u64,
    data: SensorData,
    compressed: String,
    response_tx: crossbeam_channel::Sender<String>,
    buffer_len: usize,
    buffer_max: usize,
    init_elapsed_us: u128,
    queued_at: Instant,
    window_start_at: Timestamp,
    ready_at: Timestamp,
) -> (r: Prepared)
    requires
        data.generated_at.wf(),
        ready_at.wf(),
    ensures
        *final(next_id) == next_number(*old(next_id)),
        r.packet.id == *old(next_id),
        r.packet.sensor_name == data.name,
        r.packet.compressed_value == compressed,
        r.packet.timestamp == data.generated_at,
        r.packet.priority == data.priority,
        r.packet.response_tx == Some(response_tx),
        r.packet.queued_at == queued_at,
        r.packet.window_start_at == window_start_at,
        r.missed_init == (init_elapsed_us > INIT_LIMIT_US),
        r.degraded == ratio_above_limit(buffer_len as nat, buffer_max as nat),
        r.prep_elapsed_ms == clock::millis_between(ready_at, data.generated_at),
        r.missed_communication == (r.prep_elapsed_ms > PREPARATION_LIMIT_MS),
        r.missed_init <==> init_elapsed_us > 5_000,
        r.missed_communication <==> clock::millis_between(ready_at, data.generated_at) > 30,
{
    let id: u64 = *next_id;
    *next_id = if id == u64::MAX {
        0
    } else {
        id + 1
    };
    let prep_elapsed_ms: i64 = clock::elapsed_millis(ready_at, data.generated_at);
    Prepared {
        packet: DownlinkPacket {
            id,
            sensor_name: data.name,
            compressed_value: compressed,
            timestamp: data.generated_at,
            priority: data.priority,
            response_tx: Some(response_tx),
            queued_at,
            window_start_at,
        },
        missed_init: init_elapsed_us > INIT_LIMIT_US,
        degraded: is_degraded(buffer_len, buffer_max),
        prep_elapsed_ms,
        missed_communication: prep_elapsed_ms > PREPARATION_LIMIT_MS,
    }
}

/// Wait in the queue, in milliseconds, after which a packet has missed its window.
pub const VISIBILITY_LIMIT_MS: u128 = 30;

/// What the downlink manager does with a packet.
pub enum Admission {
    /// It waited too long and is dropped.
    Expired,
    /// A fault keeps the command of this number back, and the packet is dropped.
    Blocked(u32),
    /// It is sent in this form.
    Send(WirePacket),
}

/// The number under which the interlock knows a packet; zero when it is too high.
pub open spec fn command_number(packet_id: u64) -> u32 {
    if packet_id <= u32::MAX {
        packet_id as u32
    } else {
        0
    }
}

/// Whether `packet` has waited too long at `now`.
pub open spec fn window_missed(packet: &DownlinkPacket, now: Instant) -> bool {
    clock::positive_part(now.nanos - packet.queued_at.nanos) / 1_000_000 > VISIBILITY_LIMIT_MS
}

/// Decides at `now` whether `packet` goes to the ground; a packet that does not is counted
/// as dropped.
pub fn admit_packet(
    m: &mut MonitoringData,
    faults: &FaultRegistry,
    packet: &DownlinkPacket,
    now: Instant,
) -> (r: Admission)
    requires
        window_missed(packet, now) || !faults@.safe(command_number(packet.id))
            ==> old(m)@.sat_metrics.downlink_dropped < u64::MAX,
        packet.timestamp.wf(),
    ensures
        match r {
            Admission::Expired => window_missed(packet, now),
            Admission::Blocked(number) => !window_missed(packet, now) && number == command_number(
                packet.id,
            ) && !faults@.safe(number),
            Admission::Send(wire) => !window_missed(packet, now) && faults@.safe(
                command_number(packet.id),
            ) && wire.carries(
                packet,
                clock::rfc3339_text(packet.timestamp.secs, packet.timestamp.nanos),
            ) && (packet.timestamp.four_digit_year() ==> wire.time() == Some(packet.timestamp)),
        },
        r is Expired <==> now.nanos >= packet.queued_at.nanos + 31_000_000,
        final(m)@ == if r is Send {
            old(m)@
        } else {
            old(m)@.with_sat(old(m)@.sat_metrics.with_downlink_dropped())
        },
{
    if now.duration_since(packet.queued_at).as_millis() > VISIBILITY_LIMIT_MS {
        monitor::record_downlink_dropped(m);
        return Admission::Expired;
    }
    let number: u32 = if packet.id <= u32::MAX as u64 {
        packet.id as u32
    } else {
        0
    };
    if !fault::is_command_safe(faults, number) {
        monitor::record_downlink_dropped(m);
        return Admission::Blocked(number);
    }
    Admission::Send(WirePacket::from_packet(packet))
}

/// The form in which a serialized packet travels.
pub fn encode_payload(serialized: &str) -> (r: String)
    ensures
        r@ == cipher::encrypted(serialized@, ENC_KEY@),
{
    types::xor_encrypt_to_hex(serialized, ENC_KEY.as_slice())
}

/// The monitor after a payload was sent to the ground, `delivered` or not.
pub open spec fn after_payload(v: MonitorView, delivered: bool) -> MonitorView {
    let counted = if delivered {
        v.sat_metrics
    } else {
        v.sat_metrics.with_downlink_dropped()
    };
    v.with_sat(counted.with_packet_generated())
}

/// Counts a payload sent to the ground; one that was not delivered also as dropped.
pub fn payload_sent(m: &mut MonitoringData, delivered: bool)
    requires
        old(m)@.sat_metrics.packets_generated < u64::MAX,
        !delivered ==> old(m)@.sat_metrics.downlink_dropped < u64::MAX,
    ensures
        final(m)@ == after_payload(old(m)@, delivered),
{
    if !delivered {
        monitor::record_downlink_dropped(m);
    }
    monitor::record_packet_generated(m);
}

/// The monitor after the wait for an acknowledgement.
pub open spec fn after_wait(v: MonitorView, acknowledged: bool) -> MonitorView {
    v.with_sat(
        if acknowledged {
            v.sat_metrics.with_downlink_sent()
        } else {
            v.sat_metrics.with_downlink_dropped()
        },
    )
}

/// Ends the wait for an acknowledgement: an acknowledged packet counts as sent and its
/// acknowledgement is given on, another one counts as dropped.
pub fn settle_packet(m: &mut MonitoringData, ack: Option<String>) -> (r: Option<String>)
    requires
        ack is Some ==> old(m)@.sat_metrics.downlink_sent < u64::MAX,
        ack is None ==> old(m)@.sat_metrics.downlink_dropped < u64::MAX,
    ensures
        r == ack,
        final(m)@ == after_wait(old(m)@, ack is Some),
{
    match ack {
        Some(a) => {
            monitor::record_downlink_sent(m);
            Some(a)
        },
        None => {
            monitor::record_downlink_dropped(m);
            None
        },
    }
}

/// Every payload ends as sent or as dropped, a delivered one never as both. Unless it was
/// delivered and acknowledged it leaves a drop behind, and it counts as generated exactly
/// once.
pub proof fn law_every_payload_is_accounted_for(
    v: MonitorView,
    delivered: bool,
    acknowledged: bool,
)
    ensures
        ({
            let before = v.sat_metrics;
            let after = after_wait(after_payload(v, delivered), acknowledged).sat_metrics;
            let drops: int = after.downlink_dropped - before.downlink_dropped;
            let sent: int = after.downlink_sent - before.downlink_sent;
            &&& after.packets_generated == before.packets_generated + 1
            &&& sent == if acknowledged {
                1int
            } else {
                0int
            }
            &&& 1 <= sent + drops <= 2
            &&& delivered ==> sent + drops == 1
            &&& drops == 0 <==> delivered && acknowledged
            &&& after_payload(v, delivered) == (MonitorView {
                sat_metrics: SummaryView {
                    packets_generated: before.packets_generated + 1,
                    downlink_dropped: before.downlink_dropped + if delivered {
                        0nat
                    } else {
                        1nat
                    },
                    ..before
                },
                ..v
            })
            &&& after_wait(v, acknowledged) == (MonitorView {
                sat_metrics: SummaryView {
                    downlink_sent: before.downlink_sent + if acknowledged {
                        1nat
                    } else {
                        0nat
                    },
                    downlink_dropped: before.downlink_dropped + if acknowledged {
                        0nat
                    } else {
                        1nat
                    },
                    ..before
                },
                ..v
            })
        }),
{
}

/// The acknowledgement of a text that cannot be decrypted.
pub open spec fn undecodable_ack() -> Seq<char> {
    "ACK: undecodable packet"@
}

/// The acknowledgement of the packet with the number `id`.
pub open spec fn packet_ack(id: u64) -> Seq<char> {
    "ACK: Packet "@ + text::decimal(id as nat) + " processed"@
}

/// What the ground station makes of a received text.
pub enum Reception {
    /// The plain text that came in.
    Plain(String),
    /// It cannot be decrypted: the reason, and the acknowledgement that says so.
    Undecodable(String, String),
}

/// Decrypts a received text on the ground.
pub fn ground_receive(serialized: &str) -> (r: Reception)
    requires
        decryptable(serialized@),
    ensures
        match r {
            Reception::Plain(p) => decryption(serialized@, ENC_KEY@) == Ok::<Seq<char>, Seq<char>>(
                p@,
            ),
            Reception::Undecodable(reason, ack) => decryption(serialized@, ENC_KEY@) == Err::<
                Seq<char>,
                Seq<char>,
            >(reason@) && ack@ == undecodable_ack(),
        },
{
    match xor_decrypt_from_hex(serialized, ENC_KEY.as_slice()) {
        Ok(p) => Reception::Plain(p),
        Err(reason) => Reception::Undecodable(reason, "ACK: undecodable packet".to_string()),
    }
}

/// The ground station reads what the downlink manager sends: the text that travels for
/// `serialized` can be decrypted, and to nothing else than `serialized`.
pub proof fn law_ground_reads_what_was_sent(serialized: Seq<char>)
    ensures
        decryptable(cipher::encrypted(serialized, ENC_KEY@)),
        decryption(cipher::encrypted(serialized, ENC_KEY@), ENC_KEY@) == Ok::<
            Seq<char>,
            Seq<char>,
        >(serialized),
{
    assert(ENC_KEY@.len() == 13);
    law_decryption_gives_plain_text_back(serialized, ENC_KEY@);
}

/// `n` as 64 unsigned bits.
pub open spec fn wrapped(n: int) -> int {
    if n < 0 {
        n + 0x1_0000_0000_0000_0000
    } else {
        n
    }
}

/// The monitor after the ground station looked for the time of what it received.
pub open spec fn after_stamp(v: MonitorView, stamp: Option<Timestamp>, now: Timestamp) -> MonitorView {
    match stamp {
        Some(t) => v.after_reception(wrapped(clock::millis_between(now, t)) as u64, None),
        None => v,
    }
}

/// Records at `now` the latency of something stamped `stamp`; one from the future wraps
/// around.
pub fn record_stamp(m: &mut MonitoringData, stamp: Option<Timestamp>, now: Timestamp)
    requires
        now.wf(),
        stamp matches Some(t) ==> t.wf(),
    ensures
        final(m)@ == after_stamp(old(m)@, stamp, now),
{
    if let Some(t) = stamp {
        let ms: i64 = clock::elapsed_millis(now, t);
        let latency_ms: u64 = if ms >= 0 {
            ms as u64
        } else {
            (ms + i64::MAX + 1) as u64 + 0x8000_0000_0000_0000
        };
        monitor::record_telemetry_latency_and_jitter(m, latency_ms, None);
    }
}

/// A point of time from its seconds and nanoseconds.
pub open spec fn timestamp_of(parts: Option<(i64, u32)>) -> Option<Timestamp> {
    match parts {
        Some((secs, nanos)) => Some(Timestamp { secs, nanos }),
        None => None,
    }
}

/// What the ground station does about a packet.
pub struct Acceptance {
    /// Log line about the count of processed packets.
    pub processed_line: String,
    /// Log line about the packet's observation.
    pub monitoring_line: String,
    pub ack: String,
}

/// Accepts the packet that `plain` holds: it counts as processed, its latency is recorded
/// where `plain` has a time stamp, and it is acknowledged.
pub fn ground_accept(
    m: &mut MonitoringData,
    packet: &WirePacket,
    plain: &str,
    now: Timestamp,
) -> (r: Acceptance)
    requires
        now.wf(),
    ensures
        r.processed_line@ == monitor::processed_line(old(m)@.sat_metrics),
        r.monitoring_line@ == timing::stamped_text(
            "📡 Monitoring packet ID: "@ + text::decimal((packet.id % 0x1_0000_0000) as nat),
        ),
        r.ack@ == packet_ack(packet.id),
        final(m)@ == after_stamp(
            old(m)@.with_sat(old(m)@.sat_metrics.with_packet_processed()),
            timestamp_of(json::time_of(json::stamp_of(plain@))),
            now,
        ),
{
    let processed_line: String = monitor::record_packet_processed(m);
    let monitoring_line: String = monitor::start_monitoring((packet.id % 0x1_0000_0000) as u32);
    let field: StampField = json::find_stamp(plain);
    let stamp: Option<Timestamp> = json::stamp_time(&field);
    record_stamp(m, stamp, now);
    Acceptance {
        processed_line,
        monitoring_line,
        ack: text::join3(
            "ACK: Packet ",
            text::number(packet.id as u128).as_str(),
            " processed",
        ),
    }
}

/// What the ground station does about a text that is no packet.
pub struct OtherReception {
    /// Whether the text is JSON.
    pub json: bool,
    pub ack: Option<String>,
}

/// The acknowledgement of a text that is no packet; an acknowledgement gets none.
pub open spec fn other_ack(serialized: Seq<char>, json: bool) -> Option<Seq<char>> {
    if "ACK:"@.is_prefix_of(serialized) {
        None
    } else if json {
        Some("ACK: JSON received"@)
    } else {
        Some("ACK: Text received"@)
    }
}

/// Acknowledges a text whose time stamp is `stamp`, as far as it is JSON and has one.
pub fn ground_reply(serialized: &str, stamp: &StampField) -> (r: OtherReception)
    ensures
        r.json == (stamp !is Malformed),
        match r.ack {
            Some(a) => other_ack(serialized@, r.json) == Some(a@),
            None => other_ack(serialized@, r.json) is None,
        },
{
    let json: bool = match stamp {
        StampField::Malformed => false,
        _ => true,
    };
    let ack: Option<String> = if text::begins_with(serialized, "ACK:") {
        None
    } else if json {
        Some("ACK: JSON received".to_string())
    } else {
        Some("ACK: Text received".to_string())
    };
    OtherReception { json, ack }
}

/// Deals with a text that is no packet: the latency of JSON with a time stamp is recorded,
/// and the text is acknowledged unless it is an acknowledgement itself.
pub fn ground_other(m: &mut MonitoringData, serialized: &str, now: Timestamp) -> (r:
    OtherReception)
    requires
        now.wf(),
    ensures
        r.json == (json::stamp_of(serialized@) !is Malformed),
        match r.ack {
            Some(a) => other_ack(serialized@, r.json) == Some(a@),
            None => other_ack(serialized@, r.json) is None,
        },
        final(m)@ == after_stamp(
            old(m)@,
            timestamp_of(json::time_of(json::stamp_of(serialized@))),
            now,
        ),
{
    let field: StampField = json::find_stamp(serialized);
    let stamp: Option<Timestamp> = json::stamp_time(&field);
    record_stamp(m, stamp, now);
    ground_reply(serialized, &field)
}

/// The answers that the ground station sends for a received text; `id` is the number of the
/// packet that the decrypted text holds, if it holds one.
pub open spec fn answers(serialized: Seq<char>, id: Option<u64>) -> Seq<Seq<char>> {
    match (decryption(serialized, ENC_KEY@), id) {
        (Err(_), _) => seq![undecodable_ack()],
        (Ok(_), Some(n)) => seq![packet_ack(n)],
        (Ok(_), None) => match other_ack(serialized, json::stamp_of(serialized) !is Malformed) {
            Some(ack) => seq![ack],
            None => Seq::empty(),
        },
    }
}

/// The answers to all of `received`, in order.
pub open spec fn all_answers(received: Seq<(Seq<char>, Option<u64>)>) -> Seq<Seq<char>>
    decreases received.len(),
{
    if received.len() == 0 {
        Seq::empty()
    } else {
        all_answers(received.drop_last()) + answers(received.last().0, received.last().1)
    }
}

/// A text that can be decrypted is no acknowledgement: the letters of one are not
/// hexadecimal.
pub proof fn law_acknowledgements_do_not_decrypt(serialized: Seq<char>, json: bool)
    requires
        decryption(serialized, ENC_KEY@) is Ok,
    ensures
        !"ACK:"@.is_prefix_of(serialized),
        other_ack(serialized, json) is Some,
{
    if "ACK:"@.is_prefix_of(serialized) {
        reveal_strlit("ACK:");
        assert(serialized[0] == 'A' && serialized[1] == 'C' && serialized[2] == 'K'
            && serialized[3] == ':') by {
            assert("ACK:"@[0] == serialized[0]);
            assert("ACK:"@[1] == serialized[1]);
            assert("ACK:"@[2] == serialized[2]);
            assert("ACK:"@[3] == serialized[3]);
        }
        let kept = text::trimmed(serialized);
        assert(text::trimmed_start(serialized) == serialized);
        lemma_trimmed_end_keeps(serialized, 4);
        let bytes = encode_utf8(kept);
        assert forall|i: int| 0 <= i < 4 implies '\0' <= #[trigger] kept[i] <= '\u{7f}' && kept[i]
            == serialized[i] by {
            assert(kept.take(4)[i] == serialized.take(4)[i]);
        }
        lemma_ascii_prefix(kept, 4);
        assert(bytes[2] == kept[2] as u8 && bytes[3] == kept[3] as u8);
        assert(cipher::pair_at(bytes, 1) is None);
        assert(bytes.len() % 2 == 0 && bytes.len() / 2 > 1);
        assert(!cipher::pairs_decode(bytes, bytes.len() as int / 2));
    }
}

proof fn lemma_trimmed_end_keeps(s: Seq<char>, n: nat)
    requires
        0 < n <= s.len(),
        !text::is_white_space(s[n - 1]),
    ensures
        text::trimmed_end(s).len() >= n,
        text::trimmed_end(s).take(n as int) == s.take(n as int),
    decreases s.len(),
{
    if text::is_white_space(s.last()) {
        lemma_trimmed_end_keeps(s.drop_last(), n);
        assert(s.drop_last().take(n as int) =~= s.take(n as int));
    }
}

proof fn lemma_ascii_prefix(s: Seq<char>, n: nat)
    requires
        n <= s.len(),
        forall|i: int| 0 <= i < n ==> '\0' <= #[trigger] s[i] <= '\u{7f}',
    ensures
        encode_utf8(s).len() >= n,
        forall|i: int| 0 <= i < n ==> #[trigger] encode_utf8(s)[i] == s[i] as u8,
    decreases n,
{
    if n > 0 {
        let rest = s.drop_first();
        let first = s[0] as u32;
        assert forall|i: int| 0 <= i < n - 1 implies '\0' <= #[trigger] rest[i] <= '\u{7f}' by {
            assert(rest[i] == s[i + 1]);
        }
        lemma_ascii_prefix(rest, (n - 1) as nat);
        assert(first as u8 == leading_byte_width_1(first)) by (bit_vector)
            requires
                has_width_1_encoding(first),
        ;
        assert(encode_scalar(first) =~= seq![first as u8]);
        assert(encode_utf8(s) =~= seq![first as u8] + encode_utf8(rest));
        assert forall|i: int| 0 <= i < n implies #[trigger] encode_utf8(s)[i] == s[i] as u8 by {
            if i > 0 {
                assert(encode_utf8(s)[i] == encode_utf8(rest)[i - 1]);
                assert(rest[i - 1] == s[i]);
            }
        }
    }
}

/// Every received text gets exactly one answer, and the answers come in the order of the
/// texts.
pub proof fn law_every_text_gets_one_answer(received: Seq<(Seq<char>, Option<u64>)>)
    ensures
        all_answers(received).len() == received.len(),
        forall|i: int|
            0 <= i < received.len() ==> answers(received[i].0, received[i].1) == seq![
                #[trigger] all_answers(received)[i],
            ],
    decreases received.len(),
{
    if received.len() > 0 {
        let before = received.drop_last();
        let (serialized, id) = received.last();
        law_every_text_gets_one_answer(before);
        if decryption(serialized, ENC_KEY@) is Ok {
            law_acknowledgements_do_not_decrypt(
                serialized,
                json::stamp_of(serialized) !is Malformed,
            );
        }
        let one = answers(serialized, id);
        assert(one.len() == 1);
        assert forall|i: int| 0 <= i < received.len() implies answers(
            received[i].0,
            received[i].1,
        ) == seq![#[trigger] all_answers(received)[i]] by {
            if i < before.len() {
                assert(before[i] == received[i]);
                assert(all_answers(received)[i] == all_answers(before)[i]);
            } else {
                assert(one =~= seq![all_answers(received)[i]]);
            }
        }
    }
}

/// Only a packet counts as processed: looking for a time stamp leaves the satellite's figures
/// alone.
pub proof fn law_stamps_leave_the_summary_alone(
    v: MonitorView,
    stamp: Option<Timestamp>,
    now: Timestamp,
)
    ensures
        after_stamp(v, stamp, now).sat_metrics == v.sat_metrics,
{
}

/// The monitor after a received text; `id` is the number of the packet that the decrypted text
/// holds, if it holds one. Only a packet counts as processed.
pub open spec fn after_text(
    v: MonitorView,
    serialized: Seq<char>,
    id: Option<u64>,
    now: Timestamp,
) -> MonitorView {
    match (decryption(serialized, ENC_KEY@), id) {
        (Err(_), _) => v,
        (Ok(plain), Some(_)) => after_stamp(
            v.with_sat(v.sat_metrics.with_packet_processed()),
            timestamp_of(json::time_of(json::stamp_of(plain))),
            now,
        ),
        (Ok(_), None) => after_stamp(
            v,
            timestamp_of(json::time_of(json::stamp_of(serialized))),
            now,
        ),
    }
}

/// What a received text was.
pub enum TextKind {
    /// It cannot be decrypted; the reason.
    Undecodable(String),
    /// It holds a packet: the log lines about the count of processed packets and about the
    /// packet's observation.
    Packet(String, String),
    /// It holds no packet; whether it is JSON itself.
    Other(bool),
}

/// The ground station's answer to a received text.
pub struct GroundAnswer {
    pub kind: TextKind,
    pub ack: String,
}

/// The number of a packet.
pub open spec fn number_of(packet: Option<&WirePacket>) -> Option<u64> {
    match packet {
        Some(p) => Some(p.id),
        None => None,
    }
}

/// Answers a received text. `packet` is what its decrypted form holds, if that is a packet; it
/// does not count for a text that cannot be decrypted.
pub fn ground_answer(
    m: &mut MonitoringData,
    serialized: &str,
    packet: Option<&WirePacket>,
    now: Timestamp,
) -> (r: GroundAnswer)
    requires
        decryptable(serialized@),
        now.wf(),
    ensures
        answers(serialized@, number_of(packet)) == seq![r.ack@],
        decryption(serialized@, ENC_KEY@) is Err ==> r.ack@ == "ACK: undecodable packet"@,
        decryption(serialized@, ENC_KEY@) is Ok ==> r.ack@ == match packet {
            Some(p) => "ACK: Packet "@ + text::decimal(p.id as nat) + " processed"@,
            None => if json::stamp_of(serialized@) is Malformed {
                "ACK: Text received"@
            } else {
                "ACK: JSON received"@
            },
        },
        final(m)@ == after_text(old(m)@, serialized@, number_of(packet), now),
        match r.kind {
            TextKind::Undecodable(reason) => decryption(serialized@, ENC_KEY@) == Err::<
                Seq<char>,
                Seq<char>,
            >(reason@),
            TextKind::Packet(processed, observed) => decryption(serialized@, ENC_KEY@) is Ok && (
            packet matches Some(p) && processed@ == monitor::processed_line(old(m)@.sat_metrics)
                && observed@ == timing::stamped_text(
                "📡 Monitoring packet ID: "@ + text::decimal((p.id % 0x1_0000_0000) as nat),
            )),
            TextKind::Other(is_json) => decryption(serialized@, ENC_KEY@) is Ok && packet is None
                && is_json == (json::stamp_of(serialized@) !is Malformed),
        },
{
    match ground_receive(serialized) {
        Reception::Undecodable(reason, ack) => GroundAnswer {
            kind: TextKind::Undecodable(reason),
            ack,
        },
        Reception::Plain(plain) => match packet {
            Some(p) => {
                let accepted: Acceptance = ground_accept(m, p, plain.as_str(), now);
                GroundAnswer {
                    kind: TextKind::Packet(accepted.processed_line, accepted.monitoring_line),
                    ack: accepted.ack,
                }
            },
            None => {
                let other: OtherReception = ground_other(m, serialized, now);
                proof {
                    law_acknowledgements_do_not_decrypt(serialized@, other.json);
                }
                let ack: String = match other.ack {
                    Some(ack) => ack,
                    None => String::new(),
                };
                GroundAnswer { kind: TextKind::Other(other.json), ack }
            },
        },
    }
}

/// What becomes of a command for the satellite.
pub struct CommandReply {
    pub sent: bool,
    /// The number to check against the active faults before the line is logged.
    pub check: Option<u32>,
    pub line: String,
}

/// Sends a command to the satellite unless a fault keeps it back, and gives the log line. A
/// command that is kept back is checked once against the active faults before.
pub fn send_command(faults: &FaultRegistry, packet_id: u32) -> (r: CommandReply)
    ensures
        r.sent == faults@.safe(packet_id),
        r.check == if faults@.safe(packet_id) {
            None
        } else {
            Some(packet_id)
        },
        r.line@ == timing::stamped_text(
            if r.sent {
                "📡 Sending command "@ + text::decimal(packet_id as nat)
                    + " to satellite (no blocking faults)."@
            } else {
                "⚠️ Command "@ + text::decimal(packet_id as nat)
                    + " blocked due to active fault(s), not sending to satellite."@
            },
        ),
{
    let id: String = text::number(packet_id as u128);
    if !fault::is_command_safe(faults, packet_id) {
        CommandReply {
            sent: false,
            check: Some(packet_id),
            line: timing::stamped(
                text::join3(
                    "⚠️ Command ",
                    id.as_str(),
                    " blocked due to active fault(s), not sending to satellite.",
                ).as_str(),
            ),
        }
    } else {
        CommandReply {
            sent: true,
            check: None,
            line: timing::stamped(
                text::join3(
                    "📡 Sending command ",
                    id.as_str(),
                    " to satellite (no blocking faults).",
                ).as_str(),
            ),
        }
    }
}

/// What is done about `fault`.
pub open spec fn corrective_action(fault: Seq<char>) -> Seq<char> {
    if fault == "TEMP_HIGH"@ {
        "initiating cooling procedure"@
    } else if fault == "BATTERY_LOW"@ {
        "initiating power-saving procedure"@
    } else if fault == "SIGNAL_LOSS"@ {
        "initiating reconnection procedure"@
    } else {
        "no corrective action taken"@
    }
}

/// Whether something can be done about `fault`.
pub open spec fn is_known_fault(fault: Seq<char>) -> bool {
    fault == "TEMP_HIGH"@ || fault == "BATTERY_LOW"@ || fault == "SIGNAL_LOSS"@
}

/// The log lines of the corrective action for `fault`.
pub open spec fn action_lines(fault: Seq<char>) -> Seq<Seq<char>> {
    let detected = timing::stamped_text(
        "[DownlinkManager] ⚠️ "@ + fault + " detected, "@ + corrective_action(fault),
    );
    if is_known_fault(fault) {
        seq![
            detected,
            timing::stamped_text(
                "[DownlinkManager] 📡 Sending corrective action for "@ + fault
                    + " to satellite..."@,
            ),
            timing::stamped_text(
                "[Satellite] 🛰️ Corrective action for "@ + fault + " executed successfully!"@,
            ),
        ]
    } else {
        seq![
            detected,
            timing::stamped_text(
                "[DownlinkManager] ⚠️ Unknown fault "@ + fault
                    + ", no action sent to satellite"@,
            ),
        ]
    }
}

/// Takes the corrective action for `fault` and gives the log lines about it.
pub fn trigger_fault_command(fault: &str) -> (lines: Vec<String>)
    ensures
        text::texts(lines@) == action_lines(fault@),
{
    let temp: bool = text::same_text(fault, "TEMP_HIGH");
    let battery: bool = text::same_text(fault, "BATTERY_LOW");
    let signal: bool = text::same_text(fault, "SIGNAL_LOSS");
    let action: &str = if temp {
        "initiating cooling procedure"
    } else if battery {
        "initiating power-saving procedure"
    } else if signal {
        "initiating reconnection procedure"
    } else {
        "no corrective action taken"
    };
    let mut lines: Vec<String> = Vec::new();
    let mut detected: String = text::join3("[DownlinkManager] ⚠️ ", fault, " detected, ");
    detected.append(action);
    lines.push(timing::stamped(detected.as_str()));
    if temp || battery || signal {
        lines.push(
            timing::stamped(
                text::join3(
                    "[DownlinkManager] 📡 Sending corrective action for ",
                    fault,
                    " to satellite...",
                ).as_str(),
            ),
        );
        lines.push(
            timing::stamped(
                text::join3(
                    "[Satellite] 🛰️ Corrective action for ",
                    fault,
                    " executed successfully!",
                ).as_str(),
            ),
        );
    } else {
        lines.push(
            timing::stamped(
                text::join3(
                    "[DownlinkManager] ⚠️ Unknown fault ",
                    fault,
                    ", no action sent to satellite",
                ).as_str(),
            ),
        );
    }
    assert(text::texts(lines@) =~= action_lines(fault@));
    lines
}

/// The log line of a critical command.
pub fn critical_line(packet_id: u32) -> (r: String)
    ensures
        r@ == timing::stamped_text(
            "🔥 Critical Command "@ + text::decimal(packet_id as nat)
                + " (Thermal Control) preempting lower-priority tasks"@,
        ),
{
    timing::stamped(
        text::join3(
            "🔥 Critical Command ",
            text::number(packet_id as u128).as_str(),
            " (Thermal Control) preempting lower-priority tasks",
        ).as_str(),
    )
}

/// The log line of a batch of commands.
pub fn batch_line(b: &BatchStats) -> (r: String)
    ensures
        r@ == timing::stamped_text(
            "📊 Drift Stats (Batch "@ + text::decimal(b.first as nat) + "–"@
                + text::decimal(b.last as nat) + "): Min="@ + text::decimal(b.min_us as nat)
                + "µs | Max="@ + text::decimal(b.max_us as nat) + "µs | Avg="@
                + text::decimal(b.avg_us as nat) + "µs"@,
        ),
{
    let mut body: String = text::join3(
        "📊 Drift Stats (Batch ",
        text::number(b.first as u128).as_str(),
        "–",
    );
    body.append(text::number(b.last as u128).as_str());
    body.append("): Min=");
    body.append(text::number(b.min_us as u128).as_str());
    body.append("µs | Max=");
    body.append(text::number(b.max_us as u128).as_str());
    body.append("µs | Avg=");
    body.append(text::number(b.avg_us as u128).as_str());
    body.append("µs");
    timing::stamped(body.as_str())
}

/// The log line that says whether a command was in time.
pub fn outcome_line(packet_id: u32, outcome: &CommandOutcome) -> (r: String)
    ensures
        r@ == timing::stamped_text(
            match outcome.late_us {
                None => "✅ Command "@ + text::decimal(packet_id as nat) + " executed on time ("@
                    + text::decimal(outcome.elapsed_us as nat) + "µs)"@,
                Some(late) => "⚠️ Deadline Miss: Command "@ + text::decimal(packet_id as nat)
                    + " delayed by "@ + text::decimal(late as nat) + "µs (Exec: "@ + text::decimal(
                    outcome.elapsed_us as nat,
                ) + "µs)"@,
            },
        ),
{
    let id: String = text::number(packet_id as u128);
    let elapsed: String = text::number(outcome.elapsed_us);
    let mut body: String = match outcome.late_us {
        None => text::join3("✅ Command ", id.as_str(), " executed on time ("),
        Some(late) => {
            let mut body: String = text::join3(
                "⚠️ Deadline Miss: Command ",
                id.as_str(),
                " delayed by ",
            );
            body.append(text::number(late).as_str());
            body.append("µs (Exec: ");
            body
        },
    };
    body.append(elapsed.as_str());
    body.append("µs)");
    timing::stamped(body.as_str())
}

/// Decryption on the ground is exact. The text is trimmed; then it must be whole pairs of
/// figures, of which the first that is none is named by its place; and the plain text is the
/// one whose bytes are the pairs, each combined with the byte of the key whose turn it is, if
/// there is such a text.
pub proof fn law_ground_decryption_is_exact(hex: Seq<char>, key: Seq<u8>)
    ensures
        ({
            let bytes = encode_utf8(text::trimmed(hex));
            let out = decryption(hex, key);
            let plain = Seq::new(
                bytes.len() / 2,
                |k: int|
                    (cipher::pair_worth(bytes[2 * k] as int, bytes[2 * k + 1] as int) as u8)
                        ^ key[k % key.len() as int],
            );
            if key.len() == 0 {
                out == Err::<Seq<char>, Seq<char>>("empty key"@)
            } else if bytes.len() % 2 != 0 {
                out == Err::<Seq<char>, Seq<char>>("hex length must be even"@)
            } else if exists|k: int|
                0 <= k < bytes.len() / 2 && !cipher::is_pair(
                    #[trigger] bytes[2 * k] as int,
                    bytes[2 * k + 1] as int,
                ) {
                exists|k: int|
                    {
                        &&& 0 <= k < bytes.len() / 2
                        &&& !cipher::is_pair(
                            #[trigger] bytes[2 * k] as int,
                            bytes[2 * k + 1] as int,
                        )
                        &&& forall|j: int|
                            0 <= j < k ==> cipher::is_pair(
                                #[trigger] bytes[2 * j] as int,
                                bytes[2 * j + 1] as int,
                            )
                        &&& out == Err::<Seq<char>, Seq<char>>(
                            "hex parse error at "@ + text::decimal((2 * k) as nat)
                                + ": invalid digit found in string"@,
                        )
                    }
            } else {
                match out {
                    Ok(text) => encode_utf8(text) == plain,
                    Err(words) => !valid_utf8(plain) && words == "utf8 error: "@
                        + cipher::utf8_error_text(plain),
                }
            }
        }),
{
    let bytes = encode_utf8(text::trimmed(hex));
    if key.len() > 0 && bytes.len() % 2 == 0 {
        cipher::law_hexadecimal_means_pairs_of_figures(bytes);
        if cipher::all_hex(bytes) {
            let plain = Seq::new(
                bytes.len() / 2,
                |k: int|
                    (cipher::pair_worth(bytes[2 * k] as int, bytes[2 * k + 1] as int) as u8)
                        ^ key[k % key.len() as int],
            );
            let got = cipher::xored(cipher::unhexed(bytes), key);
            assert forall|k: int| 0 <= k < bytes.len() / 2 implies got[k] == plain[k] by {
                cipher::law_every_pair_is_decrypted(bytes, key, k);
            }
            cipher::law_every_pair_is_decrypted(bytes, key, 0);
            assert(got =~= plain);
            if valid_utf8(got) {
                decode_utf8_encode_utf8(got);
            }
        } else {
            let k = cipher::lemma_first_bad_pair(bytes);
            let c = choose|j: int|
                0 <= 2 * j < bytes.len() && cipher::pairs_decode(bytes, j) && (
                #[trigger] cipher::pair_at(bytes, j)) is None;
            assert(cipher::pair_at(bytes, k) is None);
            assert(c == k) by {
                if c < k {
                    assert(cipher::pair_at(bytes, c) is Some);
                } else if k < c {
                    assert(cipher::pair_at(bytes, k) is Some);
                }
            }
            assert(!cipher::is_pair(bytes[2 * k] as int, bytes[2 * k + 1] as int));
        }
    }
}

/// A packet has missed its window exactly from 31 milliseconds after it was queued on, however
/// long after; so once it has missed it, it has missed it for good.
pub proof fn law_window_stays_missed(packet: &DownlinkPacket, now: Instant, later: Instant)
    ensures
        window_missed(packet, now) <==> now.nanos >= packet.queued_at.nanos + 31_000_000,
        window_missed(packet, now) && later.nanos >= now.nanos ==> window_missed(packet, later),
{
}

/// Commands one, two and three have their own number as priority, every other one has five; the
/// lower the priority number, the shorter the execution.
pub proof fn law_command_priorities(id: u32, other: u32)
    ensures
        1 <= id <= 3 ==> command_priority(id) == id,
        id == 0 || id > 3 ==> command_priority(id) == 5,
        command_exec_micros(1) == 1000,
        command_exec_micros(2) == 1300,
        command_exec_micros(3) == 1500,
        id == 0 || id > 3 ==> command_exec_micros(id) == 1800,
        command_priority(id) < command_priority(other) ==> command_exec_micros(id)
            < command_exec_micros(other),
{
}

/// The interlock knows a packet by its own number, and by zero when that needs more than 32
/// bits.
pub proof fn law_command_number(packet_id: u64)
    ensures
        packet_id < 0x1_0000_0000 ==> command_number(packet_id) == packet_id,
        packet_id >= 0x1_0000_0000 ==> command_number(packet_id) == 0,
{
}

/// An execution time holds its whole microseconds, and is nothing when the clock ran back.
pub proof fn law_execution_time(start: Instant, now: Instant)
    ensures
        now.nanos >= start.nanos ==> 1000 * elapsed_us(start, now) <= now.nanos - start.nanos
            < 1000 * elapsed_us(start, now) + 1000,
        now.nanos < start.nanos ==> elapsed_us(start, now) == 0,
{
}

/// The statistics of a batch are over all commands so far: the batch is the last ten, every
/// execution time lies between the least and the greatest, which are among them, and the mean is
/// their sum by their number, rounded down.
pub proof fn law_batch_statistics(s: Seq<u128>, b: BatchStats, i: int)
    requires
        batch_of(s, b),
        0 <= i < s.len(),
    ensures
        b.last == s.len(),
        b.first + 9 == b.last,
        b.min_us <= s[i] <= b.max_us,
        s.contains(b.min_us),
        s.contains(b.max_us),
        b.avg_us * s.len() <= stats::total(stats::ints(s)) < (b.avg_us + 1) * s.len(),
{
    let v = stats::ints(s);
    assert(v[i] == s[i]);
    let low = v.index_of(b.min_us as int);
    let high = v.index_of(b.max_us as int);
    assert(s[low] == b.min_us && s[high] == b.max_us);
    let sum = stats::total(v);
    let n = s.len() as int;
    let q = b.avg_us as int;
    assert(q * n <= sum < (q + 1) * n) by (nonlinear_arith)
        requires
            q == sum / n,
            n > 0,
    ;
}

/// The number after a packet's is one more; only the highest is followed by zero.
pub proof fn law_next_number(id: u64)
    ensures
        id < u64::MAX ==> next_number(id) == id + 1,
        next_number(u64::MAX) == 0,
{
}

/// A rounded size is a multiple of the distance between binary32 numbers, not more than half
/// of it away, and of two as near the even multiple. That distance is one below 2^24, and from
/// there on it doubles with the size.
pub proof fn law_rounding_to_binary32(n: nat)
    ensures
        n < 0x100_0000 ==> binary32_of(n) == n && binary32_unit(n) == 1,
        n >= 0x100_0000 ==> {
            let unit = binary32_unit(n) as int;
            let r = binary32_of(n) as int;
            &&& unit == 2 * binary32_unit(n / 2)
            &&& r % unit == 0
            &&& -unit <= 2 * (r - n) <= unit
            &&& 2 * (r - n) == unit || 2 * (n - r) == unit ==> (r / unit) % 2 == 0
        },
{
    if n >= 0x100_0000 {
        let unit = binary32_unit(n) as int;
        let below = n as int / unit;
        let rest = n as int % unit;
        let r = binary32_of(n) as int;
        lemma_binary32_unit(n);
        vstd::arithmetic::div_mod::lemma_fundamental_div_mod(n as int, unit);
        assert(unit * below == below * unit) by (nonlinear_arith);
        assert((below + 1) * unit == below * unit + unit) by (nonlinear_arith);
        vstd::arithmetic::div_mod::lemma_div_multiples_vanish(below, unit);
        vstd::arithmetic::div_mod::lemma_div_multiples_vanish(below + 1, unit);
        vstd::arithmetic::div_mod::lemma_mod_multiples_basic(below, unit);
        vstd::arithmetic::div_mod::lemma_mod_multiples_basic(below + 1, unit);
        assert((below * unit) / unit == below && ((below + 1) * unit) / unit == below + 1) by {
            assert(unit * below == below * unit) by (nonlinear_arith);
            assert(unit * (below + 1) == (below + 1) * unit) by (nonlinear_arith);
        }
    }
}

/// Whatever the sizes, a buffer filled by more than a millionth above four fifths is degraded,
/// one filled by more than a millionth below is not, and an empty one never is.
pub proof fn law_degraded_near_four_fifths(len: nat, max: nat)
    ensures
        5_000_000 * len >= 4_000_004 * max && len > 0 ==> ratio_above_limit(len, max),
        5_000_000 * len <= 3_999_996 * max ==> !ratio_above_limit(len, max),
        len == 0 ==> !ratio_above_limit(len, max),
{
    lemma_binary32_near(len);
    lemma_binary32_near(max);
}

proof fn lemma_binary32_near(n: nat)
    ensures
        -(n as int) <= 0x100_0000 * (binary32_of(n) - n) <= n,
{
    if n >= 0x100_0000 {
        law_rounding_to_binary32(n);
        lemma_binary32_unit(n);
        let unit = binary32_unit(n) as int;
        let below = n as int / unit;
        vstd::arithmetic::div_mod::lemma_fundamental_div_mod(n as int, unit);
        assert(0x80_0000 * unit <= n) by (nonlinear_arith)
            requires
                n == unit * below + n as int % unit,
                n as int % unit >= 0,
                below >= 0x80_0000,
                unit >= 1,
        ;
    }
}

/// A latency in 64 unsigned bits: itself when it is not negative, and otherwise the number that
/// differs from it by all of them.
pub proof fn law_wrapped_latency(n: int)
    requires
        -0x8000_0000_0000_0000 <= n < 0x8000_0000_0000_0000,
    ensures
        0 <= wrapped(n) < 0x1_0000_0000_0000_0000,
        n >= 0 ==> wrapped(n) == n,
        n < 0 ==> wrapped(n) - n == 0x1_0000_0000_0000_0000,
{
}

/// A time stamp leaves its latency and brings contact back, and nothing else is recorded;
/// without one nothing is.
pub proof fn law_stamp_leaves_its_latency(v: MonitorView, t: Timestamp, now: Timestamp)
    ensures
        after_stamp(v, None, now) == v,
        after_stamp(v, Some(t), now) == (MonitorView {
            telemetry_latencies_ms: v.telemetry_latencies_ms.push(
                wrapped(clock::millis_between(now, t)) as u64,
            ),
            consecutive_missing_packets: 0,
            contact_lost: false,
            ..v
        }),
        timestamp_of(None) is None,
        timestamp_of(Some((t.secs, t.nanos))) == Some(t),
{
}

/// A received text counts as a processed packet exactly when it decrypts and holds one, and not
/// beyond the packets generated; then the time stamp comes from the decrypted text. The time
/// stamp of another text that decrypts comes from the text itself, and a text that does not
/// decrypt leaves nothing.
pub proof fn law_received_text_is_recorded(
    v: MonitorView,
    serialized: Seq<char>,
    id: u64,
    now: Timestamp,
)
    ensures
        match decryption(serialized, ENC_KEY@) {
            Err(_) => after_text(v, serialized, Some(id), now) == v && after_text(
                v,
                serialized,
                None,
                now,
            ) == v,
            Ok(plain) => {
                let counted = after_text(v, serialized, Some(id), now);
                let other = after_text(v, serialized, None, now);
                &&& counted.sat_metrics == if v.sat_metrics.packets_processed
                    < v.sat_metrics.packets_generated {
                    SummaryView {
                        packets_processed: v.sat_metrics.packets_processed + 1,
                        ..v.sat_metrics
                    }
                } else {
                    v.sat_metrics
                }
                &&& other.sat_metrics == v.sat_metrics
                &&& match json::time_of(json::stamp_of(plain)) {
                    Some((secs, nanos)) => counted.telemetry_latencies_ms
                        == v.telemetry_latencies_ms.push(
                        wrapped(clock::millis_between(now, Timestamp { secs, nanos })) as u64,
                    ),
                    None => counted.telemetry_latencies_ms == v.telemetry_latencies_ms,
                }
                &&& match json::time_of(json::stamp_of(serialized)) {
                    Some((secs, nanos)) => other.telemetry_latencies_ms
                        == v.telemetry_latencies_ms.push(
                        wrapped(clock::millis_between(now, Timestamp { secs, nanos })) as u64,
                    ),
                    None => other.telemetry_latencies_ms == v.telemetry_latencies_ms,
                }
                &&& counted.jitter_values == v.jitter_values
                &&& other.jitter_values == v.jitter_values
            },
        },
{
}

/// An acknowledgement gets no answer; any other text that holds no packet is told what it is.
pub proof fn law_other_texts_are_acknowledged(serialized: Seq<char>)
    ensures
        other_ack(serialized, true) is None <==> "ACK:"@.is_prefix_of(serialized),
        other_ack(serialized, false) is None <==> "ACK:"@.is_prefix_of(serialized),
        !"ACK:"@.is_prefix_of(serialized) ==> other_ack(serialized, true) == Some(
            "ACK: JSON received"@,
        ) && other_ack(serialized, false) == Some("ACK: Text received"@),
{
}

/// Each known fault is answered by its own procedure, which is told, sent and carried out; an
/// unknown one only gets told.
pub proof fn law_corrective_actions(fault: Seq<char>)
    ensures
        corrective_action("TEMP_HIGH"@) == "initiating cooling procedure"@,
        corrective_action("BATTERY_LOW"@) == "initiating power-saving procedure"@,
        corrective_action("SIGNAL_LOSS"@) == "initiating reconnection procedure"@,
        action_lines("TEMP_HIGH"@).len() == 3,
        action_lines("BATTERY_LOW"@).len() == 3,
        action_lines("SIGNAL_LOSS"@).len() == 3,
        fault != "TEMP_HIGH"@ && fault != "BATTERY_LOW"@ && fault != "SIGNAL_LOSS"@ ==> {
            &&& corrective_action(fault) == "no corrective action taken"@
            &&& action_lines(fault).len() == 2
        },
        action_lines(fault)[0] == timing::stamped_text(
            "[DownlinkManager] ⚠️ "@ + fault + " detected, "@ + corrective_action(fault),
        ),
        fault == "TEMP_HIGH"@ || fault == "BATTERY_LOW"@ || fault == "SIGNAL_LOSS"@ ==> {
            &&& action_lines(fault)[1] == timing::stamped_text(
                "[DownlinkManager] 📡 Sending corrective action for "@ + fault
                    + " to satellite..."@,
            )
            &&& action_lines(fault)[2] == timing::stamped_text(
                "[Satellite] 🛰️ Corrective action for "@ + fault + " executed successfully!"@,
            )
        },
        action_lines(fault).len() == 2 ==> action_lines(fault)[1] == timing::stamped_text(
            "[DownlinkManager] ⚠️ Unknown fault "@ + fault + ", no action sent to satellite"@,
        ),
{
    reveal_strlit("TEMP_HIGH");
    reveal_strlit("BATTERY_LOW");
    reveal_strlit("SIGNAL_LOSS");
    assert("TEMP_HIGH"@[0] == 'T');
    assert("BATTERY_LOW"@[0] == 'B');
    assert("SIGNAL_LOSS"@[0] == 'S');
}

/// The command scheduler is seen with its own commands and times.
pub proof fn law_command_scheduler_is_seen_whole(s: CommandScheduler)
    ensures
        s@.queue == s.queue@,
        s@.stats == s.stats@,
        s@.cpu_active_micros == s.cpu_active_micros,
{
}

/// What a received text is answered: its packet's number when it decrypts and holds a packet,
/// whatever the number; otherwise whether it is a JSON text; and that it cannot be decrypted when
/// that is so.
pub proof fn law_answers_in_words(serialized: Seq<char>, id: u64)
    ensures
        decryption(serialized, ENC_KEY@) is Err ==> answers(serialized, Some(id)) == seq![
            "ACK: undecodable packet"@,
        ] && answers(serialized, None) == seq!["ACK: undecodable packet"@],
        decryption(serialized, ENC_KEY@) is Ok ==> {
            &&& answers(serialized, Some(id)) == seq![
                "ACK: Packet "@ + text::decimal(id as nat) + " processed"@,
            ]
            &&& answers(serialized, None) == seq![
                if json::stamp_of(serialized) is Malformed {
                    "ACK: Text received"@
                } else {
                    "ACK: JSON received"@
                },
            ]
        },
{
    if decryption(serialized, ENC_KEY@) is Ok {
        law_acknowledgements_do_not_decrypt(
            serialized,
            json::stamp_of(serialized) !is Malformed,
        );
    }
}

/// A text whose bytes are odd in number can always be refused. Another one can be handled exactly
/// when no pair of its bytes, up to the first that is no pair of figures, ends inside a character.
pub proof fn law_decryptable_texts(hex: Seq<char>)
    ensures
        ({
            let bytes = encode_utf8(text::trimmed(hex));
            &&& bytes.len() % 2 == 1 ==> decryptable(hex)
            &&& bytes.len() % 2 == 0 ==> (decryptable(hex) <==> forall|k: int|
                0 <= 2 * k < bytes.len() && #[trigger] cipher::figures_up_to(bytes, k) ==> 2 * k + 2
                    == bytes.len() || !(0x80 <= bytes[2 * k + 2] <= 0xBF))
        }),
{
    let bytes = encode_utf8(text::trimmed(hex));
    cipher::law_hexadecimal_means_pairs_of_figures(bytes);
}

} // verus!
