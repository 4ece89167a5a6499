//! The task that takes samples in by priority and hands them to the downlink.

use crate::clock;
use crate::clock::{Duration, Instant, Timestamp};
use crate::downlink;
use crate::monitor;
use crate::monitor::{MonitorView, MonitoringData};
use crate::summary;
use crate::summary::SummaryView;
use crate::text;
use crate::types::{DownlinkPacket, SensorData};
use std::collections::VecDeque;
use vstd::prelude::*;

verus! {

/// How many packets the downlink buffer takes.
pub const MAX_DOWNLINK_BUFFER: usize = 128;

/// How many samples the task buffers.
pub const SAMPLE_LIMIT: usize = 512;

/// The processing cadence, in nanoseconds.
pub const TICK_NANOS: u128 = 1_000_000;

/// The work that one sample is given, in nanoseconds.
pub const EXEC_BUDGET_NANOS: u128 = 1_000_000;

/// Delay in milliseconds beyond which the downlink of a sample starts too late.
pub const INIT_DELAY_LIMIT_MS: u64 = 5;

/// The first position from `from` on that holds a lower priority than `p`, or the end.
pub open spec fn position_below(s: Seq<SensorData>, p: u8, from: int) -> int
    decreases s.len() - from,
{
    if from >= s.len() {
        s.len() as int
    } else if p > s[from].priority {
        from
    } else {
        position_below(s, p, from + 1)
    }
}

/// The first position that holds the lowest priority.
pub open spec fn first_lowest(s: Seq<SensorData>) -> int
    decreases s.len(),
{
    if s.len() <= 1 {
        0
    } else {
        let rest = first_lowest(s.drop_last());
        if s.last().priority < s[rest].priority {
            s.len() - 1
        } else {
            rest
        }
    }
}

/// `s` with `data` put before the first sample of lower priority.
pub open spec fn placed(s: Seq<SensorData>, data: SensorData) -> Seq<SensorData> {
    s.insert(position_below(s, data.priority, 0), data)
}

/// Whether a full buffer refuses `data`, its priority being below that of every resident.
pub open spec fn refused(s: Seq<SensorData>, data: SensorData) -> bool {
    s.len() >= SAMPLE_LIMIT && data.priority < s[first_lowest(s)].priority
}

/// The buffer after `data` came in: a full one refuses a sample below its lowest priority,
/// and otherwise gives up the first of its lowest.
pub open spec fn ingested(s: Seq<SensorData>, data: SensorData) -> Seq<SensorData> {
    if refused(s, data) {
        s
    } else if s.len() >= SAMPLE_LIMIT {
        placed(s.remove(first_lowest(s)), data)
    } else {
        placed(s, data)
    }
}

/// Whether the samples stand by falling priority.
pub open spec fn by_priority(s: Seq<SensorData>) -> bool {
    forall|i: int, j: int| 0 <= i <= j < s.len() ==> s[i].priority >= s[j].priority
}

proof fn lemma_position_below(s: Seq<SensorData>, p: u8, from: int)
    requires
        0 <= from <= s.len(),
    ensures
        from <= position_below(s, p, from) <= s.len(),
        forall|j: int| from <= j < position_below(s, p, from) ==> p <= (#[trigger] s[j]).priority,
        position_below(s, p, from) < s.len() ==> p > s[position_below(s, p, from)].priority,
    decreases s.len() - from,
{
    if from < s.len() && p <= s[from].priority {
        lemma_position_below(s, p, from + 1);
    }
}

proof fn lemma_first_lowest(s: Seq<SensorData>)
    requires
        s.len() > 0,
    ensures
        0 <= first_lowest(s) < s.len(),
        forall|j: int| 0 <= j < s.len() ==> s[first_lowest(s)].priority <= (#[trigger] s[j]).priority,
        forall|j: int|
            0 <= j < first_lowest(s) ==> s[first_lowest(s)].priority < (#[trigger] s[j]).priority,
    decreases s.len(),
{
    if s.len() > 1 {
        let rest = s.drop_last();
        lemma_first_lowest(rest);
        assert forall|j: int| 0 <= j < s.len() implies s[first_lowest(s)].priority <= (
        #[trigger] s[j]).priority by {
            if j < rest.len() {
                assert(rest[j] == s[j]);
            }
        }
        assert forall|j: int| 0 <= j < first_lowest(s) implies s[first_lowest(s)].priority < (
        #[trigger] s[j]).priority by {
            assert(rest[j] == s[j]);
        }
    }
}

/// The buffer stays ordered by priority and within its limit; and unless `data` is refused,
/// it goes behind every sample of its own or a higher priority.
pub proof fn law_buffer_stays_ordered_and_bounded(s: Seq<SensorData>, data: SensorData)
    requires
        by_priority(s),
        s.len() <= SAMPLE_LIMIT,
    ensures
        by_priority(ingested(s, data)),
        ingested(s, data).len() <= SAMPLE_LIMIT,
        !refused(s, data) ==> exists|at: int|
            #![trigger ingested(s, data)[at]]
            0 <= at < ingested(s, data).len() && ingested(s, data)[at] == data && (forall|j: int|
                at < j < ingested(s, data).len() ==> (#[trigger] ingested(s, data)[j]).priority
                    < data.priority),
{
    if !refused(s, data) {
        let base = if s.len() >= SAMPLE_LIMIT {
            s.remove(first_lowest(s))
        } else {
            s
        };
        if s.len() >= SAMPLE_LIMIT {
            lemma_first_lowest(s);
        }
        assert(by_priority(base)) by {
            assert forall|i: int, j: int| 0 <= i <= j < base.len() implies base[i].priority
                >= base[j].priority by {
                if s.len() >= SAMPLE_LIMIT {
                    let low = first_lowest(s);
                    let a = if i < low {
                        i
                    } else {
                        i + 1
                    };
                    let b = if j < low {
                        j
                    } else {
                        j + 1
                    };
                    assert(base[i] == s[a] && base[j] == s[b]);
                }
            }
        }
        let at = position_below(base, data.priority, 0);
        lemma_position_below(base, data.priority, 0);
        let r = ingested(s, data);
        assert(r == base.insert(at, data));
        assert(r[at] == data);
        assert forall|j: int| at < j < r.len() implies (#[trigger] r[j]).priority
            < data.priority by {
            assert(r[j] == base[j - 1]);
            assert(base[at].priority >= base[j - 1].priority);
        }
        assert forall|i: int, j: int| 0 <= i <= j < r.len() implies r[i].priority
            >= r[j].priority by {
            if i < at {
                assert(r[i] == base[i]);
            }
            if j > at {
                assert(r[j] == base[j - 1]);
            }
            if i > at {
                assert(r[i] == base[i - 1]);
            }
            if j < at {
                assert(r[j] == base[j]);
            }
        }
    }
}

/// A full buffer loses exactly one sample, the new one or the first of its lowest priority,
/// and everything that stays has at least the priority of what is lost. A buffer with room
/// loses nothing.
pub proof fn law_only_lowest_priority_is_lost(s: Seq<SensorData>, data: SensorData)
    requires
        s.len() <= SAMPLE_LIMIT,
    ensures
        ({
            let all = s.to_multiset().insert(data);
            let kept = ingested(s, data).to_multiset();
            if s.len() < SAMPLE_LIMIT {
                kept == all
            } else {
                let lost = if refused(s, data) {
                    data
                } else {
                    s[first_lowest(s)]
                };
                &&& kept == all.remove(lost)
                &&& forall|k: int|
                    0 <= k < ingested(s, data).len() ==> lost.priority <= (#[trigger] ingested(
                        s,
                        data,
                    )[k]).priority
            }
        }),
{
    broadcast use vstd::seq_lib::group_to_multiset_ensures;

    let low = first_lowest(s);
    if s.len() >= SAMPLE_LIMIT {
        lemma_first_lowest(s);
    }
    if refused(s, data) {
        assert(s.to_multiset().insert(data).remove(data) =~= s.to_multiset());
        assert forall|k: int| 0 <= k < s.len() implies data.priority <= (
        #[trigger] s[k]).priority by {
            assert(s[low].priority <= s[k].priority);
        }
    } else {
        let base = if s.len() >= SAMPLE_LIMIT {
            s.remove(low)
        } else {
            s
        };
        lemma_position_below(base, data.priority, 0);
        let at = position_below(base, data.priority, 0);
        let r = base.insert(at, data);
        assert(r.to_multiset() =~= base.to_multiset().insert(data)) by {
            vstd::seq_lib::to_multiset_insert(base, at, data);
        }
        if s.len() >= SAMPLE_LIMIT {
            let lost = s[low];
            vstd::seq_lib::to_multiset_remove(s, low);
            assert(base.to_multiset() =~= s.to_multiset().remove(lost));
            assert(s.to_multiset().count(lost) > 0);
            assert(r.to_multiset() =~= s.to_multiset().insert(data).remove(lost));
            assert forall|k: int| 0 <= k < r.len() implies lost.priority <= (
            #[trigger] r[k]).priority by {
                if k < at {
                    assert(r[k] == base[k]);
                } else if k > at {
                    assert(r[k] == base[k - 1]);
                }
            }
        }
    }
}

/// The longest silence of a sensor that is still in order, in nanoseconds: three of its
/// intervals.
pub open spec fn silence_limit(name: Seq<char>) -> int {
    if name == "TempSensor"@ {
        30_000_000
    } else if name == "AccelSensor"@ {
        36_000_000
    } else if name == "GyroSensor"@ {
        45_000_000
    } else {
        90_000_000
    }
}

/// How many slots one pass may take with this many samples waiting.
pub open spec fn slots_for(backlog: nat) -> nat {
    if backlog > 256 {
        256
    } else if backlog > 96 {
        128
    } else if backlog > 32 {
        64
    } else {
        32
    }
}

/// What the task holds.
#[verifier::ext_equal]
pub struct TaskView {
    pub buffer: Seq<SensorData>,
    /// When the next slot begins.
    pub expected_time: Instant,
    pub last_received: Option<Instant>,
    pub missed_cycles: nat,
    pub max_per_loop: nat,
    pub handled: nat,
}

impl TaskView {
    /// The buffer is ordered and within its limit, and its samples carry valid times.
    pub open spec fn wf(self) -> bool {
        &&& by_priority(self.buffer)
        &&& self.buffer.len() <= SAMPLE_LIMIT
        &&& forall|i: int| 0 <= i < self.buffer.len() ==> (#[trigger] self.buffer[i]).wf()
    }

    /// The name of the sample at the back, empty without one.
    pub open spec fn last_sensor(self) -> Seq<char> {
        if self.buffer.len() == 0 {
            Seq::empty()
        } else {
            self.buffer.last().name@
        }
    }

    /// After `data` came in at `now`.
    pub open spec fn after_ingest(self, data: SensorData, now: Instant) -> TaskView {
        TaskView {
            buffer: ingested(self.buffer, data),
            last_received: Some(now),
            missed_cycles: 0,
            ..self
        }
    }

    /// Whether the last sensor has been silent for too long at `now`.
    pub open spec fn is_silent(self, now: Instant) -> bool {
        match self.last_received {
            Some(last) => clock::positive_part(now.nanos - last.nanos) > silence_limit(
                self.last_sensor(),
            ),
            None => false,
        }
    }

    /// Whether the pass has a slot to fill at `now`.
    pub open spec fn slot_open(self, now: Instant) -> bool {
        now.nanos >= self.expected_time.nanos && self.handled < self.max_per_loop
    }

    /// After a slot was taken: the clock is a tick on, and the first sample is gone.
    pub open spec fn after_slot(self) -> TaskView {
        TaskView {
            buffer: if self.buffer.len() == 0 {
                self.buffer
            } else {
                self.buffer.skip(1)
            },
            expected_time: Instant { nanos: (self.expected_time.nanos + TICK_NANOS) as u128 },
            handled: self.handled + 1,
            ..self
        }
    }

    /// After `n` slots were taken.
    pub open spec fn after_slots(self, n: nat) -> TaskView
        decreases n,
    {
        if n == 0 {
            self
        } else {
            self.after_slots((n - 1) as nat).after_slot()
        }
    }
}

/// The summary after a sample came in `latency_ms` after it was generated, with `backlog`
/// samples waiting; `dropped` when one was lost.
pub open spec fn after_ingest_metrics(
    v: MonitorView,
    name: Seq<char>,
    latency_ms: int,
    backlog: nat,
    dropped: bool,
) -> MonitorView {
    let sat = v.sat_metrics.with_insert_latency(
        name,
        (clock::positive_part(latency_ms) * 1000) as nat,
    ).with_backlog(backlog);
    v.with_sat(
        if dropped {
            sat.with_buffer_drop()
        } else {
            sat
        },
    )
}

/// What became of a sample that came in.
pub enum Fate {
    Stored,
    /// The buffer is full of higher priorities; this is the new sample back.
    Refused(SensorData),
    /// The buffer was full; this is the resident that made room.
    Evicted(SensorData),
}

/// The coming in of a sample.
pub struct Ingest {
    /// From the sensor into the buffer.
    pub latency_ms: i64,
    pub fate: Fate,
}

/// The first position that holds the lowest priority.
fn find_lowest(buffer: &VecDeque<SensorData>) -> (r: usize)
    requires
        buffer@.len() > 0,
    ensures
        r == first_lowest(buffer@),
{
    let mut low: usize = 0;
    let mut i: usize = 1;
    assert(buffer@.take(1).len() == 1);
    while i < buffer.len()
        invariant
            1 <= i <= buffer@.len(),
            low < i,
            low == first_lowest(buffer@.take(i as int)),
        decreases buffer@.len() - i,
    {
        proof {
            let more = buffer@.take(i + 1);
            assert(more.drop_last() =~= buffer@.take(i as int));
            assert(more.last() == buffer@[i as int]);
            assert(more[low as int] == buffer@[low as int]);
        }
        if buffer[i].priority < buffer[low].priority {
            low = i;
        }
        i += 1;
    }
    assert(buffer@.take(i as int) =~= buffer@);
    low
}

/// The first position with a priority below `p`, or the end.
fn find_below(buffer: &VecDeque<SensorData>, p: u8) -> (r: usize)
    ensures
        r == position_below(buffer@, p, 0),
        r <= buffer@.len(),
{
    let mut i: usize = 0;
    while i < buffer.len() && p <= buffer[i].priority
        invariant
            i <= buffer@.len(),
            position_below(buffer@, p, i as int) == position_below(buffer@, p, 0),
        decreases buffer@.len() - i,
    {
        i += 1;
    }
    i
}

/// A task that takes samples in and processes them in slots of one millisecond.
pub struct TaskState {
    pub buffer: VecDeque<SensorData>,
    pub expected_time: Instant,
    pub last_received: Option<Instant>,
    pub missed_cycles: usize,
    pub max_per_loop: usize,
    pub handled: usize,
}

impl View for TaskState {
    type V = TaskView;

    open spec fn view(&self) -> TaskView {
        TaskView {
            buffer: self.buffer@,
            expected_time: self.expected_time,
            last_received: self.last_received,
            missed_cycles: self.missed_cycles as nat,
            max_per_loop: self.max_per_loop as nat,
            handled: self.handled as nat,
        }
    }
}

impl TaskState {
    /// A task without samples, whose first slot begins at `now`.
    pub fn new(now: Instant) -> (r: Self)
        ensures
            r@ == (TaskView {
                buffer: Seq::empty(),
                expected_time: now,
                last_received: None,
                missed_cycles: 0,
                max_per_loop: 0,
                handled: 0,
            }),
            r@.wf(),
    {
        TaskState {
            buffer: VecDeque::new(),
            expected_time: now,
            last_received: None,
            missed_cycles: 0,
            max_per_loop: 0,
            handled: 0,
        }
    }

    /// Takes in a sample that was received at `now`, or at `queued_at` by the calendar.
    pub fn ingest(
        &mut self,
        m: &mut MonitoringData,
        data: SensorData,
        queued_at: Timestamp,
        now: Instant,
    ) -> (r: Ingest)
        requires
            data.generated_at.wf(),
            queued_at.wf(),
            summary::stat_of(old(m)@.sat_metrics.insert_latency, data.name@).has_room(
                (clock::positive_part(clock::millis_between(queued_at, data.generated_at))
                    * 1000) as nat,
            ),
            old(m)@.sat_metrics.backlog_sum + old(self)@.buffer.len() <= u128::MAX,
            old(m)@.sat_metrics.backlog_count < u64::MAX,
            old(self)@.buffer.len() >= SAMPLE_LIMIT ==> old(m)@.sat_metrics.dropped_samples
                < u64::MAX,
        ensures
            ({
                let queued = SensorData { queued_at, ..data };
                let before = old(self)@.buffer;
                &&& r.latency_ms == clock::millis_between(queued_at, data.generated_at)
                &&& final(self)@ == old(self)@.after_ingest(queued, now)
                &&& match r.fate {
                    Fate::Stored => before.len() < SAMPLE_LIMIT,
                    Fate::Refused(lost) => refused(before, queued) && lost == queued,
                    Fate::Evicted(lost) => before.len() >= SAMPLE_LIMIT && !refused(before, queued)
                        && lost == before[first_lowest(before)],
                }
                &&& final(m)@ == after_ingest_metrics(
                    old(m)@,
                    data.name@,
                    r.latency_ms as int,
                    before.len(),
                    before.len() >= SAMPLE_LIMIT,
                )
                &&& old(self)@.wf() ==> final(self)@.wf()
            }),
    {
        let mut data: SensorData = data;
        data.queued_at = queued_at;
        let ghost before = self.buffer@;
        let ghost queued = data;
        let latency_ms: i64 = clock::elapsed_millis(queued_at, data.generated_at);
        let latency: Duration = Duration::from_millis(
            if latency_ms > 0 {
                latency_ms as u64
            } else {
                0
            },
        );
        assert(latency.micros() == clock::positive_part(latency_ms as int) * 1000);
        monitor::record_insert_latency(m, data.name.as_str(), latency);
        monitor::record_backlog(m, self.buffer.len());
        self.last_received = Some(now);
        self.missed_cycles = 0;
        proof {
            if old(self)@.wf() {
                lemma_ingest_keeps_samples(before, queued);
                law_buffer_stays_ordered_and_bounded(before, queued);
            }
        }
        let mut fate: Fate = Fate::Stored;
        if self.buffer.len() >= SAMPLE_LIMIT {
            let low: usize = find_lowest(&self.buffer);
            proof {
                lemma_first_lowest(before);
            }
            monitor::record_buffer_drop(m);
            if data.priority < self.buffer[low].priority {
                return Ingest { latency_ms, fate: Fate::Refused(data) };
            }
            if let Some(lost) = self.buffer.remove(low) {
                fate = Fate::Evicted(lost);
            }
        }
        let at: usize = find_below(&self.buffer, data.priority);
        self.buffer.insert(at, data);
        Ingest { latency_ms, fate }
    }

    /// Counts a pass during which the last sensor was silent for too long, and gives the
    /// safety alert when that is the third in a row for the temperature.
    pub fn check_missed_data(&mut self, now: Instant) -> (alert: bool)
        requires
            old(self)@.is_silent(now) ==> old(self)@.missed_cycles < usize::MAX,
        ensures
            final(self)@ == (TaskView {
                missed_cycles: if old(self)@.is_silent(now) {
                    old(self)@.missed_cycles + 1
                } else if old(self)@.last_received is Some {
                    0
                } else {
                    old(self)@.missed_cycles
                },
                ..old(self)@
            }),
            alert == (old(self)@.is_silent(now) && old(self)@.last_sensor() == "TempSensor"@
                && final(self)@.missed_cycles >= 3),
    {
        if let Some(last) = self.last_received {
            let elapsed: Duration = now.duration_since(last);
            let count: usize = self.buffer.len();
            let name: &str = if count > 0 {
                self.buffer[count - 1].name.as_str()
            } else {
                ""
            };
            proof {
                reveal_strlit("");
                assert(name@ =~= self@.last_sensor());
            }
            let temperature: bool = text::same_text(name, "TempSensor");
            let limit: Duration = if temperature {
                Duration { nanos: 30_000_000 }
            } else if text::same_text(name, "AccelSensor") {
                Duration { nanos: 36_000_000 }
            } else if text::same_text(name, "GyroSensor") {
                Duration { nanos: 45_000_000 }
            } else {
                Duration { nanos: 90_000_000 }
            };
            if elapsed.nanos > limit.nanos {
                self.missed_cycles += 1;
                return temperature && self.missed_cycles >= 3;
            }
            self.missed_cycles = 0;
        }
        false
    }

    /// Begins a pass: the larger the backlog, the more slots it may take.
    pub fn begin_pass(&mut self)
        ensures
            final(self)@ == (TaskView {
                max_per_loop: slots_for(old(self)@.buffer.len()),
                handled: 0,
                ..old(self)@
            }),
    {
        let backlog: usize = self.buffer.len();
        self.max_per_loop = if backlog > 256 {
            256
        } else if backlog > 96 {
            128
        } else if backlog > 32 {
            64
        } else {
            32
        };
        self.handled = 0;
    }

    /// Takes the next slot of the pass, if there is one at `now`.
    pub fn next_slot(&mut self, now: Instant) -> (r: Slot)
        requires
            old(self)@.slot_open(now) ==> old(self)@.expected_time.nanos + TICK_NANOS <= u128::MAX,
        ensures
            match r {
                Slot::Closed => !old(self)@.slot_open(now) && final(self)@ == old(self)@,
                Slot::Idle => old(self)@.slot_open(now) && old(self)@.buffer.len() == 0
                    && final(self)@ == old(self)@.after_slot(),
                Slot::Sample(data) => old(self)@.slot_open(now) && old(self)@.buffer.len() > 0
                    && data == old(self)@.buffer[0] && final(self)@ == old(self)@.after_slot(),
            },
            old(self)@.wf() ==> final(self)@.wf(),
            old(self)@.wf() ==> (r matches Slot::Sample(data) ==> data.wf()),
    {
        if now.nanos >= self.expected_time.nanos && self.handled < self.max_per_loop {
            self.expected_time = self.expected_time.plus(Duration { nanos: TICK_NANOS });
            self.handled += 1;
            match self.buffer.pop_front() {
                Some(data) => {
                    assert(self.buffer@ =~= old(self)@.buffer.skip(1));
                    Slot::Sample(data)
                },
                None => Slot::Idle,
            }
        } else {
            Slot::Closed
        }
    }

    /// How long to sleep after a pass.
    pub fn pause(&self) -> (r: Duration)
        ensures
            r.nanos == if self@.buffer.len() == 0 {
                2_000_000int
            } else {
                200_000int
            },
    {
        if self.buffer.len() == 0 {
            Duration::from_millis(2)
        } else {
            Duration::from_micros(200)
        }
    }
}

proof fn lemma_ingest_keeps_samples(s: Seq<SensorData>, data: SensorData)
    requires
        forall|i: int| 0 <= i < s.len() ==> (#[trigger] s[i]).wf(),
        data.wf(),
    ensures
        forall|i: int|
            0 <= i < ingested(s, data).len() ==> (#[trigger] ingested(s, data)[i]).wf(),
{
    if !refused(s, data) {
        let base = if s.len() >= SAMPLE_LIMIT {
            s.remove(first_lowest(s))
        } else {
            s
        };
        if s.len() >= SAMPLE_LIMIT {
            lemma_first_lowest(s);
        }
        lemma_position_below(base, data.priority, 0);
    }
}

/// A slot of the pass.
pub enum Slot {
    /// None is left now.
    Closed,
    /// No sample is waiting.
    Idle,
    Sample(SensorData),
}

/// The sample that is handed out next has the highest priority of all that wait, and the
/// others keep their order.
pub proof fn law_highest_priority_first(v: TaskView)
    requires
        v.wf(),
        v.buffer.len() > 0,
    ensures
        forall|i: int|
            0 <= i < v.buffer.len() ==> v.buffer[0].priority >= (#[trigger] v.buffer[i]).priority,
        v.after_slot().buffer == v.buffer.skip(1),
        v.after_slot().wf(),
{
}

/// Slots keep their cadence however late they are taken: each moves the clock by exactly one
/// tick, and together they hand out the samples from the front, one for each slot.
pub proof fn law_slots_keep_cadence(v: TaskView, n: nat)
    requires
        v.expected_time.nanos + n * TICK_NANOS <= u128::MAX,
    ensures
        v.after_slots(n).expected_time.nanos == v.expected_time.nanos + n * TICK_NANOS,
        v.after_slots(n).handled == v.handled + n,
        v.after_slots(n).buffer == if n < v.buffer.len() {
            v.buffer.skip(n as int)
        } else {
            Seq::empty()
        },
    decreases n,
{
    lemma_slots_take_front(v, n);
    if n > 0 {
        law_slots_keep_cadence(v, (n - 1) as nat);
    }
}

/// A sample as it comes into the buffer, and when.
pub struct Arrival {
    pub data: SensorData,
    pub now: Instant,
}

/// The task and the monitor after all of `arrivals`, in order.
pub open spec fn after_arrivals(t: TaskView, v: MonitorView, arrivals: Seq<Arrival>) -> (
    TaskView,
    MonitorView,
)
    decreases arrivals.len(),
{
    if arrivals.len() == 0 {
        (t, v)
    } else {
        let (before, w) = after_arrivals(t, v, arrivals.drop_last());
        let a = arrivals.last();
        (
            before.after_ingest(a.data, a.now),
            after_ingest_metrics(
                w,
                a.data.name@,
                clock::millis_between(a.data.queued_at, a.data.generated_at),
                before.buffer.len(),
                before.buffer.len() >= SAMPLE_LIMIT,
            ),
        )
    }
}

/// Whether arrival `i` counts for less than arrival `j`: its priority is lower, or the same
/// and it is older.
pub open spec fn outranked(arrivals: Seq<Arrival>, i: int, j: int) -> bool {
    arrivals[i].data.priority < arrivals[j].data.priority || (arrivals[i].data.priority
        == arrivals[j].data.priority && i < j)
}

/// Whether arrival `i` is handed out before arrival `j`: its priority is higher, or the same
/// and it is older.
pub open spec fn goes_before(arrivals: Seq<Arrival>, i: int, j: int) -> bool {
    arrivals[i].data.priority > arrivals[j].data.priority || (arrivals[i].data.priority
        == arrivals[j].data.priority && i < j)
}

/// Whether `buffer` holds the arrivals whose numbers are in `kept`: each number once, in the
/// order of handing out, and every other arrival counts for less than each of them.
pub open spec fn keeps_greatest(
    buffer: Seq<SensorData>,
    arrivals: Seq<Arrival>,
    kept: Seq<int>,
) -> bool {
    &&& buffer.len() == kept.len()
    &&& forall|j: int|
        0 <= j < kept.len() ==> 0 <= #[trigger] kept[j] < arrivals.len() && buffer[j]
            == arrivals[kept[j]].data
    &&& forall|j: int, k: int|
        0 <= j < k < kept.len() ==> goes_before(arrivals, #[trigger] kept[j], #[trigger] kept[k])
    &&& forall|i: int, j: int|
        0 <= i < arrivals.len() && 0 <= j < kept.len() && !kept.contains(i)
            ==> #[trigger] outranked(arrivals, i, kept[j])
    &&& arrivals.len() <= SAMPLE_LIMIT ==> forall|i: int|
        0 <= i < arrivals.len() ==> #[trigger] kept.contains(i)
}

proof fn lemma_placed_keeps(
    base: Seq<SensorData>,
    arrivals: Seq<Arrival>,
    kept: Seq<int>,
) -> (next: Seq<int>)
    requires
        arrivals.len() > 0,
        base.len() == kept.len(),
        forall|j: int|
            0 <= j < kept.len() ==> 0 <= #[trigger] kept[j] < arrivals.len() - 1 && base[j]
                == arrivals[kept[j]].data,
        forall|j: int, k: int|
            0 <= j < k < kept.len() ==> goes_before(
                arrivals,
                #[trigger] kept[j],
                #[trigger] kept[k],
            ),
    ensures
        ({
            let n = arrivals.len() - 1;
            let buffer = placed(base, arrivals[n].data);
            &&& buffer.len() == next.len()
            &&& next.len() == kept.len() + 1
            &&& forall|j: int|
                0 <= j < next.len() ==> 0 <= #[trigger] next[j] < arrivals.len() && buffer[j]
                    == arrivals[next[j]].data
            &&& forall|j: int, k: int|
                0 <= j < k < next.len() ==> goes_before(
                    arrivals,
                    #[trigger] next[j],
                    #[trigger] next[k],
                )
            &&& forall|i: int| #[trigger] next.contains(i) <==> kept.contains(i) || i == n
        }),
{
    let n = arrivals.len() - 1;
    let data = arrivals[n].data;
    let at = position_below(base, data.priority, 0);
    lemma_position_below(base, data.priority, 0);
    let next = kept.insert(at, n);
    let buffer = placed(base, data);
    assert forall|j: int| 0 <= j < next.len() implies 0 <= #[trigger] next[j] < arrivals.len()
        && buffer[j] == arrivals[next[j]].data by {
        if j < at {
            assert(next[j] == kept[j] && buffer[j] == base[j]);
        } else if j > at {
            assert(next[j] == kept[j - 1] && buffer[j] == base[j - 1]);
        }
    }
    assert forall|j: int, k: int| 0 <= j < k < next.len() implies goes_before(
        arrivals,
        #[trigger] next[j],
        #[trigger] next[k],
    ) by {
        if k == at {
            assert(next[j] == kept[j]);
            assert(base[j].priority >= data.priority);
        } else if j == at {
            assert(next[k] == kept[k - 1]);
            assert(base[at] == arrivals[kept[at]].data);
            assert(base[k - 1] == arrivals[kept[k - 1]].data);
            if k - 1 > at {
                assert(goes_before(arrivals, kept[at], kept[k - 1]));
            }
        } else {
            let a = if j < at {
                j
            } else {
                j - 1
            };
            let b = if k < at {
                k
            } else {
                k - 1
            };
            assert(next[j] == kept[a] && next[k] == kept[b]);
        }
    }
    assert forall|i: int| #[trigger] next.contains(i) <==> kept.contains(i) || i == n by {
        if kept.contains(i) {
            let j = kept.index_of(i);
            assert(next[if j < at {
                j
            } else {
                j + 1
            }] == i);
        }
        if i == n {
            assert(next[at] == n);
        }
        if next.contains(i) && i != n {
            let j = next.index_of(i);
            assert(kept[if j < at {
                j
            } else {
                j - 1
            }] == i);
        }
    }
    next
}

proof fn lemma_arrival_keeps_greatest(
    s: Seq<SensorData>,
    arrivals: Seq<Arrival>,
    kept: Seq<int>,
) -> (next: Seq<int>)
    requires
        arrivals.len() > 0,
        keeps_greatest(s, arrivals.drop_last(), kept),
        s.len() <= SAMPLE_LIMIT,
        arrivals.len() - 1 <= SAMPLE_LIMIT ==> s.len() == arrivals.len() - 1,
        arrivals.len() - 1 >= SAMPLE_LIMIT ==> s.len() == SAMPLE_LIMIT,
    ensures
        keeps_greatest(ingested(s, arrivals.last().data), arrivals, next),
        next.len() == if s.len() < SAMPLE_LIMIT {
            s.len() + 1
        } else {
            s.len()
        },
{
    let n = arrivals.len() - 1;
    let before = arrivals.drop_last();
    let data = arrivals.last().data;
    assert forall|j: int| 0 <= j < kept.len() implies 0 <= #[trigger] kept[j] < n && s[j]
        == arrivals[kept[j]].data by {
        assert(before[kept[j]] == arrivals[kept[j]]);
    }
    assert forall|j: int, k: int| 0 <= j < k < kept.len() implies goes_before(
        arrivals,
        #[trigger] kept[j],
        #[trigger] kept[k],
    ) by {
        assert(goes_before(before, kept[j], kept[k]));
    }
    assert forall|i: int, j: int|
        0 <= i < n && 0 <= j < kept.len() && !kept.contains(i) implies #[trigger] outranked(
        arrivals,
        i,
        kept[j],
    ) by {
        assert(outranked(before, i, kept[j]));
    }
    if s.len() < SAMPLE_LIMIT {
        let next = lemma_placed_keeps(s, arrivals, kept);
        assert forall|i: int| 0 <= i < arrivals.len() implies #[trigger] next.contains(i) by {
            if i < n {
                assert(kept.contains(i));
            }
        }
        next
    } else {
        let low = first_lowest(s);
        lemma_first_lowest(s);
        if refused(s, data) {
            assert forall|i: int, j: int|
                0 <= i < arrivals.len() && 0 <= j < kept.len() && !kept.contains(
                    i,
                ) implies #[trigger] outranked(arrivals, i, kept[j]) by {
                if i == n {
                    assert(s[low].priority <= s[j].priority);
                }
            }
            kept
        } else {
            let gone = kept[low];
            let base = s.remove(low);
            let rest = kept.remove(low);
            assert forall|j: int| 0 <= j < rest.len() implies 0 <= #[trigger] rest[j] < n
                && base[j] == arrivals[rest[j]].data by {
                let a = if j < low {
                    j
                } else {
                    j + 1
                };
                assert(rest[j] == kept[a] && base[j] == s[a]);
            }
            assert forall|j: int, k: int| 0 <= j < k < rest.len() implies goes_before(
                arrivals,
                #[trigger] rest[j],
                #[trigger] rest[k],
            ) by {
                let a = if j < low {
                    j
                } else {
                    j + 1
                };
                let b = if k < low {
                    k
                } else {
                    k + 1
                };
                assert(rest[j] == kept[a] && rest[k] == kept[b]);
            }
            let next = lemma_placed_keeps(base, arrivals, rest);
            assert forall|j: int| 0 <= j < rest.len() implies outranked(
                arrivals,
                gone,
                #[trigger] rest[j],
            ) by {
                if j < low {
                    assert(rest[j] == kept[j]);
                    assert(s[low].priority < s[j].priority);
                } else {
                    assert(rest[j] == kept[j + 1]);
                    assert(s[low].priority <= s[j + 1].priority);
                    assert(goes_before(arrivals, kept[low], kept[j + 1]));
                }
            }
            assert forall|i: int, j: int|
                0 <= i < arrivals.len() && 0 <= j < next.len() && !next.contains(
                    i,
                ) implies #[trigger] outranked(arrivals, i, next[j]) by {
                assert(next.contains(next[j]));
                assert(outranked(arrivals, gone, next[j])) by {
                    if next[j] != n {
                        let k = rest.index_of(next[j]);
                        assert(rest[k] == next[j]);
                    }
                }
                if i != gone {
                    if kept.contains(i) {
                        let k = kept.index_of(i);
                        assert(rest[if k < low {
                            k
                        } else {
                            k - 1
                        }] == i);
                        assert(next.contains(i));
                    }
                    assert(outranked(arrivals, i, kept[low]));
                }
            }
            next
        }
    }
}

proof fn lemma_arrivals_kept(t: TaskView, v: MonitorView, arrivals: Seq<Arrival>) -> (kept: Seq<
    int,
>)
    requires
        t.buffer.len() == 0,
    ensures
        ({
            let (after, w) = after_arrivals(t, v, arrivals);
            let n = arrivals.len();
            &&& keeps_greatest(after.buffer, arrivals, kept)
            &&& after.buffer.len() == if n < SAMPLE_LIMIT {
                n
            } else {
                SAMPLE_LIMIT as nat
            }
            &&& w.sat_metrics.dropped_samples == v.sat_metrics.dropped_samples
                + clock::positive_part(n - SAMPLE_LIMIT)
        }),
    decreases arrivals.len(),
{
    if arrivals.len() == 0 {
        Seq::empty()
    } else {
        let before = arrivals.drop_last();
        let kept = lemma_arrivals_kept(t, v, before);
        let (state, _) = after_arrivals(t, v, before);
        lemma_arrival_keeps_greatest(state.buffer, arrivals, kept)
    }
}

proof fn lemma_slots_take_front(v: TaskView, n: nat)
    ensures
        v.after_slots(n).buffer == if n < v.buffer.len() {
            v.buffer.skip(n as int)
        } else {
            Seq::empty()
        },
    decreases n,
{
    if n > 0 {
        lemma_slots_take_front(v, (n - 1) as nat);
    } else {
        assert(v.buffer.skip(0) =~= v.buffer);
    }
}

/// Of any run of samples into an empty buffer, the 512 that are greatest by priority and then
/// by arrival are kept: no sample is lost that has a higher priority than a kept one, and of
/// the same priority only the oldest are lost. Every sample beyond the limit costs exactly one
/// drop. What is kept is handed out by falling priority, then by arrival.
pub proof fn law_greatest_samples_are_kept(t: TaskView, v: MonitorView, arrivals: Seq<Arrival>)
    requires
        t.buffer.len() == 0,
    ensures
        ({
            let (after, w) = after_arrivals(t, v, arrivals);
            let n = arrivals.len();
            &&& after.buffer.len() == if n < SAMPLE_LIMIT {
                n
            } else {
                SAMPLE_LIMIT as nat
            }
            &&& w.sat_metrics.dropped_samples == v.sat_metrics.dropped_samples
                + clock::positive_part(n - SAMPLE_LIMIT)
            &&& exists|kept: Seq<int>|
                {
                    &&& #[trigger] keeps_greatest(after.buffer, arrivals, kept)
                    &&& kept.no_duplicates()
                    &&& forall|k: nat|
                        k < kept.len() ==> (#[trigger] after.after_slots(k)).buffer[0]
                            == arrivals[kept[k as int]].data
                }
        }),
{
    let (after, _) = after_arrivals(t, v, arrivals);
    let kept = lemma_arrivals_kept(t, v, arrivals);
    assert(keeps_greatest(after.buffer, arrivals, kept));
    assert forall|j: int, k: int|
        0 <= j < kept.len() && 0 <= k < kept.len() && j != k implies kept[j] != kept[k] by {
        if j < k {
            assert(goes_before(arrivals, kept[j], kept[k]));
        } else {
            assert(goes_before(arrivals, kept[k], kept[j]));
        }
    }
    assert forall|k: nat| k < kept.len() implies (#[trigger] after.after_slots(k)).buffer[0]
        == arrivals[kept[k as int]].data by {
        lemma_slots_take_front(after, k);
        assert(after.buffer[k as int] == arrivals[kept[k as int]].data);
    }
}

/// The start of the processing of a sample.
pub struct Processing {
    /// How late the slot began.
    pub drift: Duration,
    /// How long ago the sample was generated.
    pub e2e_ms: i64,
    pub init_delay_ms: u64,
    /// The log line of a downlink that starts too late.
    pub missed_downlink: Option<String>,
    /// The sample comes from the critical sensor.
    pub critical: bool,
}

/// The beginning of the slot that ends at `expected_time`.
pub open spec fn slot_start(expected_time: Instant) -> int {
    if expected_time.nanos >= TICK_NANOS {
        expected_time.nanos - TICK_NANOS
    } else {
        expected_time.nanos as int
    }
}

/// Starts the processing of a sample at `now`, or at `now_utc` by the calendar, in the slot
/// that ends at `expected_time`. The lateness of the slot is recorded.
pub fn start_processing(
    m: &mut MonitoringData,
    data: &SensorData,
    expected_time: Instant,
    now: Instant,
    now_utc: Timestamp,
) -> (r: Processing)
    requires
        data.generated_at.wf(),
        now_utc.wf(),
        old(m)@.sat_metrics.scheduling_drift.has_room(
            (clock::positive_part(now.nanos - slot_start(expected_time)) / 1000) as nat,
        ),
    ensures
        r.drift.nanos == clock::positive_part(now.nanos - slot_start(expected_time)),
        r.e2e_ms == clock::millis_between(now_utc, data.generated_at),
        r.init_delay_ms == clock::positive_part(r.e2e_ms as int),
        match r.missed_downlink {
            Some(line) => r.init_delay_ms > INIT_DELAY_LIMIT_MS && line@
                == "📡 Missed downlink for "@ + data.name@ + " | latency="@
                + text::signed_decimal(r.init_delay_ms as int) + "ms"@,
            None => r.init_delay_ms <= INIT_DELAY_LIMIT_MS,
        },
        r.missed_downlink is Some <==> clock::millis_between(now_utc, data.generated_at) > 5,
        r.critical == (data.name@ == "TempSensor"@),
        final(m)@ == old(m)@.with_sat(old(m)@.sat_metrics.with_sched_drift(r.drift.micros())),
{
    let start: Instant = if expected_time.nanos >= TICK_NANOS {
        Instant { nanos: expected_time.nanos - TICK_NANOS }
    } else {
        expected_time
    };
    let drift: Duration = now.duration_since(start);
    let e2e_ms: i64 = clock::elapsed_millis(now_utc, data.generated_at);
    let init_delay_ms: u64 = if e2e_ms > 0 {
        e2e_ms as u64
    } else {
        0
    };
    monitor::record_sched_drift(m, drift);
    let missed_downlink: Option<String> = if init_delay_ms > INIT_DELAY_LIMIT_MS {
        Some(monitor::record_missed_downlink(data.name.as_str(), init_delay_ms as i64))
    } else {
        None
    };
    Processing {
        drift,
        e2e_ms,
        init_delay_ms,
        missed_downlink,
        critical: text::same_text(data.name.as_str(), "TempSensor"),
    }
}

/// Whether the work on a sample that began at `exec_start` is over at `now`: its time is
/// up, or the critical sensor asks for the processor.
pub fn is_work_over(exec_start: Instant, now: Instant, critical: bool) -> (r: bool)
    ensures
        r == (now.nanos >= exec_start.nanos + EXEC_BUDGET_NANOS || critical),
        !critical ==> (r <==> now.nanos >= exec_start.nanos + 1_000_000),
{
    now.duration_since(exec_start).nanos >= EXEC_BUDGET_NANOS || critical
}

/// How far the work on a sample was off its budget.
pub fn exec_jitter(exec_duration: Duration) -> (r: Duration)
    ensures
        r.nanos == clock::distance(exec_duration.nanos as int, EXEC_BUDGET_NANOS as int),
{
    exec_duration.abs_diff(Duration { nanos: EXEC_BUDGET_NANOS })
}

/// How long a sample waited before it was buffered.
pub struct Preparation {
    pub elapsed_ms: i64,
    /// The log line of a downlink that was prepared too late.
    pub missed_downlink: Option<String>,
}

/// How long `data` waited before it was buffered, and whether that was too long for its
/// communication window.
pub fn check_preparation(data: &SensorData) -> (r: Preparation)
    requires
        data.wf(),
    ensures
        r.elapsed_ms == clock::millis_between(data.queued_at, data.generated_at),
        match r.missed_downlink {
            Some(line) => r.elapsed_ms > downlink::PREPARATION_LIMIT_MS && line@
                == "📡 Missed downlink for "@ + data.name@ + " | latency="@
                + text::signed_decimal(r.elapsed_ms as int) + "ms"@,
            None => r.elapsed_ms <= downlink::PREPARATION_LIMIT_MS,
        },
        r.missed_downlink is Some <==> clock::millis_between(data.queued_at, data.generated_at) > 30,
{
    let elapsed_ms: i64 = clock::elapsed_millis(data.queued_at, data.generated_at);
    let missed_downlink: Option<String> = if elapsed_ms > downlink::PREPARATION_LIMIT_MS {
        Some(monitor::record_missed_downlink(data.name.as_str(), elapsed_ms))
    } else {
        None
    };
    Preparation { elapsed_ms, missed_downlink }
}

/// What the downlink buffer does with a packet.
pub enum Offer {
    /// It is full; this is the packet back.
    Full(DownlinkPacket),
    /// It took the packet; `degraded` when it is now filled above four fifths.
    Taken { degraded: bool },
}

/// The downlink buffer after `packet` was offered to it.
pub open spec fn offered(ring: Seq<DownlinkPacket>, packet: DownlinkPacket) -> Seq<DownlinkPacket> {
    if ring.len() >= MAX_DOWNLINK_BUFFER {
        ring
    } else {
        ring.push(packet)
    }
}

/// The monitor after a packet was offered to a downlink buffer that held `len`.
pub open spec fn after_offer(v: MonitorView, len: nat) -> MonitorView {
    if len >= MAX_DOWNLINK_BUFFER {
        v.with_sat(v.sat_metrics.with_buffer_drop())
    } else {
        v
    }
}

/// Puts a packet into the downlink buffer, unless that is full.
pub fn offer_downlink(
    ring: &mut VecDeque<DownlinkPacket>,
    m: &mut MonitoringData,
    packet: DownlinkPacket,
) -> (r: Offer)
    requires
        old(ring)@.len() >= MAX_DOWNLINK_BUFFER ==> old(m)@.sat_metrics.dropped_samples < u64::MAX,
    ensures
        match r {
            Offer::Full(back) => old(ring)@.len() >= MAX_DOWNLINK_BUFFER && back == packet,
            Offer::Taken { degraded } => old(ring)@.len() < MAX_DOWNLINK_BUFFER && degraded
                == downlink::over_four_fifths(final(ring)@.len(), MAX_DOWNLINK_BUFFER as nat),
        },
        final(ring)@ == offered(old(ring)@, packet),
        final(m)@ == after_offer(old(m)@, old(ring)@.len()),
        old(ring)@.len() <= MAX_DOWNLINK_BUFFER ==> final(ring)@.len() <= MAX_DOWNLINK_BUFFER,
{
    if ring.len() >= MAX_DOWNLINK_BUFFER {
        monitor::record_buffer_drop(m);
        Offer::Full(packet)
    } else {
        ring.push_back(packet);
        proof {
            downlink::law_degraded_above_four_fifths(ring@.len(), MAX_DOWNLINK_BUFFER as nat);
        }
        Offer::Taken { degraded: downlink::is_degraded(ring.len(), MAX_DOWNLINK_BUFFER) }
    }
}

/// What the ground station had to say of a packet right after it was sent.
pub enum Answer {
    /// The packet could not be sent.
    NotSent,
    Received(String),
    /// Nothing yet.
    Pending,
    /// The channel for the answer is closed.
    Lost,
}

/// The summary after a packet with this answer.
pub open spec fn after_answer(v: MonitorView, answer: Answer) -> MonitorView {
    let sat = v.sat_metrics;
    v.with_sat(
        match answer {
            Answer::NotSent => sat.with_downlink_dropped(),
            Answer::Lost => sat.with_downlink_sent().with_downlink_dropped(),
            _ => sat.with_downlink_sent(),
        },
    )
}

/// The message that an answer came in.
pub open spec fn answer_text(
    task_name: Seq<char>,
    sensor: Seq<char>,
    id: u64,
    answer: Seq<char>,
    rtt: Duration,
) -> Seq<char> {
    "📬 ["@ + task_name + "] ["@ + sensor + "] Ground response received for pkt id="@
        + text::decimal(id as nat) + " | resp='"@ + answer + "' | RTT ≈ "@ + text::decimal(
        rtt.millis(),
    ) + " ms"@
}

/// The message that the command in an answer is carried out.
pub open spec fn command_text(task_name: Seq<char>, answer: Seq<char>) -> Seq<char> {
    "["@ + task_name + "] Executing command from ground: '"@ + answer + "'"@
}

/// The two messages for the ground log that an answer gives.
pub struct AnswerMessages {
    pub response: String,
    pub command: String,
}

/// Counts the sending of a packet and the answer to it, and gives the messages for the
/// ground log when there is an answer.
pub fn settle_downlink(
    m: &mut MonitoringData,
    task_name: &str,
    sensor: &str,
    id: u64,
    answer: Answer,
    rtt: Duration,
) -> (r: Option<AnswerMessages>)
    requires
        answer !is NotSent ==> old(m)@.sat_metrics.downlink_sent < u64::MAX,
        answer is NotSent || answer is Lost ==> old(m)@.sat_metrics.downlink_dropped < u64::MAX,
    ensures
        final(m)@ == after_answer(old(m)@, answer),
        match r {
            Some(messages) => answer matches Answer::Received(words) && messages.response@
                == answer_text(task_name@, sensor@, id, words@, rtt) && messages.command@
                == command_text(task_name@, words@) && messages.response@ == "📬 ["@ + task_name@
                + "] ["@ + sensor@ + "] Ground response received for pkt id="@ + text::decimal(
                id as nat,
            ) + " | resp='"@ + words@ + "' | RTT ≈ "@ + text::decimal(rtt.millis()) + " ms"@
                && messages.command@ == "["@ + task_name@ + "] Executing command from ground: '"@
                + words@ + "'"@,
            None => answer !is Received,
        },
{
    match answer {
        Answer::NotSent => {
            monitor::record_downlink_dropped(m);
            None
        },
        Answer::Received(words) => {
            monitor::record_downlink_sent(m);
            let mut response: String = text::join3("📬 [", task_name, "] [");
            response.append(sensor);
            response.append("] Ground response received for pkt id=");
            response.append(text::number(id as u128).as_str());
            response.append(" | resp='");
            response.append(words.as_str());
            response.append("' | RTT ≈ ");
            response.append(text::number(rtt.as_millis()).as_str());
            response.append(" ms");
            let mut command: String = text::join3(
                "[",
                task_name,
                "] Executing command from ground: '",
            );
            command.append(words.as_str());
            command.append("'");
            Some(AnswerMessages { response, command })
        },
        Answer::Pending => {
            monitor::record_downlink_sent(m);
            None
        },
        Answer::Lost => {
            monitor::record_downlink_sent(m);
            monitor::record_downlink_dropped(m);
            None
        },
    }
}

/// Each packet is counted as sent or as dropped, and as both only when the channel for its
/// answer was closed.
pub proof fn law_every_packet_is_counted(v: MonitorView, answer: Answer)
    ensures
        ({
            let before = v.sat_metrics;
            let after = after_answer(v, answer).sat_metrics;
            let sent = after.downlink_sent - before.downlink_sent;
            let dropped = after.downlink_dropped - before.downlink_dropped;
            &&& sent + dropped == if answer is Lost {
                2int
            } else {
                1int
            }
            &&& sent == 0 <==> answer is NotSent
        }),
{
}

/// A processed sample becomes one packet. The downlink buffer takes it unless it is full, then
/// it stays as it is and one drop is counted; either way the packet is offered to the link,
/// and as long as the channel for its answer is open it counts once, as sent or as dropped.
pub proof fn law_sample_becomes_one_packet(
    v: MonitorView,
    ring: Seq<DownlinkPacket>,
    packet: DownlinkPacket,
    answer: Answer,
)
    requires
        ring.len() <= MAX_DOWNLINK_BUFFER,
        answer !is Lost,
    ensures
        ({
            let before = v.sat_metrics;
            let after = after_answer(after_offer(v, ring.len()), answer).sat_metrics;
            let full = ring.len() == MAX_DOWNLINK_BUFFER;
            &&& offered(ring, packet).len() <= MAX_DOWNLINK_BUFFER
            &&& full ==> offered(ring, packet) == ring
            &&& !full ==> offered(ring, packet) == ring.push(packet)
            &&& after.dropped_samples == before.dropped_samples + if full {
                1int
            } else {
                0int
            }
            &&& if answer is NotSent {
                after.downlink_sent == before.downlink_sent && after.downlink_dropped
                    == before.downlink_dropped + 1
            } else {
                after.downlink_sent == before.downlink_sent + 1 && after.downlink_dropped
                    == before.downlink_dropped
            }
        }),
{
}

/// The message that `task_name` completed its work in the time that `elapsed` shows.
pub fn work_message(task_name: &str, elapsed: &str) -> (r: String)
    ensures
        r@ == "✅ ["@ + task_name@ + "] Completed in "@ + elapsed@,
{
    let mut r: String = text::join3("✅ [", task_name, "] Completed in ");
    r.append(elapsed);
    r
}

/// A sample goes behind every sample of its own or a higher priority that comes before the
/// first of a lower one, and the residents keep their order. With 512 residents it is refused
/// exactly when each of them has a higher priority; otherwise the first of those with the lowest
/// priority makes room.
pub proof fn law_sample_finds_its_place(s: Seq<SensorData>, data: SensorData)
    ensures
        s.len() > 0 ==> 0 <= first_lowest(s) < s.len(),
        forall|j: int| 0 <= j < s.len() ==> s[first_lowest(s)].priority <= (#[trigger] s[j]).priority,
        forall|j: int|
            0 <= j < first_lowest(s) && s.len() > 0 ==> s[first_lowest(s)].priority < (
            #[trigger] s[j]).priority,
        refused(s, data) <==> s.len() >= 512 && (forall|j: int|
            0 <= j < s.len() ==> data.priority < (#[trigger] s[j]).priority),
        refused(s, data) ==> ingested(s, data) == s,
        !refused(s, data) ==> exists|at: int|
            #![trigger ingested(s, data)[at]]
            {
                let base = if s.len() >= 512 {
                    s.remove(first_lowest(s))
                } else {
                    s
                };
                &&& 0 <= at <= base.len()
                &&& ingested(s, data) == base.insert(at, data)
                &&& forall|j: int|
                    0 <= j < at ==> data.priority <= (#[trigger] base[j]).priority
                &&& at < base.len() ==> base[at].priority < data.priority
            },
{
    if s.len() > 0 {
        lemma_first_lowest(s);
    }
    if refused(s, data) {
        assert forall|j: int| 0 <= j < s.len() implies data.priority < (
        #[trigger] s[j]).priority by {
            assert(s[first_lowest(s)].priority <= s[j].priority);
        }
    } else {
        let base = if s.len() >= 512 {
            s.remove(first_lowest(s))
        } else {
            s
        };
        let at = position_below(base, data.priority, 0);
        lemma_position_below(base, data.priority, 0);
        assert(ingested(s, data) == base.insert(at, data));
        assert(ingested(s, data)[at] == data);
    }
}

/// The sensor at the back has been silent for too long when more than three of its intervals
/// have gone by since the last sample: 30 milliseconds for the temperature, 36 for the
/// acceleration, 45 for the gyroscope and 90 for any other. Before the first sample nothing is
/// silent.
pub proof fn law_silence(v: TaskView, now: Instant, last: Instant)
    requires
        v.last_received == Some(last),
    ensures
        ({
            let waited = now.nanos - last.nanos;
            let name = v.last_sensor();
            &&& name == "TempSensor"@ ==> (v.is_silent(now) <==> waited > 30_000_000)
            &&& name == "AccelSensor"@ ==> (v.is_silent(now) <==> waited > 36_000_000)
            &&& name == "GyroSensor"@ ==> (v.is_silent(now) <==> waited > 45_000_000)
            &&& name != "TempSensor"@ && name != "AccelSensor"@ && name != "GyroSensor"@ ==> (
            v.is_silent(now) <==> waited > 90_000_000)
        }),
        v.buffer.len() > 0 ==> v.last_sensor() == v.buffer[v.buffer.len() - 1].name@,
        v.buffer.len() == 0 ==> v.last_sensor().len() == 0,
        !(TaskView { last_received: None, ..v }).is_silent(now),
{
    reveal_strlit("TempSensor");
    reveal_strlit("AccelSensor");
    reveal_strlit("GyroSensor");
    assert("TempSensor"@[0] == 'T');
    assert("AccelSensor"@[0] == 'A');
    assert("GyroSensor"@[0] == 'G');
}

/// A pass may take 32 slots, 64 when more than 32 samples wait, 128 when more than 96 do and 256
/// when more than 256 do.
pub proof fn law_slots_grow_with_the_backlog(backlog: nat, more: nat)
    ensures
        backlog <= 32 ==> slots_for(backlog) == 32,
        32 < backlog <= 96 ==> slots_for(backlog) == 64,
        96 < backlog <= 256 ==> slots_for(backlog) == 128,
        backlog > 256 ==> slots_for(backlog) == 256,
        backlog <= more ==> slots_for(backlog) <= slots_for(more),
{
}

/// A slot is open from its time on as long as the pass has slots left. Taking it moves the time
/// on by a millisecond, counts it, hands out the front sample and changes nothing else.
pub proof fn law_taking_a_slot(v: TaskView, now: Instant)
    requires
        v.expected_time.nanos + 1_000_000 <= u128::MAX,
    ensures
        ({
            let w = v.after_slot();
            &&& v.slot_open(now) <==> v.expected_time.nanos <= now.nanos && v.handled
                < v.max_per_loop
            &&& w.expected_time.nanos - v.expected_time.nanos == 1_000_000
            &&& w.handled - v.handled == 1
            &&& v.buffer.len() > 0 ==> seq![v.buffer[0]] + w.buffer == v.buffer
            &&& v.buffer.len() == 0 ==> w.buffer.len() == 0
            &&& w.last_received == v.last_received
            &&& w.missed_cycles == v.missed_cycles
            &&& w.max_per_loop == v.max_per_loop
        }),
{
}

/// A sample that comes in sets the time of the last reception and ends the count of silent
/// passes; it takes no slot.
pub proof fn law_ingest_touches_no_slot(v: TaskView, data: SensorData, now: Instant)
    ensures
        ({
            let w = v.after_ingest(data, now);
            &&& w.buffer == ingested(v.buffer, data)
            &&& w.last_received == Some(now)
            &&& w.missed_cycles == 0
            &&& w.expected_time == v.expected_time
            &&& w.max_per_loop == v.max_per_loop
            &&& w.handled == v.handled
        }),
{
}

/// A sample that comes in leaves its latency under its name, in microseconds and never negative,
/// and the backlog that it met; one that cost a sample counts one drop. Nothing else is recorded.
pub proof fn law_ingest_is_recorded(
    v: MonitorView,
    name: Seq<char>,
    other: Seq<char>,
    latency_ms: i64,
    backlog: nat,
)
    requires
        other != name,
        summary::stat_of(v.sat_metrics.insert_latency, name).has_room(
            (clock::positive_part(latency_ms as int) * 1000) as nat,
        ),
    ensures
        ({
            let kept = after_ingest_metrics(v, name, latency_ms as int, backlog, false);
            let lost = after_ingest_metrics(v, name, latency_ms as int, backlog, true);
            let was = v.sat_metrics;
            let is = kept.sat_metrics;
            let before = summary::stat_of(was.insert_latency, name);
            let after = is.insert_latency[name];
            &&& is.insert_latency.dom() == was.insert_latency.dom().insert(name)
            &&& after.count == before.count + 1
            &&& after.sum_micros - before.sum_micros == if latency_ms > 0 {
                latency_ms * 1000
            } else {
                0
            }
            &&& was.insert_latency.dom().contains(other) ==> is.insert_latency[other]
                == was.insert_latency[other]
            &&& is.backlog_sum == was.backlog_sum + backlog
            &&& is.backlog_count == was.backlog_count + 1
            &&& is.backlog_max >= backlog && is.backlog_max >= was.backlog_max
            &&& is.backlog_max == backlog || is.backlog_max == was.backlog_max
            &&& is.backlog_min <= backlog && is.backlog_min <= was.backlog_min
            &&& is.backlog_min == backlog || is.backlog_min == was.backlog_min
            &&& is == (SummaryView {
                insert_latency: is.insert_latency,
                backlog_sum: is.backlog_sum,
                backlog_count: is.backlog_count,
                backlog_max: is.backlog_max,
                backlog_min: is.backlog_min,
                ..was
            })
            &&& kept == (MonitorView { sat_metrics: is, ..v })
            &&& lost == (MonitorView {
                sat_metrics: SummaryView { dropped_samples: was.dropped_samples + 1, ..is },
                ..v
            })
        }),
{
}

/// A slot begins a millisecond before it ends; only one that ends within the first millisecond
/// begins where it ends.
pub proof fn law_slot_start(expected_time: Instant)
    ensures
        expected_time.nanos >= 1_000_000 ==> expected_time.nanos - slot_start(expected_time)
            == 1_000_000,
        expected_time.nanos < 1_000_000 ==> slot_start(expected_time) == expected_time.nanos,
{
}

/// From 128 packets on the downlink buffer takes none, and each one offered counts one drop;
/// below that it takes the packet at its back and nothing is counted.
pub proof fn law_downlink_buffer_takes_128(
    v: MonitorView,
    ring: Seq<DownlinkPacket>,
    packet: DownlinkPacket,
)
    ensures
        ring.len() >= 128 ==> offered(ring, packet) == ring && after_offer(v, ring.len()) == (
        MonitorView {
            sat_metrics: SummaryView {
                dropped_samples: v.sat_metrics.dropped_samples + 1,
                ..v.sat_metrics
            },
            ..v
        }),
        ring.len() < 128 ==> offered(ring, packet) == ring.push(packet) && after_offer(v, ring.len())
            == v,
{
}

/// The answer to a packet changes the counts of sent and dropped packets and nothing else.
pub proof fn law_answer_changes_two_counts(v: MonitorView, answer: Answer)
    ensures
        after_answer(v, answer) == (MonitorView {
            sat_metrics: SummaryView {
                downlink_sent: v.sat_metrics.downlink_sent + if answer is NotSent {
                    0nat
                } else {
                    1nat
                },
                downlink_dropped: v.sat_metrics.downlink_dropped + if answer is NotSent
                    || answer is Lost {
                    1nat
                } else {
                    0nat
                },
                ..v.sat_metrics
            },
            ..v
        }),
{
}

/// The task is seen with its own samples, times and counts.
pub proof fn law_task_is_seen_whole(t: TaskState)
    ensures
        t@.buffer == t.buffer@,
        t@.expected_time == t.expected_time,
        t@.last_received == t.last_received,
        t@.missed_cycles == t.missed_cycles,
        t@.max_per_loop == t.max_per_loop,
        t@.handled == t.handled,
{
}

} // verus!
