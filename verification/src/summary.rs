//! Counters and statistics of the satellite, and the figures of its final report.

use crate::clock::Duration;
use crate::stats;
use crate::table::NameTable;
use vstd::prelude::*;

verus! {

/// Count, sum and extremes of samples in microseconds. Before the first sample the
/// minimum stands at the highest number there is.
#[derive(Clone, Copy, Debug, PartialEq, Eq, Structural)]
pub struct Stat {
    pub count: u64,
    pub sum_micros: u128,
    pub max_micros: u128,
    pub min_micros: u128,
}

impl Stat {
    /// The statistics of no sample.
    pub open spec fn fresh() -> Stat {
        Stat { count: 0, sum_micros: 0, max_micros: 0, min_micros: u128::MAX }
    }

    /// Whether one more sample of `micros` can be counted.
    pub open spec fn has_room(self, micros: nat) -> bool {
        self.count < u64::MAX && self.sum_micros + micros <= u128::MAX
    }

    /// These statistics with one more sample of `micros`.
    pub open spec fn with_sample(self, micros: nat) -> Stat {
        Stat {
            count: (self.count + 1) as u64,
            sum_micros: (self.sum_micros + micros) as u128,
            max_micros: if micros > self.max_micros {
                micros as u128
            } else {
                self.max_micros
            },
            min_micros: if micros < self.min_micros {
                micros as u128
            } else {
                self.min_micros
            },
        }
    }

    /// The mean, rounded down; zero without samples.
    pub open spec fn mean(self) -> u128 {
        if self.count == 0 {
            0
        } else {
            (self.sum_micros / self.count as u128) as u128
        }
    }

    /// Whether these are the statistics of exactly the samples in `s`.
    pub open spec fn describes(self, s: Seq<u128>) -> bool {
        &&& self.count == s.len()
        &&& self.sum_micros == stats::total(stats::ints(s))
        &&& if s.len() == 0 {
            self == Stat::fresh()
        } else {
            &&& stats::is_greatest(stats::ints(s), self.max_micros as int)
            &&& stats::is_least(stats::ints(s), self.min_micros as int)
        }
    }

    pub fn new() -> (r: Stat)
        ensures
            r == Stat::fresh(),
            r.describes(Seq::empty()),
    {
        proof {
            assert(stats::ints(Seq::<u128>::empty()) =~= Seq::<int>::empty());
        }
        Stat { count: 0, sum_micros: 0, max_micros: 0, min_micros: u128::MAX }
    }

    /// Counts a sample of length `d`.
    pub fn record(&mut self, d: Duration)
        requires
            old(self).has_room(d.micros()),
        ensures
            *final(self) == old(self).with_sample(d.micros()),
    {
        let m: u128 = d.as_micros();
        self.count += 1;
        self.sum_micros += m;
        if m > self.max_micros {
            self.max_micros = m;
        }
        if m < self.min_micros {
            self.min_micros = m;
        }
    }

    /// The mean, rounded down; zero without samples.
    pub fn avg_micros(&self) -> (r: u128)
        ensures
            r == self.mean(),
    {
        if self.count == 0 {
            0
        } else {
            self.sum_micros / (self.count as u128)
        }
    }
}

/// Recording keeps the statistics true: those of `s` become those of `s` and one more
/// sample.
pub proof fn law_stat_describes_samples(stat: Stat, s: Seq<u128>, micros: u128)
    requires
        stat.describes(s),
        stat.has_room(micros as nat),
    ensures
        stat.with_sample(micros as nat).describes(s.push(micros)),
{
    let old_ints = stats::ints(s);
    let new_ints = stats::ints(s.push(micros));
    assert(new_ints =~= old_ints.push(micros as int));
    assert(new_ints.drop_last() =~= old_ints);
    let next = stat.with_sample(micros as nat);
    assert(new_ints[s.len() as int] == micros);
    if s.len() > 0 {
        let i = old_ints.index_of(stat.max_micros as int);
        let j = old_ints.index_of(stat.min_micros as int);
        assert(new_ints[i] == stat.max_micros);
        assert(new_ints[j] == stat.min_micros);
    } else {
        assert(micros == u128::MAX || micros < u128::MAX);
    }
    assert(new_ints.contains(next.max_micros as int));
    assert(new_ints.contains(next.min_micros as int));
    assert forall|k: int| 0 <= k < new_ints.len() implies next.min_micros <= #[trigger] new_ints[k]
        && new_ints[k] <= next.max_micros by {
        if k < s.len() {
            assert(new_ints[k] == old_ints[k]);
        }
    }
}

/// The mean of samples lies between the least and the greatest of them.
pub proof fn law_mean_within_extremes(stat: Stat, s: Seq<u128>)
    requires
        stat.describes(s),
        s.len() > 0,
    ensures
        stat.min_micros <= stat.mean() <= stat.max_micros,
{
    let v = stats::ints(s);
    stats::lemma_total_bounds(v, stat.min_micros as int, stat.max_micros as int);
    let n = s.len() as int;
    let sum = stat.sum_micros as int;
    let low = stat.min_micros as int;
    let high = stat.max_micros as int;
    assert(low <= sum / n <= high) by (nonlinear_arith)
        requires
            n > 0,
            low * n <= sum <= high * n,
    ;
}

/// What the summary holds.
#[verifier::ext_equal]
pub struct SummaryView {
    pub sensor_jitter: Map<Seq<char>, Stat>,
    pub insert_latency: Map<Seq<char>, Stat>,
    pub scheduling_drift: Stat,
    pub missed_deadlines: nat,
    pub dropped_samples: nat,
    pub downlink_sent: nat,
    pub downlink_dropped: nat,
    pub backlog_sum: nat,
    pub backlog_count: nat,
    pub backlog_max: nat,
    pub backlog_min: nat,
    pub packets_generated: nat,
    pub packets_processed: nat,
    pub fault_recoveries: nat,
    pub fault_recovery_sum_ms: nat,
}

/// The statistics under `name`, fresh ones where there are none.
pub open spec fn stat_of(m: Map<Seq<char>, Stat>, name: Seq<char>) -> Stat {
    if m.dom().contains(name) {
        m[name]
    } else {
        Stat::fresh()
    }
}

impl SummaryView {
    pub open spec fn with_sensor_jitter(self, name: Seq<char>, micros: nat) -> SummaryView {
        SummaryView {
            sensor_jitter: self.sensor_jitter.insert(
                name,
                stat_of(self.sensor_jitter, name).with_sample(micros),
            ),
            ..self
        }
    }

    pub open spec fn with_insert_latency(self, name: Seq<char>, micros: nat) -> SummaryView {
        SummaryView {
            insert_latency: self.insert_latency.insert(
                name,
                stat_of(self.insert_latency, name).with_sample(micros),
            ),
            ..self
        }
    }

    pub open spec fn with_sched_drift(self, micros: nat) -> SummaryView {
        SummaryView { scheduling_drift: self.scheduling_drift.with_sample(micros), ..self }
    }

    pub open spec fn with_missed_deadline(self) -> SummaryView {
        SummaryView { missed_deadlines: self.missed_deadlines + 1, ..self }
    }

    pub open spec fn with_buffer_drop(self) -> SummaryView {
        SummaryView { dropped_samples: self.dropped_samples + 1, ..self }
    }

    pub open spec fn with_downlink_sent(self) -> SummaryView {
        SummaryView { downlink_sent: self.downlink_sent + 1, ..self }
    }

    pub open spec fn with_downlink_dropped(self) -> SummaryView {
        SummaryView { downlink_dropped: self.downlink_dropped + 1, ..self }
    }

    pub open spec fn with_backlog(self, len: nat) -> SummaryView {
        SummaryView {
            backlog_sum: self.backlog_sum + len,
            backlog_count: self.backlog_count + 1,
            backlog_max: if len > self.backlog_max {
                len
            } else {
                self.backlog_max
            },
            backlog_min: if len < self.backlog_min {
                len
            } else {
                self.backlog_min
            },
            ..self
        }
    }

    pub open spec fn with_packet_generated(self) -> SummaryView {
        SummaryView { packets_generated: self.packets_generated + 1, ..self }
    }

    /// One more packet processed, as long as more were generated than processed.
    pub open spec fn with_packet_processed(self) -> SummaryView {
        if self.packets_processed < self.packets_generated {
            SummaryView { packets_processed: self.packets_processed + 1, ..self }
        } else {
            self
        }
    }

    pub open spec fn with_fault_recovery(self, ms: nat) -> SummaryView {
        SummaryView {
            fault_recoveries: self.fault_recoveries + 1,
            fault_recovery_sum_ms: self.fault_recovery_sum_ms + ms,
            ..self
        }
    }

    /// No more packets were processed than generated.
    pub open spec fn processed_within_generated(self) -> bool {
        self.packets_processed <= self.packets_generated
    }
}

/// One thing that the summary records.
pub enum Record {
    SensorJitter(Seq<char>, nat),
    InsertLatency(Seq<char>, nat),
    SchedDrift(nat),
    MissedDeadline,
    BufferDrop,
    DownlinkSent,
    DownlinkDropped,
    Backlog(usize),
    PacketGenerated,
    PacketProcessed,
    FaultRecovery(nat),
}

impl SummaryView {
    /// With one more record.
    pub open spec fn with_record(self, record: Record) -> SummaryView {
        match record {
            Record::SensorJitter(name, micros) => self.with_sensor_jitter(name, micros),
            Record::InsertLatency(name, micros) => self.with_insert_latency(name, micros),
            Record::SchedDrift(micros) => self.with_sched_drift(micros),
            Record::MissedDeadline => self.with_missed_deadline(),
            Record::BufferDrop => self.with_buffer_drop(),
            Record::DownlinkSent => self.with_downlink_sent(),
            Record::DownlinkDropped => self.with_downlink_dropped(),
            Record::Backlog(len) => self.with_backlog(len as nat),
            Record::PacketGenerated => self.with_packet_generated(),
            Record::PacketProcessed => self.with_packet_processed(),
            Record::FaultRecovery(ms) => self.with_fault_recovery(ms),
        }
    }

    /// With all of `records`, in order.
    pub open spec fn with_records(self, records: Seq<Record>) -> SummaryView
        decreases records.len(),
    {
        if records.len() == 0 {
            self
        } else {
            self.with_records(records.drop_last()).with_record(records.last())
        }
    }

    /// Whether the backlog figures are those of exactly the lengths in `s`.
    pub open spec fn describes_backlogs(self, s: Seq<usize>) -> bool {
        &&& self.backlog_count == s.len()
        &&& self.backlog_sum == stats::total(stats::sizes(s))
        &&& if s.len() == 0 {
            self.backlog_max == 0 && self.backlog_min == usize::MAX
        } else {
            &&& stats::is_greatest(stats::sizes(s), self.backlog_max as int)
            &&& stats::is_least(stats::sizes(s), self.backlog_min as int)
        }
    }
}

/// The backlogs among `records`.
pub open spec fn backlogs_in(records: Seq<Record>) -> Seq<usize>
    decreases records.len(),
{
    if records.len() == 0 {
        Seq::empty()
    } else {
        let before = backlogs_in(records.drop_last());
        match records.last() {
            Record::Backlog(len) => before.push(len),
            _ => before,
        }
    }
}

proof fn lemma_backlog_recorded(v: SummaryView, s: Seq<usize>, len: usize)
    requires
        v.describes_backlogs(s),
    ensures
        v.with_backlog(len as nat).describes_backlogs(s.push(len)),
{
    let was = stats::sizes(s);
    let now = stats::sizes(s.push(len));
    let next = v.with_backlog(len as nat);
    assert(now =~= was.push(len as int));
    assert(now.drop_last() =~= was);
    assert(now[s.len() as int] == len);
    if s.len() > 0 {
        let i = was.index_of(v.backlog_max as int);
        let j = was.index_of(v.backlog_min as int);
        assert(now[i] == v.backlog_max);
        assert(now[j] == v.backlog_min);
    }
    assert(now.contains(next.backlog_max as int));
    assert(now.contains(next.backlog_min as int));
    assert forall|k: int| 0 <= k < now.len() implies next.backlog_min <= #[trigger] now[k] && now[k]
        <= next.backlog_max by {
        if k < s.len() {
            assert(now[k] == was[k]);
        }
    }
}

/// Whatever else is recorded among them, the backlog figures of a summary that began fresh
/// are count, sum, greatest and least of the backlogs recorded; so the sum lies between as
/// many times the least and as many times the greatest.
pub proof fn law_backlogs_are_described(v: SummaryView, records: Seq<Record>)
    requires
        v.describes_backlogs(Seq::empty()),
    ensures
        v.with_records(records).describes_backlogs(backlogs_in(records)),
        backlogs_in(records).len() > 0 ==> {
            let w = v.with_records(records);
            w.backlog_min * w.backlog_count <= w.backlog_sum <= w.backlog_max * w.backlog_count
        },
    decreases records.len(),
{
    if records.len() > 0 {
        let before = records.drop_last();
        law_backlogs_are_described(v, before);
        if let Record::Backlog(len) = records.last() {
            lemma_backlog_recorded(v.with_records(before), backlogs_in(before), len);
        }
    }
    let w = v.with_records(records);
    let lens = backlogs_in(records);
    if lens.len() > 0 {
        stats::lemma_total_bounds(
            stats::sizes(lens),
            w.backlog_min as int,
            w.backlog_max as int,
        );
    }
}

/// Counters and statistics of the satellite.
pub struct SatelliteSummary {
    pub sensor_jitter: NameTable<Stat>,
    pub insert_latency: NameTable<Stat>,
    pub scheduling_drift: Stat,
    pub missed_deadlines: u64,
    pub dropped_samples: u64,
    pub downlink_sent: u64,
    pub downlink_dropped: u64,
    pub backlog_sum: u128,
    pub backlog_count: u64,
    pub backlog_max: usize,
    pub backlog_min: usize,
    pub packets_generated: u64,
    pub packets_processed: u64,
    pub fault_recoveries: u64,
    pub fault_recovery_sum_ms: u128,
}

impl View for SatelliteSummary {
    type V = SummaryView;

    open spec fn view(&self) -> SummaryView {
        SummaryView {
            sensor_jitter: self.sensor_jitter@,
            insert_latency: self.insert_latency@,
            scheduling_drift: self.scheduling_drift,
            missed_deadlines: self.missed_deadlines as nat,
            dropped_samples: self.dropped_samples as nat,
            downlink_sent: self.downlink_sent as nat,
            downlink_dropped: self.downlink_dropped as nat,
            backlog_sum: self.backlog_sum as nat,
            backlog_count: self.backlog_count as nat,
            backlog_max: self.backlog_max as nat,
            backlog_min: self.backlog_min as nat,
            packets_generated: self.packets_generated as nat,
            packets_processed: self.packets_processed as nat,
            fault_recoveries: self.fault_recoveries as nat,
            fault_recovery_sum_ms: self.fault_recovery_sum_ms as nat,
        }
    }
}

/// Counts one more sample under `name`.
fn record_under(table: &mut NameTable<Stat>, name: &str, d: Duration)
    requires
        stat_of(old(table)@, name@).has_room(d.micros()),
    ensures
        final(table)@ == old(table)@.insert(
            name@,
            stat_of(old(table)@, name@).with_sample(d.micros()),
        ),
{
    let mut stat: Stat = match table.get(name) {
        Some(s) => *s,
        None => Stat::new(),
    };
    stat.record(d);
    table.put(name, stat);
}

impl SatelliteSummary {
    pub fn new() -> (r: Self)
        ensures
            r@ == (SummaryView {
                sensor_jitter: Map::empty(),
                insert_latency: Map::empty(),
                scheduling_drift: Stat::fresh(),
                missed_deadlines: 0,
                dropped_samples: 0,
                downlink_sent: 0,
                downlink_dropped: 0,
                backlog_sum: 0,
                backlog_count: 0,
                backlog_max: 0,
                backlog_min: usize::MAX as nat,
                packets_generated: 0,
                packets_processed: 0,
                fault_recoveries: 0,
                fault_recovery_sum_ms: 0,
            }),
            r@.processed_within_generated(),
            r@.describes_backlogs(Seq::empty()),
    {
        proof {
            assert(stats::sizes(Seq::<usize>::empty()) =~= Seq::<int>::empty());
        }
        SatelliteSummary {
            sensor_jitter: NameTable::new(),
            insert_latency: NameTable::new(),
            scheduling_drift: Stat::new(),
            missed_deadlines: 0,
            dropped_samples: 0,
            downlink_sent: 0,
            downlink_dropped: 0,
            backlog_sum: 0,
            backlog_count: 0,
            backlog_max: 0,
            backlog_min: usize::MAX,
            packets_generated: 0,
            packets_processed: 0,
            fault_recoveries: 0,
            fault_recovery_sum_ms: 0,
        }
    }

    pub fn record_sensor_jitter(&mut self, name: &str, d: Duration)
        requires
            stat_of(old(self)@.sensor_jitter, name@).has_room(d.micros()),
        ensures
            final(self)@ == old(self)@.with_sensor_jitter(name@, d.micros()),
    {
        record_under(&mut self.sensor_jitter, name, d);
    }

    pub fn record_insert_latency(&mut self, name: &str, d: Duration)
        requires
            stat_of(old(self)@.insert_latency, name@).has_room(d.micros()),
        ensures
            final(self)@ == old(self)@.with_insert_latency(name@, d.micros()),
    {
        record_under(&mut self.insert_latency, name, d);
    }

    pub fn record_sched_drift(&mut self, d: Duration)
        requires
            old(self)@.scheduling_drift.has_room(d.micros()),
        ensures
            final(self)@ == old(self)@.with_sched_drift(d.micros()),
    {
        self.scheduling_drift.record(d);
    }

    pub fn record_missed_deadline(&mut self)
        requires
            old(self)@.missed_deadlines < u64::MAX,
        ensures
            final(self)@ == old(self)@.with_missed_deadline(),
    {
        self.missed_deadlines += 1;
    }

    pub fn record_buffer_drop(&mut self)
        requires
            old(self)@.dropped_samples < u64::MAX,
        ensures
            final(self)@ == old(self)@.with_buffer_drop(),
    {
        self.dropped_samples += 1;
    }

    pub fn record_downlink_sent(&mut self)
        requires
            old(self)@.downlink_sent < u64::MAX,
        ensures
            final(self)@ == old(self)@.with_downlink_sent(),
    {
        self.downlink_sent += 1;
    }

    pub fn record_downlink_dropped(&mut self)
        requires
            old(self)@.downlink_dropped < u64::MAX,
        ensures
            final(self)@ == old(self)@.with_downlink_dropped(),
    {
        self.downlink_dropped += 1;
    }

    pub fn record_backlog(&mut self, len: usize)
        requires
            old(self)@.backlog_sum + len <= u128::MAX,
            old(self)@.backlog_count < u64::MAX,
        ensures
            final(self)@ == old(self)@.with_backlog(len as nat),
    {
        self.backlog_sum += len as u128;
        self.backlog_count += 1;
        if len > self.backlog_max {
            self.backlog_max = len;
        }
        if len < self.backlog_min {
            self.backlog_min = len;
        }
    }

    pub fn record_packet_generated(&mut self)
        requires
            old(self)@.packets_generated < u64::MAX,
        ensures
            final(self)@ == old(self)@.with_packet_generated(),
            old(self)@.processed_within_generated() ==> final(self)@.processed_within_generated(),
    {
        self.packets_generated += 1;
    }

    /// Counts a processed packet, unless as many were processed as generated; says whether
    /// it counted.
    pub fn record_packet_processed(&mut self) -> (counted: bool)
        ensures
            final(self)@ == old(self)@.with_packet_processed(),
            counted == (old(self)@.packets_processed < old(self)@.packets_generated),
            old(self)@.processed_within_generated() ==> final(self)@.processed_within_generated(),
    {
        if self.packets_processed < self.packets_generated {
            self.packets_processed += 1;
            true
        } else {
            false
        }
    }

    pub fn record_fault_recovery(&mut self, ms: u128)
        requires
            old(self)@.fault_recoveries < u64::MAX,
            old(self)@.fault_recovery_sum_ms + ms <= u128::MAX,
        ensures
            final(self)@ == old(self)@.with_fault_recovery(ms as nat),
    {
        self.fault_recoveries += 1;
        self.fault_recovery_sum_ms += ms;
    }
}

/// The figures of the satellite's final report. Averages that are printed with a
/// fraction stand as sum and count.
#[derive(Clone, Copy, Debug, PartialEq, Eq, Structural)]
pub struct SatelliteReport {
    pub avg_jitter_us: u128,
    pub max_jitter_us: u128,
    pub min_jitter_us: u128,
    pub sched_avg_us: u128,
    pub sched_max_us: u128,
    pub sched_min_us: u128,
    pub missed_deadlines: u64,
    pub fault_recoveries: u64,
    pub avg_fault_recovery: u128,
    pub downlink_sent: u64,
    pub downlink_dropped: u64,
    pub dropped_samples: u64,
    pub backlog_sum: u128,
    pub backlog_count: u64,
    pub backlog_max: usize,
    pub backlog_min: usize,
    pub packets_generated: u64,
}

/// The counts of the statistics in `s`.
pub open spec fn counts(s: Seq<Stat>) -> Seq<int> {
    s.map_values(|x: Stat| x.count as int)
}

/// The sums of the statistics in `s`.
pub open spec fn sums(s: Seq<Stat>) -> Seq<int> {
    s.map_values(|x: Stat| x.sum_micros as int)
}

/// The greatest maximum in `s`, zero where there is none.
pub open spec fn overall_max(s: Seq<Stat>) -> u128
    decreases s.len(),
{
    if s.len() == 0 {
        0
    } else if s.last().max_micros > overall_max(s.drop_last()) {
        s.last().max_micros
    } else {
        overall_max(s.drop_last())
    }
}

/// The least minimum in `s`, the highest number where there is none.
pub open spec fn overall_min(s: Seq<Stat>) -> u128
    decreases s.len(),
{
    if s.len() == 0 {
        u128::MAX
    } else if s.last().min_micros < overall_min(s.drop_last()) {
        s.last().min_micros
    } else {
        overall_min(s.drop_last())
    }
}

/// A minimum as it is reported: zero when nothing was recorded.
pub open spec fn shown_min(min: u128) -> u128 {
    if min == u128::MAX {
        0
    } else {
        min
    }
}

/// `sum / count`, rounded down, or zero for a count of zero.
pub open spec fn quotient(sum: int, count: int) -> int {
    if count == 0 {
        0
    } else {
        sum / count
    }
}

/// Whether `r` holds the figures of `m`.
pub open spec fn reports(m: &SatelliteSummary, r: SatelliteReport) -> bool {
    &&& m.sensor_jitter.listed()
    &&& r.avg_jitter_us == quotient(
        stats::total(sums(m.sensor_jitter.values())),
        stats::total(counts(m.sensor_jitter.values())),
    )
    &&& r.max_jitter_us == overall_max(m.sensor_jitter.values())
    &&& r.min_jitter_us == shown_min(overall_min(m.sensor_jitter.values()))
    &&& r.sched_avg_us == m.scheduling_drift.mean()
    &&& r.sched_max_us == m.scheduling_drift.max_micros
    &&& r.sched_min_us == shown_min(m.scheduling_drift.min_micros)
    &&& r.missed_deadlines == m.missed_deadlines
    &&& r.fault_recoveries == m.fault_recoveries
    &&& r.avg_fault_recovery == quotient(
        m.fault_recovery_sum_ms as int,
        m.fault_recoveries as int,
    )
    &&& r.downlink_sent == m.downlink_sent
    &&& r.downlink_dropped == m.downlink_dropped
    &&& r.dropped_samples == m.dropped_samples
    &&& r.backlog_sum == m.backlog_sum
    &&& r.backlog_count == m.backlog_count
    &&& r.backlog_max == m.backlog_max
    &&& r.backlog_min == if m.backlog_min == usize::MAX {
        0
    } else {
        m.backlog_min
    }
    &&& r.packets_generated == m.packets_generated
}

/// The figures of the final report.
pub fn satellite_report(m: &SatelliteSummary) -> (r: SatelliteReport)
    requires
        stats::total(counts(m.sensor_jitter.values())) <= u64::MAX,
        stats::total(sums(m.sensor_jitter.values())) <= u128::MAX,
    ensures
        reports(m, r),
{
    let n: usize = m.sensor_jitter.len();
    let ghost v = m.sensor_jitter.values();
    let mut count: u64 = 0;
    let mut sum: u128 = 0;
    let mut high: u128 = 0;
    let mut low: u128 = u128::MAX;
    let mut i: usize = 0;
    proof {
        assert(counts(v).take(0) =~= Seq::<int>::empty());
        assert(sums(v).take(0) =~= Seq::<int>::empty());
        assert(v.take(0) =~= Seq::<Stat>::empty());
    }
    while i < n
        invariant
            i <= n,
            n == v.len(),
            n == m.sensor_jitter.names().len(),
            v == m.sensor_jitter.values(),
            stats::total(counts(v)) <= u64::MAX,
            stats::total(sums(v)) <= u128::MAX,
            count == stats::total(counts(v).take(i as int)),
            sum == stats::total(sums(v).take(i as int)),
            high == overall_max(v.take(i as int)),
            low == overall_min(v.take(i as int)),
        decreases n - i,
    {
        proof {
            stats::lemma_total_step(counts(v), i as int);
            stats::lemma_total_step(sums(v), i as int);
            stats::lemma_partial_total(counts(v), i + 1);
            stats::lemma_partial_total(sums(v), i + 1);
            assert(v.take(i + 1).drop_last() =~= v.take(i as int));
        }
        let s: Stat = *m.sensor_jitter.value_at(i);
        count += s.count;
        sum += s.sum_micros;
        if s.max_micros > high {
            high = s.max_micros;
        }
        if s.min_micros < low {
            low = s.min_micros;
        }
        i += 1;
    }
    proof {
        assert(counts(v).take(n as int) =~= counts(v));
        assert(sums(v).take(n as int) =~= sums(v));
        assert(v.take(n as int) =~= v);
    }
    SatelliteReport {
        avg_jitter_us: if count == 0 {
            0
        } else {
            sum / count as u128
        },
        max_jitter_us: high,
        min_jitter_us: if low == u128::MAX {
            0
        } else {
            low
        },
        sched_avg_us: m.scheduling_drift.avg_micros(),
        sched_max_us: m.scheduling_drift.max_micros,
        sched_min_us: if m.scheduling_drift.min_micros == u128::MAX {
            0
        } else {
            m.scheduling_drift.min_micros
        },
        missed_deadlines: m.missed_deadlines,
        fault_recoveries: m.fault_recoveries,
        avg_fault_recovery: if m.fault_recoveries == 0 {
            0
        } else {
            m.fault_recovery_sum_ms / (m.fault_recoveries as u128)
        },
        downlink_sent: m.downlink_sent,
        downlink_dropped: m.downlink_dropped,
        dropped_samples: m.dropped_samples,
        backlog_sum: m.backlog_sum,
        backlog_count: m.backlog_count,
        backlog_max: m.backlog_max,
        backlog_min: if m.backlog_min == usize::MAX {
            0
        } else {
            m.backlog_min
        },
        packets_generated: m.packets_generated,
    }
}

/// One more sample counts once, adds itself to the sum, and is the greatest or the least exactly
/// when it exceeds the one before.
pub proof fn law_sample_is_added(stat: Stat, micros: nat)
    requires
        stat.has_room(micros),
    ensures
        ({
            let after = stat.with_sample(micros);
            &&& after.count == stat.count + 1
            &&& after.sum_micros == stat.sum_micros + micros
            &&& after.max_micros >= micros && after.max_micros >= stat.max_micros
            &&& after.max_micros == micros || after.max_micros == stat.max_micros
            &&& after.min_micros <= micros && after.min_micros <= stat.min_micros
            &&& after.min_micros == micros || after.min_micros == stat.min_micros
        }),
{
}

/// Statistics begin at zero, with the least at the highest number there is, and take samples as
/// long as count and sum stay in range.
pub proof fn law_fresh_statistics(stat: Stat, micros: nat)
    ensures
        Stat::fresh().count == 0,
        Stat::fresh().sum_micros == 0,
        Stat::fresh().max_micros == 0,
        Stat::fresh().min_micros == u128::MAX,
        stat.has_room(micros) <==> stat.count + 1 <= u64::MAX && stat.sum_micros + micros
            <= u128::MAX,
{
}

/// The mean is the greatest number that, taken once for each sample, does not exceed the sum.
pub proof fn law_mean(stat: Stat)
    ensures
        stat.count == 0 ==> stat.mean() == 0,
        stat.count > 0 ==> stat.mean() * stat.count <= stat.sum_micros < (stat.mean() + 1)
            * stat.count,
{
    if stat.count > 0 {
        law_quotient(stat.sum_micros as int, stat.count as int);
    }
}

/// A quotient is rounded down, and is zero for a count of zero.
pub proof fn law_quotient(sum: int, count: int)
    requires
        sum >= 0,
        count >= 0,
    ensures
        count == 0 ==> quotient(sum, count) == 0,
        count > 0 ==> quotient(sum, count) * count <= sum < (quotient(sum, count) + 1) * count,
{
    if count > 0 {
        let q = sum / count;
        assert(q * count <= sum < (q + 1) * count) by (nonlinear_arith)
            requires
                q == sum / count,
                count > 0,
        ;
    }
}

/// The statistics of a name are those in the table, and fresh before its first sample. A sample
/// under a name changes them as it would any, and leaves those of another name and every other
/// figure as they were.
pub proof fn law_samples_stay_under_their_name(
    v: SummaryView,
    name: Seq<char>,
    other: Seq<char>,
    micros: nat,
)
    requires
        other != name,
    ensures
        ({
            let was = v.sensor_jitter;
            let w = v.with_sensor_jitter(name, micros);
            &&& was.dom().contains(name) ==> stat_of(was, name) == was[name]
            &&& !was.dom().contains(name) ==> stat_of(was, name) == (Stat {
                count: 0,
                sum_micros: 0,
                max_micros: 0,
                min_micros: u128::MAX,
            })
            &&& w.sensor_jitter.dom() == was.dom().insert(name)
            &&& w.sensor_jitter[name] == stat_of(was, name).with_sample(micros)
            &&& stat_of(w.sensor_jitter, other) == stat_of(was, other)
            &&& w == (SummaryView { sensor_jitter: w.sensor_jitter, ..v })
        }),
        ({
            let was = v.insert_latency;
            let w = v.with_insert_latency(name, micros);
            &&& w.insert_latency.dom() == was.dom().insert(name)
            &&& w.insert_latency[name] == stat_of(was, name).with_sample(micros)
            &&& stat_of(w.insert_latency, other) == stat_of(was, other)
            &&& w == (SummaryView { insert_latency: w.insert_latency, ..v })
        }),
{
}

/// Each count goes up by one for what it counts, however high it stands, and no other figure
/// changes with it.
pub proof fn law_counts_go_up_by_one(v: SummaryView, micros: nat)
    ensures
        v.with_sched_drift(micros) == (SummaryView {
            scheduling_drift: v.scheduling_drift.with_sample(micros),
            ..v
        }),
        v.with_missed_deadline() == (SummaryView {
            missed_deadlines: v.missed_deadlines + 1,
            ..v
        }),
        v.with_buffer_drop() == (SummaryView { dropped_samples: v.dropped_samples + 1, ..v }),
        v.with_downlink_sent() == (SummaryView { downlink_sent: v.downlink_sent + 1, ..v }),
        v.with_downlink_dropped() == (SummaryView {
            downlink_dropped: v.downlink_dropped + 1,
            ..v
        }),
        v.with_packet_generated() == (SummaryView {
            packets_generated: v.packets_generated + 1,
            ..v
        }),
{
}

/// A packet counts as processed as long as more were generated than processed, and otherwise
/// nothing changes; so from a summary in which no more were processed than generated, that stays
/// so.
pub proof fn law_processed_never_exceed_generated(v: SummaryView)
    ensures
        v.packets_processed < v.packets_generated ==> v.with_packet_processed() == (SummaryView {
            packets_processed: v.packets_processed + 1,
            ..v
        }),
        v.packets_processed >= v.packets_generated ==> v.with_packet_processed() == v,
        v.processed_within_generated() <==> v.packets_processed <= v.packets_generated,
        v.packets_processed <= v.packets_generated ==> {
            let w = v.with_packet_processed();
            let x = v.with_packet_generated();
            w.packets_processed <= w.packets_generated && x.packets_processed
                <= x.packets_generated
        },
{
}

/// A backlog is counted and added, and becomes the greatest or the least where it exceeds them;
/// a fault recovery is counted and its milliseconds are added.
pub proof fn law_backlogs_and_recoveries_are_added(v: SummaryView, n: nat)
    ensures
        ({
            let w = v.with_backlog(n);
            &&& w.backlog_sum == v.backlog_sum + n
            &&& w.backlog_count == v.backlog_count + 1
            &&& w.backlog_max >= n && w.backlog_max >= v.backlog_max
            &&& w.backlog_max == n || w.backlog_max == v.backlog_max
            &&& w.backlog_min <= n && w.backlog_min <= v.backlog_min
            &&& w.backlog_min == n || w.backlog_min == v.backlog_min
            &&& w == (SummaryView {
                backlog_sum: w.backlog_sum,
                backlog_count: w.backlog_count,
                backlog_max: w.backlog_max,
                backlog_min: w.backlog_min,
                ..v
            })
        }),
        v.with_fault_recovery(n) == (SummaryView {
            fault_recoveries: v.fault_recoveries + 1,
            fault_recovery_sum_ms: v.fault_recovery_sum_ms + n,
            ..v
        }),
{
}

/// Over several statistics the greatest is at least every maximum and one of them, and the least
/// is at most every minimum and one of them.
pub proof fn law_overall_extremes(s: Seq<Stat>, i: int)
    requires
        0 <= i < s.len(),
    ensures
        s[i].max_micros <= overall_max(s),
        exists|k: int| 0 <= k < s.len() && (#[trigger] s[k]).max_micros == overall_max(s),
        s[i].min_micros >= overall_min(s),
        exists|k: int| 0 <= k < s.len() && (#[trigger] s[k]).min_micros == overall_min(s),
        overall_max(Seq::<Stat>::empty()) == 0,
        overall_min(Seq::<Stat>::empty()) == u128::MAX,
        counts(s).len() == s.len(),
        counts(s)[i] == s[i].count,
        sums(s).len() == s.len(),
        sums(s)[i] == s[i].sum_micros,
    decreases s.len(),
{
    let rest = s.drop_last();
    if rest.len() > 0 {
        let j = if i < rest.len() {
            i
        } else {
            0
        };
        law_overall_extremes(rest, j);
        assert(rest[j] == s[j]);
        let high = choose|k: int|
            0 <= k < rest.len() && (#[trigger] rest[k]).max_micros == overall_max(rest);
        let low = choose|k: int|
            0 <= k < rest.len() && (#[trigger] rest[k]).min_micros == overall_min(rest);
        assert(rest[high] == s[high] && rest[low] == s[low]);
        assert(s[high].max_micros == overall_max(rest) && s[low].min_micros == overall_min(rest));
    } else {
        assert(overall_max(rest) == 0 && overall_min(rest) == u128::MAX);
    }
    assert(s[s.len() - 1] == s.last());
}

/// The report of a summary gives its own counts; means are rounded down and zero where nothing
/// was counted, and a least that was never set is shown as zero.
pub proof fn law_report_gives_the_figures(m: &SatelliteSummary, r: SatelliteReport, i: int)
    requires
        reports(m, r),
    ensures
        ({
            let s = m.sensor_jitter.values();
            let sum = stats::total(sums(s));
            let count = stats::total(counts(s));
            &&& count >= 0
            &&& count == 0 ==> r.avg_jitter_us == 0
            &&& count > 0 ==> r.avg_jitter_us * count <= sum < (r.avg_jitter_us + 1) * count
            &&& 0 <= i < s.len() ==> r.max_jitter_us >= s[i].max_micros
            &&& 0 <= i < s.len() ==> r.min_jitter_us <= s[i].min_micros
            &&& r.max_jitter_us == 0 || exists|k: int|
                0 <= k < s.len() && (#[trigger] s[k]).max_micros == r.max_jitter_us
            &&& r.min_jitter_us == 0 || exists|k: int|
                0 <= k < s.len() && (#[trigger] s[k]).min_micros == r.min_jitter_us
            &&& s.len() == 0 ==> r.max_jitter_us == 0 && r.min_jitter_us == 0
        }),
        m.scheduling_drift.count == 0 ==> r.sched_avg_us == 0,
        m.scheduling_drift.count > 0 ==> r.sched_avg_us * m.scheduling_drift.count
            <= m.scheduling_drift.sum_micros < (r.sched_avg_us + 1) * m.scheduling_drift.count,
        r.sched_max_us == m.scheduling_drift.max_micros,
        m.scheduling_drift.min_micros == u128::MAX ==> r.sched_min_us == 0,
        m.scheduling_drift.min_micros < u128::MAX ==> r.sched_min_us
            == m.scheduling_drift.min_micros,
        m.fault_recoveries == 0 ==> r.avg_fault_recovery == 0,
        m.fault_recoveries > 0 ==> r.avg_fault_recovery * m.fault_recoveries
            <= m.fault_recovery_sum_ms < (r.avg_fault_recovery + 1) * m.fault_recoveries,
        r.missed_deadlines == m.missed_deadlines,
        r.fault_recoveries == m.fault_recoveries,
        r.downlink_sent == m.downlink_sent,
        r.downlink_dropped == m.downlink_dropped,
        r.dropped_samples == m.dropped_samples,
        r.backlog_sum == m.backlog_sum,
        r.backlog_count == m.backlog_count,
        r.backlog_max == m.backlog_max,
        m.backlog_min == usize::MAX ==> r.backlog_min == 0,
        m.backlog_min < usize::MAX ==> r.backlog_min == m.backlog_min,
        r.packets_generated == m.packets_generated,
{
    let s = m.sensor_jitter.values();
    stats::lemma_total_bounds(sums(s), 0, u128::MAX as int);
    stats::lemma_total_bounds(counts(s), 0, u64::MAX as int);
    law_quotient(stats::total(sums(s)), stats::total(counts(s)));
    law_quotient(m.fault_recovery_sum_ms as int, m.fault_recoveries as int);
    law_mean(m.scheduling_drift);
    if s.len() > 0 {
        law_overall_extremes(
            s,
            if 0 <= i < s.len() {
                i
            } else {
                0
            },
        );
    }
}

/// The summary is seen with its own figures.
pub proof fn law_summary_is_seen_whole(m: SatelliteSummary)
    ensures
        m@.sensor_jitter == m.sensor_jitter@,
        m@.insert_latency == m.insert_latency@,
        m@.scheduling_drift == m.scheduling_drift,
        m@.missed_deadlines == m.missed_deadlines,
        m@.dropped_samples == m.dropped_samples,
        m@.downlink_sent == m.downlink_sent,
        m@.downlink_dropped == m.downlink_dropped,
        m@.backlog_sum == m.backlog_sum,
        m@.backlog_count == m.backlog_count,
        m@.backlog_max == m.backlog_max,
        m@.backlog_min == m.backlog_min,
        m@.packets_generated == m.packets_generated,
        m@.packets_processed == m.packets_processed,
        m@.fault_recoveries == m.fault_recoveries,
        m@.fault_recovery_sum_ms == m.fault_recovery_sum_ms,
{
}

} // verus!
