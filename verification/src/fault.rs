//! Faults of the satellite and the interlock that keeps commands back while they last.

use crate::clock;
use crate::clock::{Duration, Instant, Timestamp};
use crate::table::NameTable;
use crate::text;
use crate::timing;
use crate::types::DownlinkPacket;
use vstd::prelude::*;

verus! {

/// Interlock latency beyond which an alert is raised, in nanoseconds.
pub const LATENCY_THRESHOLD: u128 = 100_000_000;

/// Age beyond which a fault is cleared, in nanoseconds.
pub const AUTO_CLEAR_THRESHOLD: u128 = 15_000_000_000;

/// Age in milliseconds beyond which a fault is recovered from.
pub const RECOVERY_AGE_MS: u128 = 2000;

/// What the registry holds.
#[verifier::ext_equal]
pub struct FaultView {
    pub active: Set<Seq<char>>,
    pub timestamps: Map<Seq<char>, Instant>,
    pub severities: Map<Seq<char>, Seq<char>>,
}

/// The faults that can strike, in the order in which they are drawn.
pub open spec fn simulated_fault(i: int) -> Seq<char> {
    if i == 0 {
        "TEMP_HIGH"@
    } else if i == 1 {
        "BATTERY_LOW"@
    } else {
        "SIGNAL_LOSS"@
    }
}

/// How severe `fault` is.
pub open spec fn severity_of(fault: Seq<char>) -> Seq<char> {
    if fault == "SIGNAL_LOSS"@ {
        "CRITICAL"@
    } else if fault == "BATTERY_LOW"@ {
        "WARNING"@
    } else if fault == "TEMP_HIGH"@ {
        "WARNING"@
    } else {
        "UNKNOWN"@
    }
}

/// Whether `fault` keeps back the packet or command `packet_id`.
pub open spec fn blocks(fault: Seq<char>, packet_id: u32) -> bool {
    if fault == "TEMP_HIGH"@ {
        packet_id % 5 == 0
    } else if fault == "BATTERY_LOW"@ {
        packet_id % 4 == 0
    } else if fault == "SIGNAL_LOSS"@ {
        packet_id % 2 == 0
    } else {
        false
    }
}

impl FaultView {
    /// No fault is known.
    pub open spec fn healthy() -> FaultView {
        FaultView { active: Set::empty(), timestamps: Map::empty(), severities: Map::empty() }
    }

    /// Every active fault, and no other, has a time of detection and a severity.
    pub open spec fn consistent(self) -> bool {
        self.timestamps.dom() == self.active && self.severities.dom() == self.active
    }

    /// After `fault` struck at `at`; nothing changes when it did not strike or was active.
    pub open spec fn struck(self, fault: Seq<char>, at: Option<Instant>) -> FaultView {
        match at {
            Some(t) if !self.active.contains(fault) => FaultView {
                active: self.active.insert(fault),
                timestamps: self.timestamps.insert(fault, t),
                severities: self.severities.insert(fault, severity_of(fault)),
            },
            _ => self,
        }
    }

    /// After the first `n` draws.
    pub open spec fn after_draws(self, draws: Seq<Option<Instant>>, n: nat) -> FaultView
        decreases n,
    {
        if n == 0 {
            self
        } else {
            self.after_draws(draws, (n - 1) as nat).struck(simulated_fault(n - 1), draws[n - 1])
        }
    }

    /// The faults that the first `n` draws newly detect.
    pub open spec fn detected(self, draws: Seq<Option<Instant>>, n: nat) -> Seq<Seq<char>>
        decreases n,
    {
        if n == 0 {
            Seq::empty()
        } else {
            let before = self.detected(draws, (n - 1) as nat);
            let fault = simulated_fault(n - 1);
            if draws[n - 1] is Some && !self.after_draws(draws, (n - 1) as nat).active.contains(
                fault,
            ) {
                before.push(fault)
            } else {
                before
            }
        }
    }

    /// Whether `fault` was detected so long before `now` that it is cleared.
    pub open spec fn expired(self, fault: Seq<char>, now: Instant) -> bool {
        self.timestamps.dom().contains(fault) && now.nanos - self.timestamps[fault].nanos
            > AUTO_CLEAR_THRESHOLD
    }

    /// Without `faults`.
    pub open spec fn without(self, faults: Set<Seq<char>>) -> FaultView {
        FaultView {
            active: self.active.difference(faults),
            timestamps: self.timestamps.remove_keys(faults),
            severities: self.severities.remove_keys(faults),
        }
    }

    /// Without the faults that have expired at `now`.
    pub open spec fn cleared_at(self, now: Instant) -> FaultView {
        self.without(Set::new(|f: Seq<char>| self.expired(f, now)))
    }

    /// After a sweep: the three draws, then the clearing.
    pub open spec fn swept(self, draws: Seq<Option<Instant>>, now: Instant) -> FaultView {
        self.after_draws(draws, 3).cleared_at(now)
    }

    /// Whether `fault` is active, keeps `packet_id` back, and has a time of detection.
    pub open spec fn blocked_by(self, fault: Seq<char>, packet_id: u32) -> bool {
        self.active.contains(fault) && blocks(fault, packet_id) && self.timestamps.dom().contains(
            fault,
        )
    }

    /// Whether no fault keeps `packet_id` back.
    pub open spec fn safe(self, packet_id: u32) -> bool {
        forall|f: Seq<char>| !self.blocked_by(f, packet_id)
    }
}

/// Which faults are active, since when, and how severe they are.
pub struct FaultRegistry {
    pub active: NameTable<()>,
    pub timestamps: NameTable<Instant>,
    pub severities: NameTable<String>,
}

impl View for FaultRegistry {
    type V = FaultView;

    open spec fn view(&self) -> FaultView {
        FaultView {
            active: self.active@.dom(),
            timestamps: self.timestamps@,
            severities: self.severities@.map_values(|s: String| s@),
        }
    }
}

impl FaultRegistry {
    pub fn new() -> (r: Self)
        ensures
            r@ == FaultView::healthy(),
            r@.consistent(),
    {
        let r: Self = FaultRegistry {
            active: NameTable::new(),
            timestamps: NameTable::new(),
            severities: NameTable::new(),
        };
        assert(r@ =~= FaultView::healthy());
        r
    }

    /// Notes that `fault` struck at `now`; says whether it was not active before.
    pub fn strike(&mut self, fault: &str, now: Instant) -> (fresh: bool)
        ensures
            fresh == !old(self)@.active.contains(fault@),
            final(self)@ == old(self)@.struck(fault@, Some(now)),
    {
        if self.active.find(fault).is_some() {
            return false;
        }
        let severity: &str = severity(fault);
        self.active.put(fault, ());
        self.timestamps.put(fault, now);
        self.severities.put(fault, severity.to_string());
        assert(self@ =~= old(self)@.struck(fault@, Some(now)));
        true
    }

    /// Forgets `fault`.
    pub fn clear(&mut self, fault: &str)
        ensures
            final(self)@ == old(self)@.without(set![fault@]),
    {
        self.active.remove(fault);
        self.timestamps.remove(fault);
        self.severities.remove(fault);
        assert(self@ =~= old(self)@.without(set![fault@]));
    }
}

/// How severe `fault` is.
pub fn severity(fault: &str) -> (r: &'static str)
    ensures
        r@ == severity_of(fault@),
{
    if text::same_text(fault, "SIGNAL_LOSS") {
        "CRITICAL"
    } else if text::same_text(fault, "BATTERY_LOW") {
        "WARNING"
    } else if text::same_text(fault, "TEMP_HIGH") {
        "WARNING"
    } else {
        "UNKNOWN"
    }
}

/// What a sweep of the faults found.
pub struct FaultSweep {
    /// Faults that became active, in the order of the draws.
    pub detected: Vec<String>,
    /// Faults that were cleared.
    pub cleared: Vec<String>,
}

/// Whether `names` lists the faults of `v` that have expired at `now`, each once.
pub open spec fn lists_expired(names: Seq<Seq<char>>, v: FaultView, now: Instant) -> bool {
    &&& names.no_duplicates()
    &&& forall|f: Seq<char>| #[trigger] names.contains(f) <==> v.expired(f, now)
}

/// The names of the faults that have expired at `now`.
fn expired_faults(reg: &FaultRegistry, now: Instant) -> (r: Vec<String>)
    ensures
        lists_expired(text::texts(r@), reg@, now),
{
    let n: usize = reg.timestamps.len();
    let ghost names = reg.timestamps.names();
    let mut r: Vec<String> = Vec::new();
    let mut i: usize = 0;
    while i < n
        invariant
            i <= n,
            n == names.len(),
            names == reg.timestamps.names(),
            reg.timestamps.listed(),
            text::texts(r@).no_duplicates(),
            forall|f: Seq<char>| #[trigger]
                text::texts(r@).contains(f) <==> reg@.expired(f, now) && names.take(
                    i as int,
                ).contains(f),
        decreases n - i,
    {
        let ghost before = text::texts(r@);
        let name: &str = reg.timestamps.name_at(i);
        let since: Instant = *reg.timestamps.value_at(i);
        let old_enough: bool = now.duration_since(since).nanos > AUTO_CLEAR_THRESHOLD;
        assert(old_enough == reg@.expired(name@, now));
        assert(names.take(i + 1) =~= names.take(i as int).push(name@));
        assert(!names.take(i as int).contains(name@)) by {
            if names.take(i as int).contains(name@) {
                let j = names.take(i as int).index_of(name@);
                assert(names[j] == names[i as int]);
            }
        }
        assert forall|f: Seq<char>| #[trigger]
            names.take(i + 1).contains(f) <==> names.take(i as int).contains(f) || f == name@ by {
            if names.take(i as int).contains(f) {
                let j = names.take(i as int).index_of(f);
                assert(names.take(i + 1)[j] == f);
            }
            assert(names.take(i + 1)[i as int] == name@);
        }
        if old_enough {
            let copy: String = name.to_string();
            r.push(copy);
            let ghost after = text::texts(r@);
            assert(after =~= before.push(name@));
            assert forall|f: Seq<char>| #[trigger]
                after.contains(f) <==> before.contains(f) || f == name@ by {
                if before.contains(f) {
                    let j = before.index_of(f);
                    assert(after[j] == f);
                }
                assert(after[before.len() as int] == name@);
            }
            assert(!before.contains(name@));
        }
        i += 1;
    }
    assert(names.take(n as int) =~= names);
    r
}

/// One sweep of the faults at `now`. `draws` holds, for each fault that can strike, the
/// time at which it struck, if it did. Then every fault that is too old is cleared.
pub fn handle_faults(reg: &mut FaultRegistry, draws: [Option<Instant>; 3], now: Instant) -> (r:
    FaultSweep)
    ensures
        final(reg)@ == old(reg)@.swept(draws@, now),
        text::texts(r.detected@) == old(reg)@.detected(draws@, 3),
        lists_expired(text::texts(r.cleared@), old(reg)@.after_draws(draws@, 3), now),
        old(reg)@.consistent() ==> final(reg)@.consistent(),
{
    let ghost v = reg@;
    let mut detected: Vec<String> = Vec::new();
    let mut i: usize = 0;
    assert(text::texts(detected@) =~= v.detected(draws@, 0));
    while i < 3
        invariant
            i <= 3,
            draws@.len() == 3,
            reg@ == v.after_draws(draws@, i as nat),
            text::texts(detected@) == v.detected(draws@, i as nat),
        decreases 3 - i,
    {
        let fault: &str = if i == 0 {
            "TEMP_HIGH"
        } else if i == 1 {
            "BATTERY_LOW"
        } else {
            "SIGNAL_LOSS"
        };
        assert(fault@ == simulated_fault(i as int));
        let ghost before = text::texts(detected@);
        if let Some(at) = draws[i] {
            if reg.strike(fault, at) {
                detected.push(fault.to_string());
                assert(text::texts(detected@) =~= before.push(fault@));
            }
        }
        i += 1;
    }
    let ghost drawn = reg@;
    let cleared: Vec<String> = expired_faults(reg, now);
    let ghost gone = text::texts(cleared@);
    let mut k: usize = 0;
    assert(drawn.without(gone.take(0).to_set()) =~= drawn);
    while k < cleared.len()
        invariant
            k <= cleared@.len(),
            gone == text::texts(cleared@),
            reg@ == drawn.without(gone.take(k as int).to_set()),
        decreases cleared@.len() - k,
    {
        reg.clear(cleared[k].as_str());
        proof {
            let f = gone[k as int];
            assert(gone.take(k + 1) =~= gone.take(k as int).push(f));
            assert forall|g: Seq<char>| #[trigger]
                gone.take(k + 1).to_set().contains(g) <==> gone.take(k as int).to_set().contains(g)
                    || g == f by {
                if gone.take(k as int).contains(g) {
                    let j = gone.take(k as int).index_of(g);
                    assert(gone.take(k + 1)[j] == g);
                }
                assert(gone.take(k + 1)[k as int] == f);
            }
            assert(reg@ =~= drawn.without(gone.take(k + 1).to_set()));
        }
        k += 1;
    }
    proof {
        assert(gone.take(k as int) =~= gone);
        assert(gone.to_set() =~= Set::new(|f: Seq<char>| drawn.expired(f, now)));
        law_sweep_keeps_consistency(v, draws@, now);
    }
    FaultSweep { detected, cleared }
}

/// A sweep keeps the registry consistent.
pub proof fn law_sweep_keeps_consistency(v: FaultView, draws: Seq<Option<Instant>>, now: Instant)
    ensures
        v.consistent() ==> v.swept(draws, now).consistent(),
{
    if v.consistent() {
        lemma_draws_consistent(v, draws, 3);
        let w = v.after_draws(draws, 3);
        let s = w.cleared_at(now);
        assert(s.timestamps.dom() =~= s.active);
        assert(s.severities.dom() =~= s.active);
    }
}

proof fn lemma_draws_consistent(v: FaultView, draws: Seq<Option<Instant>>, n: nat)
    requires
        v.consistent(),
    ensures
        v.after_draws(draws, n).consistent(),
    decreases n,
{
    if n > 0 {
        lemma_draws_consistent(v, draws, (n - 1) as nat);
        let w = v.after_draws(draws, n);
        assert(w.timestamps.dom() =~= w.active);
        assert(w.severities.dom() =~= w.active);
    }
}

/// After a sweep no known fault is older than the threshold, and one that is not older
/// stays.
pub proof fn law_sweep_clears_old_faults(
    v: FaultView,
    draws: Seq<Option<Instant>>,
    now: Instant,
    fault: Seq<char>,
)
    ensures
        ({
            let s = v.swept(draws, now);
            &&& s.timestamps.dom().contains(fault) ==> now.nanos - s.timestamps[fault].nanos
                <= AUTO_CLEAR_THRESHOLD
            &&& v.active.contains(fault) && v.timestamps.dom().contains(fault) && now.nanos
                - v.timestamps[fault].nanos <= AUTO_CLEAR_THRESHOLD ==> s.active.contains(
                fault,
            ) && s.timestamps.dom().contains(fault) && s.timestamps[fault] == v.timestamps[fault]
        }),
{
    if v.active.contains(fault) {
        lemma_draws_keep_active(v, draws, 3, fault);
    }
}

proof fn lemma_draws_keep_active(
    v: FaultView,
    draws: Seq<Option<Instant>>,
    n: nat,
    fault: Seq<char>,
)
    requires
        v.active.contains(fault),
    ensures
        v.after_draws(draws, n).active.contains(fault),
        v.after_draws(draws, n).timestamps.dom().contains(fault) == v.timestamps.dom().contains(
            fault,
        ),
        v.after_draws(draws, n).timestamps[fault] == v.timestamps[fault],
    decreases n,
{
    if n > 0 {
        lemma_draws_keep_active(v, draws, (n - 1) as nat, fault);
    }
}

/// Whether `fault` keeps back the packet or command `packet_id`.
pub fn fault_blocks_packet(fault: &str, packet_id: u32) -> (r: bool)
    ensures
        r == blocks(fault@, packet_id),
        fault@ == "TEMP_HIGH"@ ==> r == (packet_id % 5 == 0),
        fault@ == "BATTERY_LOW"@ ==> r == (packet_id % 4 == 0),
        fault@ == "SIGNAL_LOSS"@ ==> r == (packet_id % 2 == 0),
{
    proof {
        lemma_faults_differ();
    }
    if text::same_text(fault, "TEMP_HIGH") {
        packet_id % 5 == 0
    } else if text::same_text(fault, "BATTERY_LOW") {
        packet_id % 4 == 0
    } else if text::same_text(fault, "SIGNAL_LOSS") {
        packet_id % 2 == 0
    } else {
        false
    }
}

/// A fault that keeps a command back, and how long it has been known.
pub struct Blocking {
    pub fault: String,
    pub latency: Duration,
}

/// A fault that keeps `packet_id` back at `now`, if there is one.
pub fn blocking_fault(reg: &FaultRegistry, packet_id: u32, now: Instant) -> (r: Option<Blocking>)
    ensures
        match r {
            Some(b) => reg@.blocked_by(b.fault@, packet_id) && b.latency.nanos
                == clock::positive_part(now.nanos - reg@.timestamps[b.fault@].nanos),
            None => reg@.safe(packet_id),
        },
{
    let n: usize = reg.active.len();
    let mut i: usize = 0;
    while i < n
        invariant
            i <= n,
            n == reg.active.names().len(),
            reg.active.listed(),
            forall|j: int|
                0 <= j < i ==> !reg@.blocked_by(#[trigger] reg.active.names()[j], packet_id),
        decreases n - i,
    {
        let fault: &str = reg.active.name_at(i);
        if fault_blocks_packet(fault, packet_id) {
            if let Some(since) = reg.timestamps.get(fault) {
                return Some(
                    Blocking { fault: fault.to_string(), latency: now.duration_since(*since) },
                );
            }
        }
        i += 1;
    }
    assert forall|f: Seq<char>| !reg@.blocked_by(f, packet_id) by {
        if reg@.active.contains(f) {
            let j = reg.active.names().index_of(f);
            assert(reg.active.names()[j] == f);
        }
    }
    None
}

/// Whether the command or packet `packet_id` may pass: no active fault keeps it back.
pub fn is_command_safe(reg: &FaultRegistry, packet_id: u32) -> (r: bool)
    ensures
        r == reg@.safe(packet_id),
        r <==> {
            &&& !(packet_id % 5 == 0 && reg@.active.contains("TEMP_HIGH"@)
                && reg@.timestamps.dom().contains("TEMP_HIGH"@))
            &&& !(packet_id % 4 == 0 && reg@.active.contains("BATTERY_LOW"@)
                && reg@.timestamps.dom().contains("BATTERY_LOW"@))
            &&& !(packet_id % 2 == 0 && reg@.active.contains("SIGNAL_LOSS"@)
                && reg@.timestamps.dom().contains("SIGNAL_LOSS"@))
        },
{
    proof {
        law_interlock_is_exact(reg@, packet_id);
    }
    blocking_fault(reg, packet_id, Instant { nanos: 0 }).is_none()
}

/// While an active fault with a known time keeps a packet back, the packet is not safe.
/// Without active faults everything is safe, and so is, whatever is active, a packet whose
/// number neither two nor five divides.
pub proof fn law_interlock(v: FaultView, fault: Seq<char>, packet_id: u32)
    ensures
        v.consistent() && v.active.contains(fault) && blocks(fault, packet_id) ==> !v.safe(
            packet_id,
        ),
        v.active == Set::<Seq<char>>::empty() ==> v.safe(packet_id),
        packet_id % 2 != 0 && packet_id % 5 != 0 ==> v.safe(packet_id),
{
    if v.consistent() && v.active.contains(fault) && blocks(fault, packet_id) {
        assert(v.blocked_by(fault, packet_id));
    }
    if packet_id % 2 != 0 && packet_id % 5 != 0 {
        assert forall|f: Seq<char>| !v.blocked_by(f, packet_id) by {
            assert(packet_id % 4 != 0);
        }
    }
}

/// The log lines for a command that a fault keeps back.
pub open spec fn blocking_lines(fault: Seq<char>, packet_id: u32, latency: Duration) -> Seq<
    Seq<char>,
> {
    let ms = text::decimal(latency.millis());
    let id = text::decimal(packet_id as nat);
    let blocked = timing::stamped_text(
        "🚫 BLOCKED: Packet "@ + id + " blocked by ["@ + fault + "]"@,
    );
    let measured = timing::stamped_text(
        "⏱️  Interlock Latency: "@ + ms + " ms (from fault detection to command block)"@,
    );
    let alert = timing::stamped_text(
        "🔥 ALERT: Latency exceeds threshold ("@ + text::decimal(
            (LATENCY_THRESHOLD / 1_000_000) as nat,
        ) + " ms)"@,
    );
    let logged = timing::stamped_text(
        "📄 Logged: Interlock delay for command "@ + id + " due to fault ["@ + fault + "] was "@
            + ms + " ms"@,
    );
    if latency.nanos > LATENCY_THRESHOLD {
        seq![blocked, measured, alert, logged]
    } else {
        seq![blocked, measured, logged]
    }
}

/// The log lines for a command that a fault keeps back.
pub fn log_blocking_context(fault: &str, packet_id: u32, latency: Duration) -> (lines: Vec<String>)
    ensures
        text::texts(lines@) == blocking_lines(fault@, packet_id, latency),
{
    let id: String = text::number(packet_id as u128);
    let ms: String = text::number(latency.as_millis());
    let mut lines: Vec<String> = Vec::new();

    let mut blocked: String = text::join3("🚫 BLOCKED: Packet ", id.as_str(), " blocked by [");
    blocked.append(fault);
    blocked.append("]");
    lines.push(timing::stamped(blocked.as_str()));

    lines.push(
        timing::stamped(
            text::join3(
                "⏱️  Interlock Latency: ",
                ms.as_str(),
                " ms (from fault detection to command block)",
            ).as_str(),
        ),
    );

    if latency.nanos > LATENCY_THRESHOLD {
        lines.push(
            timing::stamped(
                text::join3(
                    "🔥 ALERT: Latency exceeds threshold (",
                    text::number(LATENCY_THRESHOLD / 1_000_000).as_str(),
                    " ms)",
                ).as_str(),
            ),
        );
    }
    let mut logged: String = text::join3(
        "📄 Logged: Interlock delay for command ",
        id.as_str(),
        " due to fault [",
    );
    logged.append(fault);
    logged.append("] was ");
    logged.append(ms.as_str());
    logged.append(" ms");
    lines.push(timing::stamped(logged.as_str()));
    assert(text::texts(lines@) =~= blocking_lines(fault@, packet_id, latency));
    lines
}

/// What a check of a packet finds about one active fault.
pub struct FaultCheck {
    pub fault: String,
    pub blocked: bool,
    pub age: Duration,
    pub severity: String,
    /// Whether the fault is so old that a recovery is due.
    pub recover: bool,
}

/// How long `fault` has been known at `now`; no time for one without a time of detection.
pub open spec fn age_of(v: FaultView, fault: Seq<char>, now: Instant) -> int {
    if v.timestamps.dom().contains(fault) {
        clock::positive_part(now.nanos - v.timestamps[fault].nanos)
    } else {
        0
    }
}

/// The severity on record for `fault`.
pub open spec fn recorded_severity(v: FaultView, fault: Seq<char>) -> Seq<char> {
    if v.severities.dom().contains(fault) {
        v.severities[fault]
    } else {
        "UNKNOWN"@
    }
}

/// The severity on record for `fault`.
fn severity_on_record(reg: &FaultRegistry, fault: &str) -> (r: String)
    ensures
        r@ == recorded_severity(reg@, fault@),
{
    match reg.severities.get(fault) {
        Some(s) => s.clone(),
        None => "UNKNOWN".to_string(),
    }
}

/// `FaultCheck` with the characters of its texts.
#[verifier::ext_equal]
pub struct CheckView {
    pub fault: Seq<char>,
    pub blocked: bool,
    pub age: Duration,
    pub severity: Seq<char>,
    pub recover: bool,
}

impl View for FaultCheck {
    type V = CheckView;

    open spec fn view(&self) -> CheckView {
        CheckView {
            fault: self.fault@,
            blocked: self.blocked,
            age: self.age,
            severity: self.severity@,
            recover: self.recover,
        }
    }
}

/// What a check of `packet_id` at `now` finds about `fault`.
pub open spec fn check_of(v: FaultView, fault: Seq<char>, packet_id: u32, now: Instant) -> CheckView {
    let age = Duration { nanos: age_of(v, fault, now) as u128 };
    CheckView {
        fault,
        blocked: blocks(fault, packet_id),
        age,
        severity: recorded_severity(v, fault),
        recover: age.millis() > RECOVERY_AGE_MS,
    }
}

/// What a whole check of `packet_id` finds, one active fault after the other, the `k`-th at
/// `readings[k]`.
pub open spec fn whole_check(reg: &FaultRegistry, packet_id: u32, readings: Seq<Instant>) -> Seq<
    CheckView,
> {
    Seq::new(
        reg.active.names().len(),
        |k: int| check_of(reg@, reg.active.names()[k], packet_id, readings[k]),
    )
}

/// A whole check finds every active fault exactly once and nothing else. It asks for a
/// recovery exactly from those that are more than two seconds old at their own reading of the
/// clock, and calls blocked exactly those that keep the packet back.
pub proof fn law_check_covers_every_fault(
    reg: &FaultRegistry,
    packet_id: u32,
    readings: Seq<Instant>,
)
    requires
        reg.active.listed(),
        readings.len() == reg.active.names().len(),
    ensures
        ({
            let found = whole_check(reg, packet_id, readings);
            &&& found.len() == readings.len()
            &&& forall|f: Seq<char>|
                reg@.active.contains(f) <==> exists|k: int|
                    0 <= k < found.len() && (#[trigger] found[k]).fault == f
            &&& forall|j: int, k: int|
                0 <= j < k < found.len() ==> (#[trigger] found[j]).fault != (
                #[trigger] found[k]).fault
            &&& forall|k: int|
                0 <= k < found.len() ==> {
                    let c = #[trigger] found[k];
                    &&& c.age.nanos == age_of(reg@, c.fault, readings[k])
                    &&& c.recover <==> age_of(reg@, c.fault, readings[k]) / 1_000_000 > 2000
                    &&& c.blocked == blocks(c.fault, packet_id)
                }
        }),
{
    let names = reg.active.names();
    let found = whole_check(reg, packet_id, readings);
    assert forall|f: Seq<char>|
        reg@.active.contains(f) <==> exists|k: int|
            0 <= k < found.len() && (#[trigger] found[k]).fault == f by {
        if reg@.active.contains(f) {
            assert(names.contains(f));
            let k = names.index_of(f);
            assert(found[k].fault == f);
        }
        if exists|k: int| 0 <= k < found.len() && (#[trigger] found[k]).fault == f {
            let k = choose|k: int| 0 <= k < found.len() && (#[trigger] found[k]).fault == f;
            assert(names[k] == f);
            assert(names.contains(f));
        }
    }
    assert forall|j: int, k: int| 0 <= j < k < found.len() implies (#[trigger] found[j]).fault != (
    #[trigger] found[k]).fault by {
        assert(names[j] != names[k]);
    }
}

/// Checks `packet_id` at `now` against the active fault at `position`; gives nothing behind
/// the last one.
pub fn handle_fault(reg: &FaultRegistry, position: usize, packet_id: u32, now: Instant) -> (r:
    Option<FaultCheck>)
    ensures
        reg.active.listed(),
        match r {
            Some(c) => position < reg.active.names().len() && c@ == check_of(
                reg@,
                reg.active.names()[position as int],
                packet_id,
                now,
            ),
            None => position >= reg.active.names().len(),
        },
{
    if position >= reg.active.len() {
        return None;
    }
    let fault: &str = reg.active.name_at(position);
    let age: Duration = match reg.timestamps.get(fault) {
        Some(since) => now.duration_since(*since),
        None => Duration { nanos: 0 },
    };
    Some(
        FaultCheck {
            fault: fault.to_string(),
            blocked: fault_blocks_packet(fault, packet_id),
            age,
            severity: severity_on_record(reg, fault),
            recover: age.as_millis() > RECOVERY_AGE_MS,
        },
    )
}

/// The lines of the health summary for the first `n` of `names`.
pub open spec fn health_lines(v: FaultView, names: Seq<Seq<char>>, n: nat) -> Seq<Seq<char>>
    decreases n,
{
    if n == 0 {
        if names.len() == 0 {
            seq![timing::stamped_text("✅ HEALTHY: No active faults."@)]
        } else {
            seq![
                timing::stamped_text(
                    "🛑 ALERT: "@ + text::decimal(names.len()) + " active fault(s) detected."@,
                ),
            ]
        }
    } else {
        let fault = names[n - 1];
        health_lines(v, names, (n - 1) as nat).push(
            timing::stamped_text(
                "➤ Fault: "@ + fault + " | Severity: "@ + recorded_severity(v, fault),
            ),
        )
    }
}

/// The log lines of the health summary.
pub fn print_health_summary(reg: &FaultRegistry) -> (lines: Vec<String>)
    ensures
        reg.active.listed(),
        text::texts(lines@) == health_lines(
            reg@,
            reg.active.names(),
            reg.active.names().len(),
        ),
{
    let n: usize = reg.active.len();
    let ghost names = reg.active.names();
    let mut lines: Vec<String> = Vec::new();
    if n == 0 {
        lines.push(timing::stamped("✅ HEALTHY: No active faults."));
    } else {
        lines.push(
            timing::stamped(
                text::join3(
                    "🛑 ALERT: ",
                    text::number(n as u128).as_str(),
                    " active fault(s) detected.",
                ).as_str(),
            ),
        );
    }
    assert(text::texts(lines@) =~= health_lines(reg@, names, 0));
    let mut i: usize = 0;
    while i < n
        invariant
            i <= n,
            n == names.len(),
            names == reg.active.names(),
            text::texts(lines@) == health_lines(reg@, names, i as nat),
        decreases n - i,
    {
        let ghost before = text::texts(lines@);
        let fault: &str = reg.active.name_at(i);
        let severity: String = severity_on_record(reg, fault);
        let mut body: String = text::join3("➤ Fault: ", fault, " | Severity: ");
        body.append(severity.as_str());
        let line: String = timing::stamped(body.as_str());
        let ghost said = line@;
        lines.push(line);
        assert(text::texts(lines@) =~= before.push(said));
        i += 1;
    }
    lines
}

/// The packet that announces a sweep of the faults to the downlink.
pub fn fault_event_packet(timestamp: Timestamp, queued_at: Instant, window_start_at: Timestamp) -> (r:
    DownlinkPacket)
    ensures
        r.id == 0,
        r.sensor_name@ == "FAULT"@,
        r.compressed_value@ == "FAULT_EVENT"@,
        r.timestamp == timestamp,
        r.priority == 0,
        r.response_tx is None,
        r.queued_at == queued_at,
        r.window_start_at == window_start_at,
{
    DownlinkPacket {
        id: 0,
        sensor_name: "FAULT".to_string(),
        compressed_value: "FAULT_EVENT".to_string(),
        timestamp,
        priority: 0,
        response_tx: None,
        queued_at,
        window_start_at,
    }
}

/// The log line of a fault that became active.
pub fn detected_line(fault: &str) -> (r: String)
    ensures
        r@ == timing::stamped_text("⚠️  FAULT DETECTED ["@ + severity_of(fault@) + "]: "@ + fault@),
{
    let mut body: String = text::join3("⚠️  FAULT DETECTED [", severity(fault), "]: ");
    body.append(fault);
    timing::stamped(body.as_str())
}

/// The log line of a fault that was cleared.
pub fn cleared_line(fault: &str) -> (r: String)
    ensures
        r@ == timing::stamped_text("✅ FAULT CLEARED: "@ + fault@),
{
    timing::stamped(text::join("✅ FAULT CLEARED: ", fault).as_str())
}

/// The log line that a check of a packet starts with.
pub fn checking_line(packet_id: u32) -> (r: String)
    ensures
        r@ == timing::stamped_text(
            "🔎 Checking Packet "@ + text::decimal(packet_id as nat) + " for faults..."@,
        ),
{
    timing::stamped(
        text::join3(
            "🔎 Checking Packet ",
            text::number(packet_id as u128).as_str(),
            " for faults...",
        ).as_str(),
    )
}

/// The log line of a check without active faults.
pub fn safe_line(packet_id: u32) -> (r: String)
    ensures
        r@ == timing::stamped_text(
            "✅ No faults. Packet "@ + text::decimal(packet_id as nat) + " is SAFE."@,
        ),
{
    timing::stamped(
        text::join3(
            "✅ No faults. Packet ",
            text::number(packet_id as u128).as_str(),
            " is SAFE.",
        ).as_str(),
    )
}

/// The log line that says whether the fault of `check` keeps a packet back.
pub fn verdict_line(check: &FaultCheck, packet_id: u32) -> (r: String)
    ensures
        r@ == timing::stamped_text(
            if check.blocked {
                "❌ BLOCKED: Fault ["@ + check.fault@ + "] blocks Packet "@
            } else {
                "✅ ALLOWED: Fault ["@ + check.fault@ + "] does not block Packet "@
            } + text::decimal(packet_id as nat),
        ),
{
    let mut body: String = if check.blocked {
        text::join3("❌ BLOCKED: Fault [", check.fault.as_str(), "] blocks Packet ")
    } else {
        text::join3("✅ ALLOWED: Fault [", check.fault.as_str(), "] does not block Packet ")
    };
    body.append(text::number(packet_id as u128).as_str());
    timing::stamped(body.as_str())
}

/// The log line that gives age and severity of a fault.
pub fn age_line(check: &FaultCheck) -> (r: String)
    ensures
        r@ == timing::stamped_text(
            "🕓 Fault Age: "@ + text::decimal(check.age.millis()) + " ms | Severity: "@
                + check.severity@,
        ),
{
    let mut body: String = text::join3(
        "🕓 Fault Age: ",
        text::number(check.age.as_millis()).as_str(),
        " ms | Severity: ",
    );
    body.append(check.severity.as_str());
    timing::stamped(body.as_str())
}

/// The log line of a recovery from `fault`.
pub fn recovered_line(fault: &str, took: Duration) -> (r: String)
    ensures
        r@ == timing::stamped_text(
            "🛠️ Fault ["@ + fault@ + "] recovered in "@ + text::decimal(took.millis()) + " ms"@,
        ),
{
    let mut body: String = text::join3("🛠️ Fault [", fault, "] recovered in ");
    body.append(text::number(took.as_millis()).as_str());
    body.append(" ms");
    timing::stamped(body.as_str())
}

/// The log line that the fault injector ends with.
pub fn injector_line() -> (r: String)
    ensures
        r@ == timing::stamped_text("🛑 Fault injector thread terminated."@),
{
    timing::stamped("🛑 Fault injector thread terminated.")
}

proof fn lemma_faults_differ()
    ensures
        "TEMP_HIGH"@ != "BATTERY_LOW"@,
        "TEMP_HIGH"@ != "SIGNAL_LOSS"@,
        "BATTERY_LOW"@ != "SIGNAL_LOSS"@,
{
    reveal_strlit("TEMP_HIGH");
    reveal_strlit("BATTERY_LOW");
    reveal_strlit("SIGNAL_LOSS");
    assert("TEMP_HIGH"@[0] == 'T');
    assert("BATTERY_LOW"@[0] == 'B');
    assert("SIGNAL_LOSS"@[0] == 'S');
}

/// What each fault keeps back, whatever the number: a high temperature every fifth packet, a
/// low battery every fourth, a lost signal every second, and no other fault any.
pub proof fn law_faults_block_their_multiples(fault: Seq<char>, n: u32)
    ensures
        blocks("TEMP_HIGH"@, n) <==> exists|k: int| n == #[trigger] (5 * k),
        blocks("BATTERY_LOW"@, n) <==> exists|k: int| n == #[trigger] (4 * k),
        blocks("SIGNAL_LOSS"@, n) <==> exists|k: int| n == #[trigger] (2 * k),
        blocks(fault, n) ==> fault == "TEMP_HIGH"@ || fault == "BATTERY_LOW"@ || fault
            == "SIGNAL_LOSS"@,
{
    lemma_faults_differ();
    if n % 5 == 0 {
        assert(n == 5 * (n as int / 5));
    }
    if n % 4 == 0 {
        assert(n == 4 * (n as int / 4));
    }
    if n % 2 == 0 {
        assert(n == 2 * (n as int / 2));
    }
}

/// A packet is kept back exactly when five divides its number and the temperature is high, or
/// four and the battery is low, or two and the signal is lost. Only faults with a known time
/// count, which in a consistent registry are all the active ones.
pub proof fn law_interlock_is_exact(v: FaultView, n: u32)
    ensures
        v.safe(n) <==> {
            &&& !(n % 5 == 0 && v.active.contains("TEMP_HIGH"@) && v.timestamps.dom().contains(
                "TEMP_HIGH"@,
            ))
            &&& !(n % 4 == 0 && v.active.contains("BATTERY_LOW"@) && v.timestamps.dom().contains(
                "BATTERY_LOW"@,
            ))
            &&& !(n % 2 == 0 && v.active.contains("SIGNAL_LOSS"@) && v.timestamps.dom().contains(
                "SIGNAL_LOSS"@,
            ))
        },
        v.timestamps.dom() == v.active ==> {
            &&& v.active.contains("TEMP_HIGH"@) && n % 5 == 0 ==> !v.safe(n)
            &&& v.active.contains("BATTERY_LOW"@) && n % 4 == 0 ==> !v.safe(n)
            &&& v.active.contains("SIGNAL_LOSS"@) && n % 2 == 0 ==> !v.safe(n)
        },
{
    lemma_faults_differ();
    if v.safe(n) {
        assert(!v.blocked_by("TEMP_HIGH"@, n));
        assert(!v.blocked_by("BATTERY_LOW"@, n));
        assert(!v.blocked_by("SIGNAL_LOSS"@, n));
    }
}

/// A fault is cleared exactly when it was detected more than fifteen seconds ago, however long
/// ago that is; so one that is cleared at some time would be at every later time.
pub proof fn law_faults_expire_after_fifteen_seconds(
    v: FaultView,
    fault: Seq<char>,
    now: Instant,
    later: Instant,
)
    requires
        v.timestamps.dom().contains(fault),
    ensures
        v.expired(fault, now) <==> now.nanos > v.timestamps[fault].nanos + 15_000_000_000,
        v.expired(fault, now) && later.nanos >= now.nanos ==> v.expired(fault, later),
{
}

/// When `fault` struck, according to the draws.
pub open spec fn drawn_at(draws: Seq<Option<Instant>>, fault: Seq<char>) -> Option<Instant> {
    if fault == "TEMP_HIGH"@ {
        draws[0]
    } else if fault == "BATTERY_LOW"@ {
        draws[1]
    } else if fault == "SIGNAL_LOSS"@ {
        draws[2]
    } else {
        None
    }
}

proof fn lemma_after_draws(v: FaultView, draws: Seq<Option<Instant>>, f: Seq<char>)
    requires
        draws.len() == 3,
    ensures
        ({
            let w = v.after_draws(draws, 3);
            let fresh = !v.active.contains(f) && drawn_at(draws, f) is Some;
            &&& w.active.contains(f) <==> v.active.contains(f) || fresh
            &&& w.timestamps.dom().contains(f) <==> v.timestamps.dom().contains(f) || fresh
            &&& w.severities.dom().contains(f) <==> v.severities.dom().contains(f) || fresh
            &&& fresh ==> w.timestamps[f] == drawn_at(draws, f)->0
            &&& fresh ==> w.severities[f] == severity_of(f)
            &&& !fresh ==> w.timestamps[f] == v.timestamps[f] && w.severities[f]
                == v.severities[f]
            &&& v.detected(draws, 3).contains(f) <==> fresh
        }),
{
    lemma_faults_differ();
    reveal_with_fuel(FaultView::after_draws, 4);
    reveal_with_fuel(FaultView::detected, 4);
    let a = v.after_draws(draws, 1);
    let b = v.after_draws(draws, 2);
    let w = v.after_draws(draws, 3);
    assert(a == v.struck("TEMP_HIGH"@, draws[0]));
    assert(b == a.struck("BATTERY_LOW"@, draws[1]));
    assert(w == b.struck("SIGNAL_LOSS"@, draws[2]));
    let d1 = v.detected(draws, 1);
    let d2 = v.detected(draws, 2);
    let d3 = v.detected(draws, 3);
    let none = Seq::<Seq<char>>::empty();
    assert(d1.contains(f) <==> f == "TEMP_HIGH"@ && draws[0] is Some && !v.active.contains(f)) by {
        if draws[0] is Some && !v.active.contains("TEMP_HIGH"@) {
            assert(d1 =~= none.push("TEMP_HIGH"@));
            assert(d1[0] == "TEMP_HIGH"@);
        } else {
            assert(d1 =~= none);
        }
    }
    assert(d2.contains(f) <==> d1.contains(f) || (f == "BATTERY_LOW"@ && draws[1] is Some
        && !a.active.contains(f))) by {
        if draws[1] is Some && !a.active.contains("BATTERY_LOW"@) {
            lemma_push_contains(d1, "BATTERY_LOW"@, f);
        }
    }
    assert(d3.contains(f) <==> d2.contains(f) || (f == "SIGNAL_LOSS"@ && draws[2] is Some
        && !b.active.contains(f))) by {
        if draws[2] is Some && !b.active.contains("SIGNAL_LOSS"@) {
            lemma_push_contains(d2, "SIGNAL_LOSS"@, f);
        }
    }
}

proof fn lemma_push_contains(s: Seq<Seq<char>>, x: Seq<char>, f: Seq<char>)
    ensures
        s.push(x).contains(f) <==> s.contains(f) || x == f,
{
    if s.contains(f) {
        let j = s.index_of(f);
        assert(s.push(x)[j] == f);
    }
    assert(s.push(x)[s.len() as int] == x);
}

/// A sweep is exact. A fault that was active keeps its time, another one that was drawn gets
/// the time of its draw and its severity and is told as detected; and of these exactly those
/// are active afterwards, with time and severity, that are not more than fifteen seconds old.
pub proof fn law_sweep_is_exact(
    v: FaultView,
    draws: Seq<Option<Instant>>,
    now: Instant,
    f: Seq<char>,
)
    requires
        draws.len() == 3,
        v.timestamps.dom() == v.active,
        v.severities.dom() == v.active,
    ensures
        ({
            let s = v.swept(draws, now);
            let drawn = drawn_at(draws, f);
            let fresh = !v.active.contains(f) && drawn is Some;
            let since = if v.active.contains(f) {
                v.timestamps[f].nanos as int
            } else {
                drawn->0.nanos as int
            };
            let stays = (v.active.contains(f) || fresh) && now.nanos - since <= 15_000_000_000;
            &&& s.active.contains(f) <==> stays
            &&& s.timestamps.dom().contains(f) <==> stays
            &&& s.severities.dom().contains(f) <==> stays
            &&& stays ==> s.timestamps[f].nanos == since
            &&& stays && v.active.contains(f) ==> s.severities[f] == v.severities[f]
            &&& stays && fresh ==> s.severities[f] == if f == "SIGNAL_LOSS"@ {
                "CRITICAL"@
            } else {
                "WARNING"@
            }
            &&& v.detected(draws, 3).contains(f) <==> fresh
        }),
{
    lemma_faults_differ();
    lemma_after_draws(v, draws, f);
}

/// Severities do not depend on anything but the fault: a lost signal is critical, the other two
/// known faults are warnings, and what else there is is unknown.
pub proof fn law_severities(fault: Seq<char>)
    ensures
        severity_of("SIGNAL_LOSS"@) == "CRITICAL"@,
        severity_of("BATTERY_LOW"@) == "WARNING"@,
        severity_of("TEMP_HIGH"@) == "WARNING"@,
        fault != "SIGNAL_LOSS"@ && fault != "BATTERY_LOW"@ && fault != "TEMP_HIGH"@
            ==> severity_of(fault) == "UNKNOWN"@,
{
    lemma_faults_differ();
}

/// A fault with a known time is as old as the clock has run since, one without has no age; the
/// severity on record is the recorded one, if any.
pub proof fn law_age_and_severity_on_record(v: FaultView, fault: Seq<char>, now: Instant)
    ensures
        v.timestamps.dom().contains(fault) && now.nanos >= v.timestamps[fault].nanos ==> age_of(
            v,
            fault,
            now,
        ) + v.timestamps[fault].nanos == now.nanos,
        !v.timestamps.dom().contains(fault) || now.nanos < v.timestamps[fault].nanos ==> age_of(
            v,
            fault,
            now,
        ) == 0,
        v.severities.dom().contains(fault) ==> recorded_severity(v, fault) == v.severities[fault],
        !v.severities.dom().contains(fault) ==> recorded_severity(v, fault) == "UNKNOWN"@,
{
}

/// Striking changes nothing about an active fault, makes another one active with its time and
/// severity, and leaves all other faults alone; clearing takes out the faults named and no
/// other.
pub proof fn law_strike_and_clear(
    v: FaultView,
    fault: Seq<char>,
    at: Instant,
    gone: Set<Seq<char>>,
    other: Seq<char>,
)
    ensures
        v.active.contains(fault) ==> v.struck(fault, Some(at)) == v,
        !v.active.contains(fault) ==> {
            let w = v.struck(fault, Some(at));
            &&& w.active == v.active.insert(fault)
            &&& w.timestamps == v.timestamps.insert(fault, at)
            &&& w.severities == v.severities.insert(fault, severity_of(fault))
        },
        v.struck(fault, None) == v,
        v.without(gone).active.contains(other) <==> v.active.contains(other) && !gone.contains(
            other,
        ),
        v.without(gone).timestamps.dom().contains(other) <==> v.timestamps.dom().contains(other)
            && !gone.contains(other),
        v.without(gone).severities.dom().contains(other) <==> v.severities.dom().contains(other)
            && !gone.contains(other),
        v.without(gone).timestamps.dom().contains(other) ==> v.without(gone).timestamps[other]
            == v.timestamps[other],
        v.without(gone).severities.dom().contains(other) ==> v.without(gone).severities[other]
            == v.severities[other],
{
}

/// The registry is seen with its own faults, times and severities.
pub proof fn law_registry_is_seen_whole(reg: FaultRegistry, f: Seq<char>)
    ensures
        reg@.active == reg.active@.dom(),
        reg@.timestamps == reg.timestamps@,
        reg@.severities.dom() == reg.severities@.dom(),
        reg.severities@.dom().contains(f) ==> reg@.severities[f] == reg.severities@[f]@,
{
    assert(reg@.severities.dom() =~= reg.severities@.dom());
}

/// The lines about a command that is kept back name the packet, the fault and the latency in
/// milliseconds, and there is an alert among them exactly beyond a tenth of a second.
pub proof fn law_blocking_lines(fault: Seq<char>, packet_id: u32, latency: Duration)
    ensures
        ({
            let lines = blocking_lines(fault, packet_id, latency);
            let id = text::decimal(packet_id as nat);
            let ms = text::decimal((latency.nanos / 1_000_000) as nat);
            let late = latency.nanos > 100_000_000;
            &&& lines.len() == if late {
                4nat
            } else {
                3nat
            }
            &&& lines[0] == "["@ + Seq::<char>::empty() + "] "@ + ("🚫 BLOCKED: Packet "@ + id
                + " blocked by ["@ + fault + "]"@)
            &&& lines[1] == "["@ + Seq::<char>::empty() + "] "@ + ("⏱️  Interlock Latency: "@ + ms
                + " ms (from fault detection to command block)"@)
            &&& late ==> lines[2] == "["@ + Seq::<char>::empty() + "] "@ + (
            "🔥 ALERT: Latency exceeds threshold ("@ + text::decimal(100) + " ms)"@)
            &&& lines.last() == "["@ + Seq::<char>::empty() + "] "@ + (
            "📄 Logged: Interlock delay for command "@ + id + " due to fault ["@ + fault
                + "] was "@ + ms + " ms"@)
        }),
{
}

/// The check of a fault gives its age and its severity on record, calls it blocked exactly for the
/// packets it keeps back, and asks for a recovery exactly when more than two whole seconds have
/// gone by since its detection.
pub proof fn law_check_is_exact(v: FaultView, fault: Seq<char>, n: u32, now: Instant)
    requires
        v.timestamps.dom().contains(fault),
        v.severities.dom().contains(fault),
    ensures
        ({
            let c = check_of(v, fault, n, now);
            let since = v.timestamps[fault];
            &&& c.fault == fault
            &&& c.severity == v.severities[fault]
            &&& now.nanos >= since.nanos ==> since.nanos + c.age.nanos == now.nanos
            &&& now.nanos < since.nanos ==> c.age.nanos == 0
            &&& c.recover <==> now.nanos >= since.nanos + 2_001_000_000
            &&& c.blocked <==> {
                ||| fault == "TEMP_HIGH"@ && n % 5 == 0
                ||| fault == "BATTERY_LOW"@ && n % 4 == 0
                ||| fault == "SIGNAL_LOSS"@ && n % 2 == 0
            }
        }),
{
    lemma_faults_differ();
}

/// The health summary is one line when nothing is wrong, and otherwise the number of active
/// faults followed by one line for each, in order, with its severity.
pub proof fn law_health_summary(v: FaultView, names: Seq<Seq<char>>, n: nat, k: int)
    requires
        n <= names.len(),
    ensures
        ({
            let lines = health_lines(v, names, n);
            &&& lines.len() == n + 1
            &&& names.len() == 0 ==> lines[0] == timing::stamped_text(
                "✅ HEALTHY: No active faults."@,
            )
            &&& names.len() > 0 ==> lines[0] == timing::stamped_text(
                "🛑 ALERT: "@ + text::decimal(names.len()) + " active fault(s) detected."@,
            )
            &&& 0 <= k < n ==> lines[k + 1] == timing::stamped_text(
                "➤ Fault: "@ + names[k] + " | Severity: "@ + recorded_severity(v, names[k]),
            )
        }),
    decreases n,
{
    if n > 0 {
        law_health_summary(v, names, (n - 1) as nat, k);
    }
}

} // verus!
