//! The system scheduler: periodic jobs, rate-monotonic priorities, preemption.

use crate::clock;
use crate::clock::{Duration, Instant};
use crate::monitor;
use crate::monitor::MonitoringData;
use crate::text;
use crate::types::SystemTask;
use vstd::prelude::*;

verus! {

/// The length of a scheduling cycle, in nanoseconds.
pub const CYCLE_NANOS: u128 = 1_000_000_000;

/// The time that handling the critical sensor takes, in nanoseconds.
pub const THERMAL_NANOS: u128 = 5_000_000;

/// Drift or jitter beyond which a job is out of order, in nanoseconds.
pub const HIGH_DEVIATION_NANOS: u128 = 5_000_000;

/// How much later a preempted job is released again, in nanoseconds.
pub const REQUEUE_NANOS: u128 = 5_000_000;

/// Whether task `j` goes before task `i`: its period is shorter, or as long and it is
/// listed first.
pub open spec fn precedes(tasks: Seq<SystemTask>, j: int, i: int) -> bool {
    tasks[j].period.nanos < tasks[i].period.nanos || (tasks[j].period.nanos
        == tasks[i].period.nanos && j < i)
}

/// How many of the first `n` tasks go before task `i`.
pub open spec fn rank(tasks: Seq<SystemTask>, i: int, n: int) -> int
    decreases n,
{
    if n <= 0 {
        0
    } else if precedes(tasks, n - 1, i) {
        rank(tasks, i, n - 1) + 1
    } else {
        rank(tasks, i, n - 1)
    }
}

/// The tasks with rate-monotonic priorities: the shortest period has number one.
pub open spec fn prioritized(tasks: Seq<SystemTask>) -> Seq<SystemTask> {
    Seq::new(
        tasks.len(),
        |i: int|
            SystemTask { priority: (rank(tasks, i, tasks.len() as int) + 1) as u8, ..tasks[i] },
    )
}

/// Whether `t` has a job due at `now`.
pub open spec fn is_due(t: SystemTask, now: Instant) -> bool {
    now.nanos >= t.next_release.nanos
}

/// The deadline of the job that is released next.
pub open spec fn next_deadline(t: SystemTask) -> Instant {
    Instant { nanos: (t.next_release.nanos + t.period.nanos) as u128 }
}

/// The jobs due at `now`, at most one for each task, in the order of the tasks.
pub open spec fn due_jobs(tasks: Seq<SystemTask>, now: Instant) -> Seq<SystemTask>
    decreases tasks.len(),
{
    if tasks.len() == 0 {
        Seq::empty()
    } else {
        let jobs = due_jobs(tasks.drop_last(), now);
        let t = tasks.last();
        if is_due(t, now) {
            jobs.push(SystemTask { deadline: next_deadline(t), ..t })
        } else {
            jobs
        }
    }
}

/// The tasks after the jobs due at `now` were released: each such task is a period on.
pub open spec fn released(tasks: Seq<SystemTask>, now: Instant) -> Seq<SystemTask> {
    Seq::new(
        tasks.len(),
        |i: int|
            {
                let t = tasks[i];
                if is_due(t, now) {
                    SystemTask {
                        deadline: next_deadline(t),
                        next_release: next_deadline(t),
                        ..t
                    }
                } else {
                    t
                }
            },
    )
}

/// Whether the clock reaches far enough for the releases at `now`.
pub open spec fn can_release(tasks: Seq<SystemTask>, now: Instant) -> bool {
    forall|i: int|
        0 <= i < tasks.len() && is_due(#[trigger] tasks[i], now) ==> tasks[i].next_release.nanos
            + tasks[i].period.nanos <= u128::MAX
}

/// The first position that holds the lowest priority number.
pub open spec fn first_urgent(jobs: Seq<SystemTask>) -> int
    decreases jobs.len(),
{
    if jobs.len() <= 1 {
        0
    } else {
        let rest = first_urgent(jobs.drop_last());
        if jobs.last().priority < jobs[rest].priority {
            jobs.len() - 1
        } else {
            rest
        }
    }
}

/// What is left of a job that was stopped with `remaining` time to go.
pub open spec fn remainder(job: SystemTask, remaining: int, next_release: Instant) -> SystemTask {
    SystemTask { execution_time: Duration { nanos: remaining as u128 }, next_release, ..job }
}

/// `jobs` and what is left of `job` when it is stopped at `stopped` and would have ended at
/// `end_time`; nothing when no time was left.
pub open spec fn with_remainder(
    jobs: Seq<SystemTask>,
    job: SystemTask,
    end_time: Instant,
    stopped: Instant,
    next_release: Instant,
) -> Seq<SystemTask> {
    if stopped.nanos < end_time.nanos {
        jobs.push(remainder(job, end_time.nanos - stopped.nanos, next_release))
    } else {
        jobs
    }
}

proof fn lemma_first_urgent(jobs: Seq<SystemTask>)
    requires
        jobs.len() > 0,
    ensures
        0 <= first_urgent(jobs) < jobs.len(),
        forall|j: int|
            0 <= j < jobs.len() ==> jobs[first_urgent(jobs)].priority <= (
            #[trigger] jobs[j]).priority,
    decreases jobs.len(),
{
    if jobs.len() > 1 {
        let rest = jobs.drop_last();
        lemma_first_urgent(rest);
        assert forall|j: int| 0 <= j < jobs.len() implies jobs[first_urgent(jobs)].priority <= (
        #[trigger] jobs[j]).priority by {
            if j < rest.len() {
                assert(rest[j] == jobs[j]);
            }
        }
    }
}

proof fn lemma_rank_bounds(tasks: Seq<SystemTask>, i: int, n: int)
    requires
        0 <= n <= tasks.len(),
        0 <= i < tasks.len(),
    ensures
        0 <= rank(tasks, i, n) <= n,
        i < n ==> rank(tasks, i, n) < n,
    decreases n,
{
    if n > 0 {
        lemma_rank_bounds(tasks, i, n - 1);
    }
}

proof fn lemma_rank_grows(tasks: Seq<SystemTask>, i: int, j: int, n: int)
    requires
        0 <= n <= tasks.len(),
        precedes(tasks, i, j),
        0 <= i < tasks.len(),
        0 <= j < tasks.len(),
    ensures
        rank(tasks, i, n) <= rank(tasks, j, n),
        i < n ==> rank(tasks, i, n) < rank(tasks, j, n),
    decreases n,
{
    if n > 0 {
        lemma_rank_grows(tasks, i, j, n - 1);
    }
}

/// Shorter periods have lower priority numbers, tasks with the same period keep their order,
/// and the numbers are all different and lie between one and the number of tasks. Nothing else
/// about a task changes.
pub proof fn law_shorter_period_is_more_urgent(tasks: Seq<SystemTask>, i: int, j: int)
    requires
        tasks.len() <= u8::MAX,
        0 <= i < tasks.len(),
        0 <= j < tasks.len(),
    ensures
        prioritized(tasks).len() == tasks.len(),
        precedes(tasks, i, j) ==> prioritized(tasks)[i].priority < prioritized(tasks)[j].priority,
        tasks[i].period.nanos < tasks[j].period.nanos ==> prioritized(tasks)[i].priority
            < prioritized(tasks)[j].priority,
        tasks[i].period.nanos == tasks[j].period.nanos && i < j ==> prioritized(tasks)[i].priority
            < prioritized(tasks)[j].priority,
        i != j ==> prioritized(tasks)[i].priority != prioritized(tasks)[j].priority,
        1 <= prioritized(tasks)[i].priority <= tasks.len(),
        prioritized(tasks)[i] == (SystemTask {
            priority: prioritized(tasks)[i].priority,
            ..tasks[i]
        }),
        prioritized(tasks)[i].priority <= prioritized(tasks)[j].priority
            ==> tasks[i].period.nanos <= tasks[j].period.nanos,
{
    let n = tasks.len() as int;
    lemma_rank_bounds(tasks, i, n);
    lemma_rank_bounds(tasks, j, n);
    if precedes(tasks, i, j) {
        lemma_rank_grows(tasks, i, j, n);
    }
    if precedes(tasks, j, i) {
        lemma_rank_grows(tasks, j, i, n);
    }
}

proof fn lemma_cycle_is_rate_monotonic(tasks: Seq<SystemTask>, now: Instant)
    requires
        tasks.len() <= u8::MAX,
    ensures
        rate_monotonic(released(prioritized(tasks), now)),
{
    let after = released(prioritized(tasks), now);
    assert forall|i: int, j: int|
        0 <= i < after.len() && 0 <= j < after.len() && (#[trigger] after[i]).priority <= (
        #[trigger] after[j]).priority implies after[i].period.nanos <= after[j].period.nanos by {
        law_shorter_period_is_more_urgent(tasks, i, j);
    }
}

/// Whether `job` has the period and the priority of one of the tasks.
pub open spec fn belongs(job: SystemTask, tasks: Seq<SystemTask>) -> bool {
    exists|i: int|
        0 <= i < tasks.len() && (#[trigger] tasks[i]).period == job.period && tasks[i].priority
            == job.priority
}

/// Whether a more urgent task never has a longer period.
pub open spec fn rate_monotonic(tasks: Seq<SystemTask>) -> bool {
    forall|i: int, j: int|
        0 <= i < tasks.len() && 0 <= j < tasks.len() && (#[trigger] tasks[i]).priority <= (
        #[trigger] tasks[j]).priority ==> tasks[i].period.nanos <= tasks[j].period.nanos
}

proof fn lemma_due_jobs_belong(tasks: Seq<SystemTask>, now: Instant)
    ensures
        forall|k: int|
            0 <= k < due_jobs(tasks, now).len() ==> belongs(
                #[trigger] due_jobs(tasks, now)[k],
                tasks,
            ),
    decreases tasks.len(),
{
    if tasks.len() > 0 {
        let rest = tasks.drop_last();
        lemma_due_jobs_belong(rest, now);
        assert forall|k: int| 0 <= k < due_jobs(tasks, now).len() implies belongs(
            #[trigger] due_jobs(tasks, now)[k],
            tasks,
        ) by {
            let job = due_jobs(tasks, now)[k];
            if k < due_jobs(rest, now).len() {
                assert(job == due_jobs(rest, now)[k]);
                let i = choose|i: int|
                    0 <= i < rest.len() && (#[trigger] rest[i]).period == job.period
                        && rest[i].priority == job.priority;
                assert(rest[i] == tasks[i]);
            } else {
                assert(tasks[tasks.len() - 1].period == job.period);
            }
        }
    }
}

proof fn lemma_release_keeps_belonging(job: SystemTask, tasks: Seq<SystemTask>, now: Instant)
    requires
        belongs(job, tasks),
    ensures
        belongs(job, released(tasks, now)),
{
    let i = choose|i: int|
        0 <= i < tasks.len() && (#[trigger] tasks[i]).period == job.period && tasks[i].priority
            == job.priority;
    assert(released(tasks, now)[i].period == job.period);
}

/// A job that is stopped on its way keeps its name, period, priority and deadline, and what
/// it has run and what it still has to run add up to what it had to run.
pub proof fn law_preemption_keeps_work(
    job: SystemTask,
    start: Instant,
    stopped: Instant,
    next_release: Instant,
)
    requires
        start.nanos + job.execution_time.nanos <= u128::MAX,
        start.nanos <= stopped.nanos < start.nanos + job.execution_time.nanos,
    ensures
        ({
            let end_time = Instant { nanos: (start.nanos + job.execution_time.nanos) as u128 };
            let left = with_remainder(Seq::empty(), job, end_time, stopped, next_release);
            &&& left.len() == 1
            &&& left[0].execution_time.nanos + (stopped.nanos - start.nanos)
                == job.execution_time.nanos
            &&& left[0].name == job.name
            &&& left[0].period == job.period
            &&& left[0].priority == job.priority
            &&& left[0].deadline == job.deadline
        }),
{
}

/// A release gives each task at most one job, and every job the deadline one period after
/// its release.
pub proof fn law_one_job_per_task(tasks: Seq<SystemTask>, now: Instant)
    requires
        can_release(tasks, now),
    ensures
        due_jobs(tasks, now).len() <= tasks.len(),
        forall|k: int|
            0 <= k < due_jobs(tasks, now).len() ==> (#[trigger] due_jobs(
                tasks,
                now,
            )[k]).deadline.nanos == due_jobs(tasks, now)[k].next_release.nanos + due_jobs(
                tasks,
                now,
            )[k].period.nanos,
    decreases tasks.len(),
{
    if tasks.len() > 0 {
        let rest = tasks.drop_last();
        assert forall|i: int| 0 <= i < rest.len() && is_due(#[trigger] rest[i], now) implies
            rest[i].next_release.nanos + rest[i].period.nanos <= u128::MAX by {
            assert(rest[i] == tasks[i]);
        }
        law_one_job_per_task(rest, now);
        assert(tasks.last() == tasks[tasks.len() - 1]);
    }
}

/// Priorities and releases leave a task's name, period and execution time alone, and each
/// release moves the next one by exactly one period, however late it comes.
pub proof fn law_cadence_is_kept(tasks: Seq<SystemTask>, now: Instant, i: int)
    requires
        now.nanos >= tasks[i].next_release.nanos ==> tasks[i].next_release.nanos
            + tasks[i].period.nanos <= u128::MAX,
        0 <= i < tasks.len(),
    ensures
        ({
            let before = tasks[i];
            let after = released(prioritized(tasks), now)[i];
            &&& after.name == before.name
            &&& after.period == before.period
            &&& after.execution_time == before.execution_time
            &&& after.next_release.nanos == before.next_release.nanos + if now.nanos
                >= before.next_release.nanos {
                before.period.nanos as int
            } else {
                0
            }
            &&& after.deadline.nanos == if now.nanos >= before.next_release.nanos {
                before.next_release.nanos + before.period.nanos
            } else {
                before.deadline.nanos as int
            }
        }),
{
    assert(is_due(tasks[i], now) == is_due(prioritized(tasks)[i], now));
}

/// What the scheduler holds. Times are in nanoseconds.
#[verifier::ext_equal]
pub struct SystemView {
    pub tasks: Seq<SystemTask>,
    pub ready: Seq<SystemTask>,
    pub cycle_active: nat,
    pub total_active: nat,
}

impl SystemView {
    /// The active time of the cycle is part of all active time.
    pub open spec fn wf(self) -> bool {
        self.cycle_active <= self.total_active
    }

    /// Every ready job has the period and the priority of one of the tasks.
    pub open spec fn jobs_belong(self) -> bool {
        forall|j: int| 0 <= j < self.ready.len() ==> belongs(#[trigger] self.ready[j], self.tasks)
    }

    /// At the start of a cycle at `now`.
    pub open spec fn after_begin(self, now: Instant) -> SystemView {
        let tasks = prioritized(self.tasks);
        SystemView {
            tasks: released(tasks, now),
            ready: due_jobs(tasks, now),
            cycle_active: 0,
            ..self
        }
    }

    /// After the releases at `now`.
    pub open spec fn after_release(self, now: Instant) -> SystemView {
        SystemView {
            tasks: released(self.tasks, now),
            ready: self.ready + due_jobs(self.tasks, now),
            ..self
        }
    }

    /// With `nanos` more of active time.
    pub open spec fn with_active(self, nanos: nat) -> SystemView {
        SystemView {
            cycle_active: self.cycle_active + nanos,
            total_active: self.total_active + nanos,
            ..self
        }
    }

    /// Whether a job more urgent than `job` is ready.
    pub open spec fn has_more_urgent(self, job: SystemTask) -> bool {
        self.ready.len() > 0 && self.ready[first_urgent(self.ready)].priority < job.priority
    }
}

/// The job that runs next has the shortest period of all that are ready.
pub proof fn law_shortest_period_runs_first(v: SystemView, k: int)
    requires
        v.jobs_belong(),
        rate_monotonic(v.tasks),
        0 <= k < v.ready.len(),
    ensures
        v.ready[first_urgent(v.ready)].period.nanos <= v.ready[k].period.nanos,
{
    lemma_first_urgent(v.ready);
    let first = v.ready[first_urgent(v.ready)];
    let other = v.ready[k];
    assert(belongs(first, v.tasks));
    assert(belongs(other, v.tasks));
    let a = choose|i: int|
        0 <= i < v.tasks.len() && (#[trigger] v.tasks[i]).period == first.period
            && v.tasks[i].priority == first.priority;
    let b = choose|i: int|
        0 <= i < v.tasks.len() && (#[trigger] v.tasks[i]).period == other.period
            && v.tasks[i].priority == other.priority;
    assert(v.tasks[a].priority <= v.tasks[b].priority);
}

proof fn lemma_release_keeps_jobs(v: SystemView, now: Instant)
    requires
        v.jobs_belong(),
    ensures
        v.after_release(now).jobs_belong(),
{
    let after = v.after_release(now);
    lemma_due_jobs_belong(v.tasks, now);
    assert forall|j: int| 0 <= j < after.ready.len() implies belongs(
        #[trigger] after.ready[j],
        after.tasks,
    ) by {
        if j < v.ready.len() {
            assert(after.ready[j] == v.ready[j]);
        } else {
            assert(after.ready[j] == due_jobs(v.tasks, now)[j - v.ready.len()]);
        }
        lemma_release_keeps_belonging(after.ready[j], v.tasks, now);
    }
}

proof fn lemma_remainder_belongs(
    v: SystemView,
    job: SystemTask,
    end_time: Instant,
    stopped: Instant,
    next_release: Instant,
)
    requires
        v.jobs_belong(),
        belongs(job, v.tasks),
    ensures
        (SystemView {
            ready: with_remainder(v.ready, job, end_time, stopped, next_release),
            ..v
        }).jobs_belong(),
{
    let ready = with_remainder(v.ready, job, end_time, stopped, next_release);
    assert forall|j: int| 0 <= j < ready.len() implies belongs(#[trigger] ready[j], v.tasks) by {
        if j < v.ready.len() {
            assert(ready[j] == v.ready[j]);
        } else {
            let i = choose|i: int|
                0 <= i < v.tasks.len() && (#[trigger] v.tasks[i]).period == job.period
                    && v.tasks[i].priority == job.priority;
            assert(v.tasks[i].period == ready[j].period);
        }
    }
}

/// The periodic tasks of the satellite, the jobs that are ready, and the active time.
pub struct SystemScheduler {
    pub tasks: Vec<SystemTask>,
    pub ready: Vec<SystemTask>,
    pub cycle_active: Duration,
    pub total_active: Duration,
}

impl View for SystemScheduler {
    type V = SystemView;

    open spec fn view(&self) -> SystemView {
        SystemView {
            tasks: self.tasks@,
            ready: self.ready@,
            cycle_active: self.cycle_active.nanos as nat,
            total_active: self.total_active.nanos as nat,
        }
    }
}

/// The start of a job.
pub struct JobStart {
    /// When the job ends if nothing stops it.
    pub end_time: Instant,
    /// How long after its release it started.
    pub drift: Duration,
    pub high_drift: bool,
    pub missed_deadline: bool,
}

/// When a job was released.
pub open spec fn release_time(job: SystemTask) -> int {
    if job.deadline.nanos >= job.period.nanos {
        job.deadline.nanos - job.period.nanos
    } else {
        job.deadline.nanos as int
    }
}

/// What happens to a running job at a preemption point.
pub enum Step {
    /// It runs on.
    Continue,
    /// It is stopped for the critical sensor.
    Critical,
    /// It is stopped for the more urgent job of this name.
    Preempted(String),
}

/// A preemption point.
pub struct Quantum {
    /// How many jobs were released.
    pub released: usize,
    pub step: Step,
}

/// The end of a job.
pub struct JobReport {
    pub exec_duration: Duration,
    /// The job ended after its deadline.
    pub late: bool,
    pub jitter: Duration,
    pub high_jitter: bool,
    pub message: String,
}

/// The message that the job `name` ended.
pub open spec fn completed_text(name: Seq<char>, exec: Duration, jitter: Duration) -> Seq<char> {
    "✅ ["@ + name + "] Completed in "@ + text::decimal(exec.millis()) + "ms | Exec jitter: "@
        + text::decimal(jitter.millis()) + "ms"@
}

/// The end of a cycle.
#[derive(Clone, Copy, Debug, PartialEq, Eq, Structural)]
pub struct CycleReport {
    pub active: Duration,
    pub idle: Duration,
    /// How long to sleep until the next cycle.
    pub sleep: Duration,
}

/// The task `name`, first released `release` after `base`, with its deadline `deadline`
/// after `base`; all in milliseconds.
fn system_task(
    name: &str,
    period: u64,
    execution_time: u64,
    priority: u8,
    base: Instant,
    release: u64,
    deadline: u64,
) -> (r: SystemTask)
    requires
        base.nanos + release * 1_000_000 <= u128::MAX,
        base.nanos + deadline * 1_000_000 <= u128::MAX,
    ensures
        r.name@ == name@,
        r.period.nanos == period * 1_000_000,
        r.execution_time.nanos == execution_time * 1_000_000,
        r.priority == priority,
        r.next_release.nanos == base.nanos + release * 1_000_000,
        r.deadline.nanos == base.nanos + deadline * 1_000_000,
{
    SystemTask {
        name: name.to_string(),
        period: Duration::from_millis(period),
        execution_time: Duration::from_millis(execution_time),
        priority,
        next_release: base.plus(Duration::from_millis(release)),
        deadline: base.plus(Duration::from_millis(deadline)),
    }
}

/// Whether `t` is the task with these figures, all but the priority in milliseconds and
/// counted from `base`.
pub open spec fn is_task(
    t: SystemTask,
    name: Seq<char>,
    period: int,
    execution_time: int,
    priority: int,
    base: Instant,
    release: int,
    deadline: int,
) -> bool {
    &&& t.name@ == name
    &&& t.period.nanos == period * 1_000_000
    &&& t.execution_time.nanos == execution_time * 1_000_000
    &&& t.priority == priority
    &&& t.next_release.nanos == base.nanos + release * 1_000_000
    &&& t.deadline.nanos == base.nanos + deadline * 1_000_000
}

/// The first position that holds the lowest priority number.
fn find_urgent(jobs: &Vec<SystemTask>) -> (r: usize)
    requires
        jobs@.len() > 0,
    ensures
        r == first_urgent(jobs@),
        r < jobs@.len(),
{
    let mut urgent: usize = 0;
    let mut i: usize = 1;
    assert(jobs@.take(1).len() == 1);
    while i < jobs.len()
        invariant
            1 <= i <= jobs@.len(),
            urgent < i,
            urgent == first_urgent(jobs@.take(i as int)),
        decreases jobs@.len() - i,
    {
        proof {
            let more = jobs@.take(i + 1);
            assert(more.drop_last() =~= jobs@.take(i as int));
            assert(more.last() == jobs@[i as int]);
            assert(more[urgent as int] == jobs@[urgent as int]);
        }
        if jobs[i].priority < jobs[urgent].priority {
            urgent = i;
        }
        i += 1;
    }
    assert(jobs@.take(i as int) =~= jobs@);
    urgent
}

/// How many tasks go before task `i`.
fn rank_of(tasks: &Vec<SystemTask>, i: usize) -> (r: usize)
    requires
        i < tasks@.len(),
    ensures
        r == rank(tasks@, i as int, tasks@.len() as int),
        r < tasks@.len(),
{
    let mut count: usize = 0;
    let mut j: usize = 0;
    while j < tasks.len()
        invariant
            i < tasks@.len(),
            count <= j <= tasks@.len(),
            count == rank(tasks@, i as int, j as int),
        decreases tasks@.len() - j,
    {
        let earlier: bool = tasks[j].period.nanos < tasks[i].period.nanos || (
        tasks[j].period.nanos == tasks[i].period.nanos && j < i);
        if earlier {
            count += 1;
        }
        j += 1;
    }
    proof {
        lemma_rank_bounds(tasks@, i as int, tasks@.len() as int);
    }
    count
}

proof fn lemma_rank_of_periods(a: Seq<SystemTask>, b: Seq<SystemTask>, i: int, n: int)
    requires
        a.len() == b.len(),
        0 <= i < a.len(),
        0 <= n <= a.len(),
        forall|j: int| 0 <= j < a.len() ==> (#[trigger] a[j]).period == b[j].period,
    ensures
        rank(a, i, n) == rank(b, i, n),
    decreases n,
{
    if n > 0 {
        lemma_rank_of_periods(a, b, i, n - 1);
        assert(a[n - 1].period == b[n - 1].period);
        assert(a[i].period == b[i].period);
    }
}

/// Gives the tasks rate-monotonic priorities.
fn prioritize(tasks: &mut Vec<SystemTask>)
    ensures
        final(tasks)@ == prioritized(old(tasks)@),
{
    let ghost before = tasks@;
    let mut i: usize = 0;
    while i < tasks.len()
        invariant
            i <= tasks@.len(),
            tasks@.len() == before.len(),
            forall|j: int| 0 <= j < i ==> #[trigger] tasks@[j] == prioritized(before)[j],
            forall|j: int| i <= j < tasks@.len() ==> #[trigger] tasks@[j] == before[j],
        decreases tasks@.len() - i,
    {
        let n: usize = rank_of(tasks, i);
        proof {
            lemma_rank_of_periods(tasks@, before, i as int, before.len() as int);
        }
        let mut t: SystemTask = tasks[i].clone();
        t.priority = (n + 1) as u8;
        tasks.set(i, t);
        i += 1;
    }
    assert(tasks@ =~= prioritized(before));
}

/// Releases the jobs due at `now`.
fn release(tasks: &mut Vec<SystemTask>, ready: &mut Vec<SystemTask>, now: Instant) -> (count: usize)
    requires
        can_release(old(tasks)@, now),
    ensures
        final(tasks)@ == released(old(tasks)@, now),
        final(ready)@ == old(ready)@ + due_jobs(old(tasks)@, now),
        count == due_jobs(old(tasks)@, now).len(),
{
    let ghost before = tasks@;
    let ghost queued = ready@;
    let mut count: usize = 0;
    let mut i: usize = 0;
    assert(ready@ =~= queued + due_jobs(before.take(0), now));
    while i < tasks.len()
        invariant
            count <= i <= tasks@.len(),
            tasks@.len() == before.len(),
            can_release(before, now),
            ready@ == queued + due_jobs(before.take(i as int), now),
            count == due_jobs(before.take(i as int), now).len(),
            forall|j: int| 0 <= j < i ==> #[trigger] tasks@[j] == released(before, now)[j],
            forall|j: int| i <= j < tasks@.len() ==> #[trigger] tasks@[j] == before[j],
        decreases tasks@.len() - i,
    {
        proof {
            let more = before.take(i + 1);
            assert(more.drop_last() =~= before.take(i as int));
            assert(more.last() == before[i as int]);
            assert(tasks@[i as int] == before[i as int]);
        }
        if now.nanos >= tasks[i].next_release.nanos {
            let mut t: SystemTask = tasks[i].clone();
            t.deadline = t.next_release.plus(t.period);
            ready.push(t.clone());
            t.next_release = t.next_release.plus(t.period);
            tasks.set(i, t);
            count += 1;
            assert(ready@ =~= queued + due_jobs(before.take(i + 1), now));
        }
        i += 1;
    }
    assert(before.take(i as int) =~= before);
    assert(tasks@ =~= released(before, now));
    count
}

impl SystemScheduler {
    /// The tasks of the satellite, their first releases counted from `base`.
    pub fn new(base: Instant) -> (r: Self)
        requires
            base.nanos + 300_000_000 <= u128::MAX,
        ensures
            r@.tasks.len() == 3,
            is_task(r@.tasks[0], "Data Compression"@, 100, 30, 2, base, 20, 120),
            is_task(r@.tasks[1], "Health Monitoring"@, 200, 7, 1, base, 0, 200),
            is_task(r@.tasks[2], "Antenna Alignment"@, 300, 100, 3, base, 0, 300),
            r@.ready.len() == 0,
            r@.cycle_active == 0,
            r@.total_active == 0,
            r@.wf(),
            r@.jobs_belong(),
    {
        let mut tasks: Vec<SystemTask> = Vec::new();
        tasks.push(system_task("Data Compression", 100, 30, 2, base, 20, 120));
        tasks.push(system_task("Health Monitoring", 200, 7, 1, base, 0, 200));
        tasks.push(system_task("Antenna Alignment", 300, 100, 3, base, 0, 300));
        SystemScheduler {
            tasks,
            ready: Vec::new(),
            cycle_active: Duration { nanos: 0 },
            total_active: Duration { nanos: 0 },
        }
    }

    /// Begins a cycle: gives the tasks their priorities and releases the jobs that are due.
    pub fn begin_cycle(&mut self, now: Instant)
        requires
            can_release(old(self)@.tasks, now),
        ensures
            final(self)@ == old(self)@.after_begin(now),
            final(self)@.wf(),
            final(self)@.jobs_belong(),
            old(self)@.tasks.len() <= u8::MAX ==> rate_monotonic(final(self)@.tasks),
    {
        self.cycle_active = Duration { nanos: 0 };
        self.ready = Vec::new();
        prioritize(&mut self.tasks);
        proof {
            let before = old(self)@.tasks;
            assert forall|i: int| 0 <= i < before.len() && is_due(
                #[trigger] prioritized(before)[i],
                now,
            ) implies prioritized(before)[i].next_release.nanos + prioritized(
                before,
            )[i].period.nanos <= u128::MAX by {
                assert(is_due(before[i], now));
            }
            let empty = SystemView {
                tasks: prioritized(before),
                ready: Seq::empty(),
                cycle_active: 0,
                total_active: 0,
            };
            lemma_release_keeps_jobs(empty, now);
            assert(empty.after_release(now).ready =~= due_jobs(prioritized(before), now));
            if before.len() <= u8::MAX {
                lemma_cycle_is_rate_monotonic(before, now);
            }
        }
        let _count: usize = release(&mut self.tasks, &mut self.ready, now);
    }

    /// Takes the most urgent of the ready jobs, the first one of several.
    pub fn next_job(&mut self) -> (r: Option<SystemTask>)
        ensures
            match r {
                Some(job) => old(self)@.ready.len() > 0 && ({
                    let at = first_urgent(old(self)@.ready);
                    &&& job == old(self)@.ready[at]
                    &&& final(self)@ == (SystemView {
                        ready: old(self)@.ready.remove(at),
                        ..old(self)@
                    })
                }),
                None => old(self)@.ready.len() == 0 && final(self)@ == old(self)@,
            },
            old(self)@.wf() ==> final(self)@.wf(),
            old(self)@.jobs_belong() ==> final(self)@.jobs_belong() && (r matches Some(job)
                ==> belongs(job, final(self)@.tasks)),
    {
        if self.ready.len() == 0 {
            return None;
        }
        let at: usize = find_urgent(&self.ready);
        Some(self.ready.remove(at))
    }

    /// Starts a job. A start after the deadline is recorded.
    pub fn start_job(m: &mut MonitoringData, job: &SystemTask, start: Instant) -> (r: JobStart)
        requires
            start.nanos + job.execution_time.nanos <= u128::MAX,
            start.nanos > job.deadline.nanos ==> old(m)@.sat_metrics.missed_deadlines < u64::MAX,
        ensures
            r.end_time.nanos == start.nanos + job.execution_time.nanos,
            r.drift.nanos == clock::positive_part(start.nanos - release_time(*job)),
            r.high_drift == (r.drift.nanos > HIGH_DEVIATION_NANOS),
            r.high_drift <==> r.drift.nanos > 5_000_000,
            r.missed_deadline == (start.nanos > job.deadline.nanos),
            final(m)@ == if r.missed_deadline {
                old(m)@.with_sat(old(m)@.sat_metrics.with_missed_deadline())
            } else {
                old(m)@
            },
    {
        let release: Instant = if job.deadline.nanos >= job.period.nanos {
            Instant { nanos: job.deadline.nanos - job.period.nanos }
        } else {
            job.deadline
        };
        let missed_deadline: bool = start.nanos > job.deadline.nanos;
        if missed_deadline {
            monitor::record_missed_deadline(m);
        }
        let drift: Duration = start.duration_since(release);
        JobStart {
            end_time: start.plus(job.execution_time),
            drift,
            high_drift: drift.nanos > HIGH_DEVIATION_NANOS,
            missed_deadline,
        }
    }

    /// A preemption point at `now` of a job that ends at `end_time`. Jobs that are due are
    /// released. The job is stopped when the critical sensor asks for the processor or a
    /// more urgent job is ready; what it has left at `stopped` becomes ready again, for the
    /// critical sensor with the release `requeued`.
    pub fn quantum(
        &mut self,
        job: &SystemTask,
        end_time: Instant,
        critical: bool,
        now: Instant,
        stopped: Instant,
        requeued: Instant,
    ) -> (r: Quantum)
        requires
            can_release(old(self)@.tasks, now),
            critical ==> old(self)@.cycle_active + THERMAL_NANOS <= u128::MAX
                && old(self)@.total_active + THERMAL_NANOS <= u128::MAX,
            now.nanos + REQUEUE_NANOS <= u128::MAX,
        ensures
            ({
                let after = old(self)@.after_release(now);
                &&& r.released == due_jobs(old(self)@.tasks, now).len()
                &&& match r.step {
                    Step::Continue => !critical && !after.has_more_urgent(*job) && final(self)@
                        == after,
                    Step::Critical => critical && final(self)@ == (SystemView {
                        ready: with_remainder(after.ready, *job, end_time, stopped, requeued),
                        ..after
                    }).with_active(THERMAL_NANOS as nat),
                    Step::Preempted(by) => !critical && after.has_more_urgent(*job) && by@
                        == after.ready[first_urgent(after.ready)].name@ && final(self)@ == (
                    SystemView {
                        ready: with_remainder(
                            after.ready,
                            *job,
                            end_time,
                            stopped,
                            Instant { nanos: (now.nanos + REQUEUE_NANOS) as u128 },
                        ),
                        ..after
                    }),
                }
                &&& critical ==> final(self)@.total_active == old(self)@.total_active + 5_000_000
                &&& !critical ==> final(self)@.total_active == old(self)@.total_active
                &&& r.step is Preempted && stopped.nanos < end_time.nanos
                    ==> final(self)@.ready.last().next_release.nanos == now.nanos + 5_000_000
                &&& critical && stopped.nanos < end_time.nanos
                    ==> final(self)@.ready.last().next_release == requeued
            }),
            old(self)@.wf() ==> final(self)@.wf(),
            old(self)@.jobs_belong() && belongs(*job, old(self)@.tasks)
                ==> final(self)@.jobs_belong() && belongs(*job, final(self)@.tasks),
            rate_monotonic(old(self)@.tasks) ==> rate_monotonic(final(self)@.tasks),
    {
        proof {
            let v = old(self)@;
            if v.jobs_belong() && belongs(*job, v.tasks) {
                lemma_release_keeps_jobs(v, now);
                lemma_release_keeps_belonging(*job, v.tasks, now);
                lemma_remainder_belongs(v.after_release(now), *job, end_time, stopped, requeued);
                lemma_remainder_belongs(
                    v.after_release(now),
                    *job,
                    end_time,
                    stopped,
                    Instant { nanos: (now.nanos + REQUEUE_NANOS) as u128 },
                );
            }
            if rate_monotonic(v.tasks) {
                let after = released(v.tasks, now);
                assert forall|i: int, j: int|
                    0 <= i < after.len() && 0 <= j < after.len() && (#[trigger] after[i]).priority
                        <= (#[trigger] after[j]).priority implies after[i].period.nanos
                    <= after[j].period.nanos by {
                    assert(v.tasks[i].priority <= v.tasks[j].priority);
                }
            }
        }
        let count: usize = release(&mut self.tasks, &mut self.ready, now);
        if critical {
            self.requeue(job, end_time, stopped, requeued);
            self.cycle_active = Duration { nanos: self.cycle_active.nanos + THERMAL_NANOS };
            self.total_active = Duration { nanos: self.total_active.nanos + THERMAL_NANOS };
            return Quantum { released: count, step: Step::Critical };
        }
        if self.ready.len() > 0 {
            let at: usize = find_urgent(&self.ready);
            if self.ready[at].priority < job.priority {
                let by: String = self.ready[at].name.clone();
                self.requeue(
                    job,
                    end_time,
                    stopped,
                    now.plus(Duration { nanos: REQUEUE_NANOS }),
                );
                return Quantum { released: count, step: Step::Preempted(by) };
            }
        }
        Quantum { released: count, step: Step::Continue }
    }

    /// Makes what is left of a stopped job ready again.
    fn requeue(
        &mut self,
        job: &SystemTask,
        end_time: Instant,
        stopped: Instant,
        next_release: Instant,
    )
        ensures
            final(self)@ == (SystemView {
                ready: with_remainder(old(self)@.ready, *job, end_time, stopped, next_release),
                ..old(self)@
            }),
    {
        let remaining: Duration = end_time.duration_since(stopped);
        if remaining.nanos > 0 {
            let mut rest: SystemTask = job.clone();
            rest.execution_time = remaining;
            rest.next_release = next_release;
            self.ready.push(rest);
        }
    }

    /// Ends a job that ran from `start` to `done` without being stopped; `end` is the
    /// reading that is held against its deadline.
    pub fn finish_job(&mut self, job: &SystemTask, start: Instant, done: Instant, end: Instant) -> (r:
        JobReport)
        requires
            old(self)@.cycle_active + clock::positive_part(done.nanos - start.nanos) <= u128::MAX,
            old(self)@.total_active + clock::positive_part(done.nanos - start.nanos) <= u128::MAX,
        ensures
            r.exec_duration.nanos == clock::positive_part(done.nanos - start.nanos),
            final(self)@ == old(self)@.with_active(r.exec_duration.nanos as nat),
            r.late == (end.nanos > job.deadline.nanos),
            r.jitter.nanos == clock::distance(
                r.exec_duration.nanos as int,
                job.execution_time.nanos as int,
            ),
            r.high_jitter == (r.jitter.nanos > HIGH_DEVIATION_NANOS),
            r.high_jitter <==> r.jitter.nanos > 5_000_000,
            r.message@ == completed_text(job.name@, r.exec_duration, r.jitter),
            r.message@ == "✅ ["@ + job.name@ + "] Completed in "@ + text::decimal(
                r.exec_duration.millis(),
            ) + "ms | Exec jitter: "@ + text::decimal(r.jitter.millis()) + "ms"@,
            old(self)@.wf() ==> final(self)@.wf(),
            old(self)@.jobs_belong() ==> final(self)@.jobs_belong(),
    {
        let exec_duration: Duration = done.duration_since(start);
        self.cycle_active = Duration { nanos: self.cycle_active.nanos + exec_duration.nanos };
        self.total_active = Duration { nanos: self.total_active.nanos + exec_duration.nanos };
        let jitter: Duration = exec_duration.abs_diff(job.execution_time);
        let mut message: String = text::join3("✅ [", job.name.as_str(), "] Completed in ");
        message.append(text::number(exec_duration.as_millis()).as_str());
        message.append("ms | Exec jitter: ");
        message.append(text::number(jitter.as_millis()).as_str());
        message.append("ms");
        JobReport {
            exec_duration,
            late: end.nanos > job.deadline.nanos,
            jitter,
            high_jitter: jitter.nanos > HIGH_DEVIATION_NANOS,
            message,
        }
    }

    /// The figures of a cycle that took `elapsed`, and how long to sleep after it.
    pub fn end_cycle(&self, elapsed: Duration) -> (r: CycleReport)
        ensures
            r.active.nanos == self@.cycle_active,
            r.idle.nanos == clock::positive_part(CYCLE_NANOS - self@.cycle_active),
            r.sleep.nanos == clock::positive_part(CYCLE_NANOS - elapsed.nanos),
            self@.cycle_active <= 1_000_000_000 ==> r.active.nanos + r.idle.nanos == 1_000_000_000,
            self@.cycle_active > 1_000_000_000 ==> r.idle.nanos == 0,
            elapsed.nanos <= 1_000_000_000 ==> elapsed.nanos + r.sleep.nanos == 1_000_000_000,
            elapsed.nanos > 1_000_000_000 ==> r.sleep.nanos == 0,
    {
        let cycle: Duration = Duration { nanos: CYCLE_NANOS };
        CycleReport {
            active: self.cycle_active,
            idle: cycle.saturating_sub(self.cycle_active),
            sleep: cycle.saturating_sub(elapsed),
        }
    }
}

/// All the time that jobs have been active.
pub fn get_total_active_time(s: &SystemScheduler) -> (r: Duration)
    ensures
        r.nanos == s@.total_active,
{
    s.total_active
}

/// Whether `jobs` are those of the tasks that are due at `now`: `from` lists the numbers of
/// exactly the due tasks in their order, and each job bears the name, the period, the execution
/// time and the release of its task, the priority that the task has in `numbered`, and the
/// deadline one period after the release.
pub open spec fn one_job_each(
    jobs: Seq<SystemTask>,
    tasks: Seq<SystemTask>,
    numbered: Seq<SystemTask>,
    now: Instant,
    from: Seq<int>,
) -> bool {
    &&& from.len() == jobs.len()
    &&& forall|k: int|
        0 <= k < from.len() ==> {
            let i = #[trigger] from[k];
            &&& 0 <= i < tasks.len()
            &&& now.nanos >= tasks[i].next_release.nanos
            &&& jobs[k].name == tasks[i].name
            &&& jobs[k].period == tasks[i].period
            &&& jobs[k].execution_time == tasks[i].execution_time
            &&& jobs[k].next_release == tasks[i].next_release
            &&& jobs[k].deadline.nanos == tasks[i].next_release.nanos + tasks[i].period.nanos
            &&& jobs[k].priority == numbered[i].priority
        }
    &&& forall|j: int, k: int|
        0 <= j < k < from.len() ==> #[trigger] from[j] < #[trigger] from[k]
    &&& forall|i: int|
        0 <= i < tasks.len() && now.nanos >= (#[trigger] tasks[i]).next_release.nanos
            ==> from.contains(i)
}

proof fn lemma_one_job_each(tasks: Seq<SystemTask>, now: Instant) -> (from: Seq<int>)
    requires
        forall|i: int|
            0 <= i < tasks.len() && now.nanos >= (#[trigger] tasks[i]).next_release.nanos
                ==> tasks[i].next_release.nanos + tasks[i].period.nanos <= u128::MAX,
    ensures
        one_job_each(due_jobs(tasks, now), tasks, tasks, now, from),
        due_jobs(tasks, now).len() == tasks.filter(
            |t: SystemTask| now.nanos >= t.next_release.nanos,
        ).len(),
    decreases tasks.len(),
{
    let due = |t: SystemTask| now.nanos >= t.next_release.nanos;
    reveal(Seq::filter);
    if tasks.len() == 0 {
        Seq::empty()
    } else {
        let rest = tasks.drop_last();
        let n = tasks.len() - 1;
        assert forall|i: int|
            0 <= i < rest.len() && now.nanos >= (
            #[trigger] rest[i]).next_release.nanos implies rest[i].next_release.nanos
            + rest[i].period.nanos <= u128::MAX by {
            assert(rest[i] == tasks[i]);
        }
        let before = lemma_one_job_each(rest, now);
        let jobs = due_jobs(tasks, now);
        let from = if now.nanos >= tasks[n].next_release.nanos {
            before.push(n)
        } else {
            before
        };
        assert(tasks.last() == tasks[n]);
        assert forall|k: int| 0 <= k < from.len() implies {
            let i = #[trigger] from[k];
            &&& 0 <= i < tasks.len()
            &&& now.nanos >= tasks[i].next_release.nanos
            &&& jobs[k].name == tasks[i].name
            &&& jobs[k].period == tasks[i].period
            &&& jobs[k].execution_time == tasks[i].execution_time
            &&& jobs[k].next_release == tasks[i].next_release
            &&& jobs[k].deadline.nanos == tasks[i].next_release.nanos + tasks[i].period.nanos
            &&& jobs[k].priority == tasks[i].priority
        } by {
            if k < before.len() {
                assert(from[k] == before[k]);
                assert(rest[before[k]] == tasks[before[k]]);
                assert(jobs[k] == due_jobs(rest, now)[k]);
            }
        }
        assert forall|i: int|
            0 <= i < tasks.len() && now.nanos >= (
            #[trigger] tasks[i]).next_release.nanos implies from.contains(i) by {
            if i < n {
                assert(rest[i] == tasks[i]);
                let k = before.index_of(i);
                assert(from[k] == i);
            } else {
                assert(from[before.len() as int] == n);
            }
        }
        from
    }
}

/// Every task that is due at `now` gets exactly one job and moves on by one period, the others
/// get none and stay as they are. The jobs go behind those that are ready, and no time is
/// counted.
pub proof fn law_due_tasks_are_released(v: SystemView, now: Instant)
    requires
        forall|i: int|
            0 <= i < v.tasks.len() && now.nanos >= (#[trigger] v.tasks[i]).next_release.nanos
                ==> v.tasks[i].next_release.nanos + v.tasks[i].period.nanos <= u128::MAX,
    ensures
        ({
            let after = v.after_release(now);
            let ready = v.ready.len() as int;
            &&& after.ready.len() == ready + v.tasks.filter(
                |t: SystemTask| now.nanos >= t.next_release.nanos,
            ).len()
            &&& after.ready.take(ready) == v.ready
            &&& exists|from: Seq<int>| #[trigger]
                one_job_each(after.ready.skip(ready), v.tasks, v.tasks, now, from)
            &&& after.tasks.len() == v.tasks.len()
            &&& forall|i: int|
                0 <= i < v.tasks.len() ==> if now.nanos >= v.tasks[i].next_release.nanos {
                    &&& (#[trigger] after.tasks[i]).name == v.tasks[i].name
                    &&& after.tasks[i].period == v.tasks[i].period
                    &&& after.tasks[i].execution_time == v.tasks[i].execution_time
                    &&& after.tasks[i].priority == v.tasks[i].priority
                    &&& after.tasks[i].next_release.nanos == v.tasks[i].next_release.nanos
                        + v.tasks[i].period.nanos
                    &&& after.tasks[i].deadline.nanos == v.tasks[i].next_release.nanos
                        + v.tasks[i].period.nanos
                } else {
                    after.tasks[i] == v.tasks[i]
                }
            &&& after.cycle_active == v.cycle_active
            &&& after.total_active == v.total_active
        }),
{
    let from = lemma_one_job_each(v.tasks, now);
    let after = v.after_release(now);
    assert(after.ready.take(v.ready.len() as int) =~= v.ready);
    assert(after.ready.skip(v.ready.len() as int) =~= due_jobs(v.tasks, now));
    assert(one_job_each(after.ready.skip(v.ready.len() as int), v.tasks, v.tasks, now, from));
}

/// A cycle starts with the jobs of the tasks that are due, each task numbered anew by its
/// period, and with no active time; all active time before it stays counted.
pub proof fn law_cycle_starts_with_due_jobs(v: SystemView, now: Instant)
    requires
        v.tasks.len() <= u8::MAX,
        forall|i: int|
            0 <= i < v.tasks.len() && now.nanos >= (#[trigger] v.tasks[i]).next_release.nanos
                ==> v.tasks[i].next_release.nanos + v.tasks[i].period.nanos <= u128::MAX,
    ensures
        ({
            let after = v.after_begin(now);
            &&& after.ready.len() == v.tasks.filter(
                |t: SystemTask| now.nanos >= t.next_release.nanos,
            ).len()
            &&& exists|from: Seq<int>| #[trigger]
                one_job_each(after.ready, v.tasks, after.tasks, now, from)
            &&& after.tasks.len() == v.tasks.len()
            &&& forall|i: int|
                0 <= i < v.tasks.len() ==> {
                    &&& (#[trigger] after.tasks[i]).name == v.tasks[i].name
                    &&& after.tasks[i].period == v.tasks[i].period
                    &&& after.tasks[i].execution_time == v.tasks[i].execution_time
                    &&& after.tasks[i].next_release.nanos == v.tasks[i].next_release.nanos
                        + if now.nanos >= v.tasks[i].next_release.nanos {
                        v.tasks[i].period.nanos as int
                    } else {
                        0
                    }
                }
            &&& forall|i: int, j: int|
                0 <= i < v.tasks.len() && 0 <= j < v.tasks.len() && (v.tasks[i].period.nanos
                    < v.tasks[j].period.nanos || (v.tasks[i].period.nanos
                    == v.tasks[j].period.nanos && i < j)) ==> (
                #[trigger] after.tasks[i]).priority < (#[trigger] after.tasks[j]).priority
            &&& forall|i: int|
                0 <= i < v.tasks.len() ==> 1 <= (#[trigger] after.tasks[i]).priority
                    <= v.tasks.len()
            &&& after.cycle_active == 0
            &&& after.total_active == v.total_active
        }),
{
    let tasks = prioritized(v.tasks);
    let after = v.after_begin(now);
    assert forall|i: int|
        0 <= i < tasks.len() && now.nanos >= (
        #[trigger] tasks[i]).next_release.nanos implies tasks[i].next_release.nanos
        + tasks[i].period.nanos <= u128::MAX by {
        assert(now.nanos >= v.tasks[i].next_release.nanos);
    }
    let from = lemma_one_job_each(tasks, now);
    lemma_filter_by_release(tasks, v.tasks, now);
    assert forall|i: int|
        0 <= i < v.tasks.len() && now.nanos >= (
        #[trigger] v.tasks[i]).next_release.nanos implies from.contains(i) by {
        assert(now.nanos >= tasks[i].next_release.nanos);
    }
    assert(one_job_each(after.ready, v.tasks, after.tasks, now, from));
    assert forall|i: int, j: int|
        0 <= i < v.tasks.len() && 0 <= j < v.tasks.len() && (v.tasks[i].period.nanos
            < v.tasks[j].period.nanos || (v.tasks[i].period.nanos == v.tasks[j].period.nanos && i
            < j)) implies (#[trigger] after.tasks[i]).priority < (
    #[trigger] after.tasks[j]).priority by {
        law_shorter_period_is_more_urgent(v.tasks, i, j);
    }
    assert forall|i: int| 0 <= i < v.tasks.len() implies 1 <= (
    #[trigger] after.tasks[i]).priority <= v.tasks.len() by {
        law_shorter_period_is_more_urgent(v.tasks, i, i);
    }
}

proof fn lemma_filter_by_release(a: Seq<SystemTask>, b: Seq<SystemTask>, now: Instant)
    requires
        a.len() == b.len(),
        forall|i: int| 0 <= i < a.len() ==> (#[trigger] a[i]).next_release == b[i].next_release,
    ensures
        a.filter(|t: SystemTask| now.nanos >= t.next_release.nanos).len() == b.filter(
            |t: SystemTask| now.nanos >= t.next_release.nanos,
        ).len(),
    decreases a.len(),
{
    reveal(Seq::filter);
    if a.len() > 0 {
        let x = a.drop_last();
        let y = b.drop_last();
        assert forall|i: int| 0 <= i < x.len() implies (#[trigger] x[i]).next_release
            == y[i].next_release by {
            assert(x[i] == a[i] && y[i] == b[i]);
        }
        lemma_filter_by_release(x, y, now);
        assert(a[a.len() - 1].next_release == b[b.len() - 1].next_release);
    }
}

/// The most urgent job is one of the jobs, none has a lower number, and of those with the same
/// number it is the first.
pub proof fn law_most_urgent_is_first(jobs: Seq<SystemTask>, k: int)
    requires
        0 <= k < jobs.len(),
    ensures
        0 <= first_urgent(jobs) < jobs.len(),
        jobs[first_urgent(jobs)].priority <= jobs[k].priority,
        jobs[first_urgent(jobs)].priority == jobs[k].priority ==> first_urgent(jobs) <= k,
    decreases jobs.len(),
{
    lemma_first_urgent(jobs);
    if jobs.len() > 1 {
        let rest = jobs.drop_last();
        lemma_first_urgent(rest);
        if k < rest.len() {
            law_most_urgent_is_first(rest, k);
            assert(rest[k] == jobs[k]);
        }
    }
}

/// A running job has to make room exactly when some ready job has a lower number.
pub proof fn law_preempted_by_lower_numbers_only(v: SystemView, job: SystemTask)
    ensures
        v.has_more_urgent(job) <==> exists|k: int|
            0 <= k < v.ready.len() && (#[trigger] v.ready[k]).priority < job.priority,
{
    if v.ready.len() > 0 {
        lemma_first_urgent(v.ready);
    }
}

/// What a stopped job leaves: the ready jobs, and behind them itself with the time that it had
/// left, the new release and everything else as it was. A job that had no time left leaves
/// nothing.
pub proof fn law_stopped_job_leaves_its_remainder(
    jobs: Seq<SystemTask>,
    job: SystemTask,
    end_time: Instant,
    stopped: Instant,
    next_release: Instant,
)
    ensures
        ({
            let left = with_remainder(jobs, job, end_time, stopped, next_release);
            let n = jobs.len() as int;
            &&& stopped.nanos >= end_time.nanos ==> left == jobs
            &&& stopped.nanos < end_time.nanos ==> {
                &&& left.len() == n + 1
                &&& left.take(n) == jobs
                &&& left[n].execution_time.nanos + stopped.nanos == end_time.nanos
                &&& left[n].next_release == next_release
                &&& left[n].name == job.name
                &&& left[n].period == job.period
                &&& left[n].priority == job.priority
                &&& left[n].deadline == job.deadline
            }
        }),
{
    let left = with_remainder(jobs, job, end_time, stopped, next_release);
    if stopped.nanos < end_time.nanos {
        assert(left.take(jobs.len() as int) =~= jobs);
    }
}

/// Active time is counted alike for the cycle and for the whole run, and nothing else changes.
pub proof fn law_active_time_is_counted(v: SystemView, nanos: nat)
    ensures
        v.with_active(nanos).cycle_active - v.cycle_active == nanos,
        v.with_active(nanos).total_active - v.total_active == nanos,
        v.with_active(nanos).tasks == v.tasks,
        v.with_active(nanos).ready == v.ready,
{
}

/// A job was released one period before its deadline, as far back as the clock goes.
pub proof fn law_release_precedes_deadline_by_a_period(job: SystemTask)
    ensures
        job.period.nanos <= job.deadline.nanos ==> release_time(job) + job.period.nanos
            == job.deadline.nanos,
        job.period.nanos > job.deadline.nanos ==> release_time(job) == job.deadline.nanos,
{
}

/// The scheduler is seen with its own tasks, jobs and times.
pub proof fn law_scheduler_is_seen_whole(s: SystemScheduler)
    ensures
        s@.tasks == s.tasks@,
        s@.ready == s.ready@,
        s@.cycle_active == s.cycle_active.nanos,
        s@.total_active == s.total_active.nanos,
{
}

/// A task with given figures has its own name, period, execution time and priority, is released
/// so long after the base and has its deadline so long after it.
pub proof fn law_figures_of_a_task(
    t: SystemTask,
    name: Seq<char>,
    period: int,
    execution_time: int,
    priority: int,
    base: Instant,
    release: int,
    deadline: int,
)
    requires
        is_task(t, name, period, execution_time, priority, base, release, deadline),
    ensures
        t.name@ == name,
        t.period.nanos / 1_000_000 == period && t.period.nanos % 1_000_000 == 0,
        t.execution_time.nanos / 1_000_000 == execution_time && t.execution_time.nanos % 1_000_000
            == 0,
        t.priority == priority,
        t.next_release.nanos - base.nanos == 1_000_000 * release,
        t.deadline.nanos - base.nanos == 1_000_000 * deadline,
{
}

} // verus!
