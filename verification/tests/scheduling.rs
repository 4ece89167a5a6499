use satlink::clock::{Duration, Instant};
use satlink::monitor::MonitoringData;
use satlink::scheduler::{get_total_active_time, Step, SystemScheduler};
use satlink::types::SystemTask;

const MS: u128 = 1_000_000;

fn at(nanos: u128) -> Instant {
    Instant { nanos }
}

fn ms(n: u64) -> Duration {
    Duration::from_millis(n)
}

fn task(name: &str, period: u64, priority: u8) -> SystemTask {
    SystemTask {
        name: name.to_string(),
        period: ms(period),
        execution_time: ms(10),
        priority,
        next_release: at(0),
        deadline: at(0),
    }
}

fn names(tasks: &[SystemTask]) -> Vec<&str> {
    tasks.iter().map(|t| t.name.as_str()).collect()
}

#[test]
fn satellite_has_three_tasks() {
    let s = SystemScheduler::new(at(1000));
    assert_eq!(names(&s.tasks), vec!["Data Compression", "Health Monitoring", "Antenna Alignment"]);
    let t = &s.tasks[0];
    assert_eq!((t.period, t.execution_time, t.priority), (ms(100), ms(30), 2));
    assert_eq!((t.next_release, t.deadline), (at(1000 + 20 * MS), at(1000 + 120 * MS)));
    let t = &s.tasks[1];
    assert_eq!((t.period, t.execution_time, t.priority), (ms(200), ms(7), 1));
    assert_eq!((t.next_release, t.deadline), (at(1000), at(1000 + 200 * MS)));
    let t = &s.tasks[2];
    assert_eq!((t.period, t.execution_time, t.priority), (ms(300), ms(100), 3));
    assert_eq!((t.next_release, t.deadline), (at(1000), at(1000 + 300 * MS)));
    assert!(s.ready.is_empty());
}

#[test]
fn shorter_periods_get_lower_numbers() {
    let mut s = SystemScheduler::new(at(0));
    s.begin_cycle(at(0));
    let priorities: Vec<u8> = s.tasks.iter().map(|t| t.priority).collect();
    assert_eq!(priorities, vec![1, 2, 3]);
    s.tasks = vec![task("a", 50, 9), task("b", 20, 9), task("c", 50, 9), task("d", 10, 9)];
    s.begin_cycle(at(0));
    let priorities: Vec<u8> = s.tasks.iter().map(|t| t.priority).collect();
    assert_eq!(priorities, vec![3, 2, 4, 1]);
}

#[test]
fn due_jobs_are_released_once() {
    let mut s = SystemScheduler::new(at(0));
    s.begin_cycle(at(10 * MS));
    assert_eq!(names(&s.ready), vec!["Health Monitoring", "Antenna Alignment"]);
    assert_eq!(s.ready[0].deadline, at(200 * MS));
    assert_eq!(s.ready[0].next_release, at(0));
    assert_eq!(s.tasks[1].next_release, at(200 * MS));
    assert_eq!(s.tasks[1].deadline, at(200 * MS));
    assert_eq!(s.tasks[0].next_release, at(20 * MS));
    // much later, still one job for each task, and the cadence is kept
    s.begin_cycle(at(5000 * MS));
    assert_eq!(s.ready.len(), 3);
    assert_eq!(s.tasks[1].next_release, at(400 * MS));
    assert_eq!(s.tasks[0].next_release, at(120 * MS));
}

#[test]
fn most_urgent_job_runs_first() {
    let mut s = SystemScheduler::new(at(0));
    s.ready = vec![task("a", 10, 3), task("b", 10, 1), task("c", 10, 2), task("d", 10, 1)];
    let order: Vec<String> = (0..4).map(|_| s.next_job().unwrap().name).collect();
    assert_eq!(order, vec!["b", "d", "c", "a"]);
    assert!(s.next_job().is_none());
}

#[test]
fn jobs_are_equal_by_name_and_ordered_by_urgency() {
    assert!(task("a", 10, 1) == task("a", 20, 2));
    assert!(task("a", 10, 1) != task("b", 10, 1));
    assert!(task("a", 10, 1) > task("b", 10, 2));
    assert!(task("a", 10, 3) < task("b", 10, 2));
}

#[test]
fn start_measures_drift_from_the_release() {
    let mut m = MonitoringData::new();
    let mut job = task("a", 100, 1);
    job.deadline = at(150 * MS);
    let r = SystemScheduler::start_job(&mut m, &job, at(55 * MS));
    assert_eq!(r.drift, ms(5));
    assert!(!r.high_drift);
    assert!(!r.missed_deadline);
    assert_eq!(r.end_time, at(65 * MS));
    let r = SystemScheduler::start_job(&mut m, &job, at(55 * MS + 1));
    assert!(r.high_drift);
    let r = SystemScheduler::start_job(&mut m, &job, at(150 * MS));
    assert!(!r.missed_deadline);
    assert_eq!(m.sat_metrics.missed_deadlines, 0);
    let r = SystemScheduler::start_job(&mut m, &job, at(150 * MS + 1));
    assert!(r.missed_deadline);
    assert_eq!(m.sat_metrics.missed_deadlines, 1);
    // a period longer than the clock has run
    job.deadline = at(50 * MS);
    assert_eq!(SystemScheduler::start_job(&mut m, &job, at(51 * MS)).drift, ms(1));
    assert_eq!(SystemScheduler::start_job(&mut m, &job, at(49 * MS)).drift, ms(0));
}

#[test]
fn running_job_continues_before_its_equals() {
    let mut s = SystemScheduler::new(at(0));
    s.tasks = vec![];
    s.ready = vec![task("a", 10, 2)];
    let q = s.quantum(&task("b", 10, 2), at(20), false, at(5), at(6), at(7));
    assert!(matches!(q.step, Step::Continue));
    assert_eq!(q.released, 0);
    assert_eq!(names(&s.ready), vec!["a"]);
}

#[test]
fn more_urgent_job_preempts() {
    let mut s = SystemScheduler::new(at(0));
    s.begin_cycle(at(0));
    // Antenna Alignment runs; Data Compression is released meanwhile
    s.next_job();
    let job = s.next_job().unwrap();
    assert_eq!(job.name, "Antenna Alignment");
    let q = s.quantum(&job, at(100 * MS), false, at(20 * MS), at(30 * MS), at(31 * MS));
    assert_eq!(q.released, 1);
    match q.step {
        Step::Preempted(by) => assert_eq!(by, "Data Compression"),
        _ => panic!("not preempted"),
    }
    assert_eq!(names(&s.ready), vec!["Data Compression", "Antenna Alignment"]);
    let rest = &s.ready[1];
    assert_eq!(rest.execution_time, ms(70));
    assert_eq!(rest.next_release, at(25 * MS));
    assert_eq!((rest.priority, rest.period, rest.deadline), (job.priority, job.period, job.deadline));
    assert_eq!(get_total_active_time(&s), ms(0));
}

#[test]
fn critical_sensor_preempts_everything() {
    let mut s = SystemScheduler::new(at(0));
    s.tasks = vec![];
    let q = s.quantum(&task("a", 10, 1), at(20 * MS), true, at(5 * MS), at(8 * MS), at(9 * MS));
    assert!(matches!(q.step, Step::Critical));
    assert_eq!(s.ready.len(), 1);
    assert_eq!(s.ready[0].execution_time, ms(12));
    assert_eq!(s.ready[0].next_release, at(9 * MS));
    assert_eq!((s.cycle_active, get_total_active_time(&s)), (ms(5), ms(5)));
    // nothing left to run
    let q = s.quantum(&task("a", 10, 1), at(20 * MS), true, at(19 * MS), at(20 * MS), at(20 * MS));
    assert!(matches!(q.step, Step::Critical));
    assert_eq!(s.ready.len(), 1);
    assert_eq!(s.cycle_active, ms(10));
}

#[test]
fn finished_job_counts_as_active() {
    let mut s = SystemScheduler::new(at(0));
    let mut job = task("a", 100, 1);
    job.deadline = at(40 * MS);
    let r = s.finish_job(&job, at(20 * MS), at(35 * MS), at(40 * MS));
    assert_eq!(r.exec_duration, ms(15));
    assert_eq!(r.jitter, ms(5));
    assert!(!r.high_jitter);
    assert!(!r.late);
    assert_eq!(r.message, "✅ [a] Completed in 15ms | Exec jitter: 5ms");
    let r = s.finish_job(&job, at(20 * MS), at(36 * MS), at(40 * MS + 1));
    assert!(r.high_jitter);
    assert!(r.late);
    assert_eq!(s.cycle_active, ms(31));
    assert_eq!(get_total_active_time(&s), ms(31));
    s.begin_cycle(at(0));
    assert_eq!((s.cycle_active, get_total_active_time(&s)), (ms(0), ms(31)));
}

#[test]
fn cycle_lasts_a_second() {
    let mut s = SystemScheduler::new(at(0));
    s.cycle_active = ms(300);
    let r = s.end_cycle(ms(400));
    assert_eq!((r.active, r.idle, r.sleep), (ms(300), ms(700), ms(600)));
    s.cycle_active = ms(1500);
    let r = s.end_cycle(ms(1600));
    assert_eq!((r.active, r.idle, r.sleep), (ms(1500), ms(0), ms(0)));
}
