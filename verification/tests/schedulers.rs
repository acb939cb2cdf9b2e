use multiprocessor::core_model;
use multiprocessor::scheduler::dm_scheduler::DMScheduler;
use multiprocessor::scheduler::edf_global::EDFGlobal;
use multiprocessor::scheduler::edf_k::EDFK;
use multiprocessor::scheduler::edf_k_scheduler::EDFkScheduler;
use multiprocessor::scheduler::edf_scheduler::EarliestDeadlineFirst;
use multiprocessor::scheduler::global_scheduler::GlobalEDFScheduler;
use multiprocessor::scheduler::partition_scheduler::PartitionScheduler;
use multiprocessor::scheduler::rr_scheduler::RoundRobin;
use multiprocessor::scheduler::scheduler::{merge_verdict, Scheduler};
use multiprocessor::{Core, CoreValue, Heuristic, Job, SchedulingCode, Sorting, Task, TaskSet, Version};

fn job(task_id: usize, id: usize, remaining: isize, deadline: isize) -> Job {
    Job::new(id, task_id, remaining, deadline, deadline)
}

#[test]
fn edf_elects_the_first_earliest_deadline() {
    let edf = EarliestDeadlineFirst;
    let mut jobs = vec![job(1, 1, 1, 9), job(2, 2, 1, 4), job(3, 3, 1, 4), job(4, 4, 1, 7)];
    assert_eq!(edf.schedule(&mut jobs), Some(1));
    assert_eq!(jobs.len(), 4);
    let mut none: Vec<Job> = vec![];
    assert_eq!(edf.schedule(&mut none), None);
}

#[test]
fn edf_feasibility_interval_is_the_busy_period() {
    let edf = EarliestDeadlineFirst;
    let ts = TaskSet::new(vec![Task::new(1, 0, 2, 4, 4), Task::new(2, 0, 3, 6, 6)]);
    assert_eq!(edf.feasibility_interval(&ts), (5, 12));
}

#[test]
fn core_model_schedules_by_earliest_deadline() {
    let mut c = core_model::Core::new_task_set(2, TaskSet::new(vec![Task::new(1, 0, 1, 2, 2)]));
    assert_eq!(c.id(), 2);
    let mut jobs = vec![job(1, 1, 1, 5), job(1, 2, 1, 3)];
    assert_eq!(c.schedule(&mut jobs), Some(1));
    c.migrate(1);
    assert_eq!(c.get_migrations(), 1);
    assert_eq!(core_model::Core::new(5).get_migrations(), 0);
}

#[test]
fn core_schedule_prefers_low_task_ids_then_deadlines() {
    let mut c = Core::new(1);
    assert_eq!(c.schedule(1), None);
    c.add_job(job(3, 10, 2, 8), Task::new(3, 0, 2, 8, 8), true);
    assert_eq!(c.schedule(1), Some(0));
    // a job of a task below k is elected by its job identifier
    c.add_job(job(0, 42, 2, 8), Task::new(0, 0, 2, 8, 8), true);
    assert_eq!(c.schedule(1), Some(42));
    assert_eq!(c.schedule(0), Some(0));
}

#[test]
fn core_add_refuses_duplicates_and_unfit_tasks() {
    let mut c = Core::new(1);
    assert!(!c.is_assigned());
    assert!(!c.add(Task::new(1, 0, 1, 4, 4), false));
    assert!(!c.is_assigned());
    assert!(c.add(Task::new(1, 0, 1, 4, 4), true));
    assert!(c.is_assigned());
    assert!(!c.add(Task::new(1, 0, 2, 4, 4), true));
    assert_eq!(c.get_migrations(), 1);
    assert_eq!(c.get_current_task_id(), Some(1));
}

#[test]
fn core_remove_takes_the_task_and_its_jobs() {
    let mut c = Core::new_task_set(1, TaskSet::new(vec![Task::new(1, 0, 1, 4, 4), Task::new(2, 0, 1, 4, 4)]));
    assert_eq!(c.get_migrations(), 0);
    c.add_job(job(2, 5, 3, 9), Task::new(7, 0, 1, 4, 4), true);
    assert_eq!(c.get_remaining_time(), 3);
    c.remove(2);
    assert_eq!(c.get_remaining_time(), 0);
    assert_eq!(c.get_current_task_id(), Some(1));
    assert_eq!(c.get_migrations(), 2);
    c.remove(9);
    assert_eq!(c.get_migrations(), 2);
}

#[test]
fn core_current_job_queries() {
    let mut c = Core::new(1);
    assert_eq!(c.current_job_deadline(), None);
    assert_eq!(c.current_job_is_inf(), None);
    let mut j = job(1, 1, 2, 6);
    c.add_job(j, Task::new(1, 0, 2, 6, 6), true);
    assert_eq!(c.current_job_deadline(), Some(6));
    assert_eq!(c.current_job_task_deadline(), Some(6));
    assert_eq!(c.current_job_is_inf(), Some(false));
    j.set_deadline_inf();
    c.add_job(j, Task::new(1, 0, 2, 6, 6), true);
    assert_eq!(c.current_job_is_inf(), Some(true));
}

#[test]
fn core_simulate_step_runs_the_first_job() {
    let mut c = Core::new(1);
    c.add_job(job(1, 1, 2, 6), Task::new(1, 0, 2, 6, 6), true);
    assert!(c.simulate_step(1) == CoreValue::Running);
    assert_eq!(c.get_remaining_time(), 1);
    assert!(c.simulate_step(1) == CoreValue::Complete);
    assert!(!c.is_assigned());
    assert!(c.simulate_step(1) == CoreValue::Running);
}

#[test]
fn core_simulate_step_reports_a_missed_deadline() {
    let mut c = Core::new(1);
    c.set_time(5);
    c.add_job(job(1, 1, 2, 4), Task::new(1, 0, 2, 4, 4), true);
    assert!(c.simulate_step(1) == CoreValue::Missed);
    assert_eq!(c.get_remaining_time(), 2);
}

#[test]
fn core_shortcuts() {
    let empty = Core::new(1);
    assert_eq!(empty.test_shortcuts(true), Some(SchedulingCode::SchedulableShortcut));
    let late = Core::new_task_set(1, TaskSet::new(vec![Task::new(1, 0, 3, 2, 4)]));
    assert_eq!(late.test_shortcuts(true), Some(SchedulingCode::UnschedulableShortcut));
    let fine = Core::new_task_set(1, TaskSet::new(vec![Task::new(1, 0, 1, 2, 2)]));
    assert_eq!(fine.test_shortcuts(true), None);
    assert_eq!(fine.test_shortcuts(false), Some(SchedulingCode::UnschedulableShortcut));
}

#[test]
fn core_simulation_of_a_schedulable_set() {
    let mut c = Core::new_task_set(1, TaskSet::new(vec![Task::new(1, 0, 1, 2, 2)]));
    assert_eq!(c.simulate_partitionned(true), SchedulingCode::SchedulableSimulated);
    let mut c = Core::new_task_set(1, TaskSet::new(vec![Task::new(1, 0, 2, 4, 4), Task::new(2, 0, 3, 6, 6)]));
    assert_eq!(c.simulate_partitionned(true), SchedulingCode::SchedulableSimulated);
}

#[test]
fn core_simulation_finds_a_missed_deadline() {
    let mut c = Core::new_task_set(1, TaskSet::new(vec![Task::new(1, 0, 2, 2, 4), Task::new(2, 0, 2, 2, 4)]));
    assert_eq!(c.simulate_partitionned(true), SchedulingCode::UnschedulableSimulated);
}

#[test]
fn core_simulation_shortcuts() {
    let mut empty = Core::new(1);
    assert_eq!(empty.simulate_partitionned(true), SchedulingCode::SchedulableShortcut);
    let mut late = Core::new_task_set(1, TaskSet::new(vec![Task::new(1, 0, 3, 2, 4)]));
    assert_eq!(late.simulate_partitionned(true), SchedulingCode::UnschedulableShortcut);
}

#[test]
fn edfk_schedule_jobs_picks_the_earliest_unassigned() {
    assert_eq!(EDFkScheduler::schedule_jobs(&vec![]), None);
    let q = vec![(job(1, 1, 1, 3), 1), (job(2, 2, 1, 5), 0), (job(3, 3, 1, 4), 0), (job(4, 4, 1, 4), 0)];
    assert_eq!(EDFkScheduler::schedule_jobs(&q), Some(2));
    let all_assigned = vec![(job(1, 1, 1, 3), 1)];
    assert_eq!(EDFkScheduler::schedule_jobs(&all_assigned), None);
    let never = vec![(job(1, 1, 1, isize::MAX), 0)];
    assert_eq!(EDFkScheduler::schedule_jobs(&never), None);
}

#[test]
fn dm_schedule_jobs_picks_the_most_urgent_unassigned() {
    assert_eq!(DMScheduler::schedule_jobs(&vec![]), None);
    let q = vec![(job(1, 1, 1, 3), 2), (job(2, 2, 1, 9), 0), (job(3, 3, 1, 1), 0)];
    assert_eq!(DMScheduler::schedule_jobs(&q), Some(2));
    let later_first = vec![(job(1, 1, 1, 9), 0), (job(2, 2, 1, 4), 0)];
    assert_eq!(DMScheduler::schedule_jobs(&later_first), Some(1));
    let tie = vec![(job(1, 1, 1, 0), 1), (job(2, 2, 1, 4), 0), (job(3, 3, 1, 4), 0)];
    assert_eq!(DMScheduler::schedule_jobs(&tie), Some(1));
    let never = vec![(job(1, 1, 1, isize::MAX), 0)];
    assert_eq!(DMScheduler::schedule_jobs(&never), None);
    let all_assigned = vec![(job(1, 1, 1, 3), 1)];
    assert_eq!(DMScheduler::schedule_jobs(&all_assigned), None);
}

#[test]
fn round_robin_wraps_around() {
    let mut rr = RoundRobin::new();
    let mut jobs = vec![job(1, 1, 1, 3), job(2, 2, 1, 5), job(3, 3, 1, 7)];
    assert_eq!(rr.schedule(&mut jobs).unwrap().id(), 2);
    assert_eq!(rr.schedule(&mut jobs).unwrap().id(), 3);
    assert_eq!(rr.schedule(&mut jobs).unwrap().id(), 1);
    rr.schedule(&mut jobs).unwrap().schedule();
    assert_eq!(jobs[1].remaining_time(), 0);
    let mut none: Vec<Job> = vec![];
    assert!(rr.schedule(&mut none).is_none());
}

#[test]
fn round_robin_interval_is_the_hyperperiod() {
    let rr = RoundRobin::new();
    let ts = TaskSet::new(vec![Task::new(1, 0, 1, 4, 4), Task::new(2, 0, 1, 6, 6)]);
    assert_eq!(rr.feasibility_interval(&ts), (0, 12));
}

#[test]
fn schedulers_number_their_cores_from_one() {
    let ts = TaskSet::new(vec![Task::new(1, 0, 1, 4, 4)]);
    let dm = DMScheduler::new(TaskSet::new(vec![Task::new(1, 0, 1, 4, 4)]), 3);
    assert_eq!(dm.num_cores(), 3);
    assert_eq!(dm.cores()[2].id(), 3);
    assert!(dm.cores()[0].is_assigned());
    let edfk = EDFkScheduler::new(TaskSet::new(vec![Task::new(1, 0, 1, 4, 4)]), 2, 1);
    assert_eq!(edfk.k(), 1);
    assert_eq!(edfk.cores().len(), 2);
    let mut global = GlobalEDFScheduler::new(ts, 2);
    assert_eq!(global.cores_mut()[1].id(), 2);
    let mut part = PartitionScheduler::new(
        TaskSet::new(vec![Task::new(1, 0, 1, 4, 4)]),
        2,
        4,
        Heuristic::FirstFit,
        Sorting::DecreasingUtilization,
    );
    assert!(!part.cores_mut()[0].is_assigned());
    assert!(part.heuristic() == Heuristic::FirstFit);
    let _ = EDFGlobal::new(2);
    let _ = EDFK::new(2);
}

#[test]
fn scheduler_k_defaults_to_one() {
    let mut s = Scheduler::new(TaskSet::new_empty(), 2, 2, "ff".to_string(), "du".to_string());
    assert_eq!(s.get_k(), 1);
    s.set_version(Version::EDFk(3));
    assert_eq!(s.get_k(), 3);
    s.set_version(Version::Global);
    assert_eq!(s.get_k(), 1);
}

#[test]
fn partition_scheduler_combines_core_verdicts() {
    let mut part = PartitionScheduler::new(TaskSet::new_empty(), 2, 1, Heuristic::FirstFit, Sorting::DecreasingUtilization);
    let fine = TaskSet::new(vec![Task::new(1, 0, 1, 2, 2)]);
    let empty = TaskSet::new_empty();
    assert_eq!(part.is_schedulable(vec![fine, empty], vec![true, true]), SchedulingCode::SchedulableSimulated);
    let mut part = PartitionScheduler::new(TaskSet::new_empty(), 2, 1, Heuristic::FirstFit, Sorting::DecreasingUtilization);
    assert_eq!(
        part.is_schedulable(vec![TaskSet::new_empty(), TaskSet::new_empty()], vec![true, true]),
        SchedulingCode::SchedulableShortcut
    );
    let mut part = PartitionScheduler::new(TaskSet::new_empty(), 2, 1, Heuristic::FirstFit, Sorting::DecreasingUtilization);
    let missing = TaskSet::new(vec![Task::new(1, 0, 2, 2, 4), Task::new(2, 0, 2, 2, 4)]);
    let late = TaskSet::new(vec![Task::new(3, 0, 3, 2, 4)]);
    assert_eq!(part.is_schedulable(vec![missing, late], vec![true, true]), SchedulingCode::UnschedulableSimulated);
    assert!(part.cores_mut()[1].task_set().len() == 1);
    let mut part = PartitionScheduler::new(TaskSet::new_empty(), 1, 1, Heuristic::FirstFit, Sorting::DecreasingUtilization);
    let fine = TaskSet::new(vec![Task::new(1, 0, 1, 2, 2)]);
    assert_eq!(part.is_schedulable(vec![fine], vec![false]), SchedulingCode::UnschedulableShortcut);
}

#[test]
fn edf_and_part_intervals_agree_at_full_utilisation() {
    let edf = EarliestDeadlineFirst;
    let ts = TaskSet::new(vec![Task::new(1, 0, 2, 4, 4), Task::new(2, 0, 1, 2, 2)]);
    assert_eq!(edf.feasibility_interval(&ts), ts.feasibility_interval_part());
    assert_eq!(ts.feasibility_interval_part(), (3, 4));
}

#[test]
fn merge_verdict_keeps_the_worst_report() {
    let s = SchedulingCode::SchedulableShortcut;
    assert_eq!(merge_verdict(s, SchedulingCode::SchedulableSimulated), SchedulingCode::SchedulableSimulated);
    assert_eq!(merge_verdict(SchedulingCode::SchedulableSimulated, s), SchedulingCode::SchedulableSimulated);
    assert_eq!(merge_verdict(s, SchedulingCode::UnschedulableSimulated), SchedulingCode::UnschedulableSimulated);
    assert_eq!(
        merge_verdict(SchedulingCode::UnschedulableShortcut, SchedulingCode::SchedulableSimulated),
        SchedulingCode::UnschedulableShortcut
    );
}
