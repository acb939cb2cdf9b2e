use std::collections::HashMap;

use multiprocessor::partition::Partition;
use multiprocessor::{Job, SchedulingCode, Task, TaskSet, Worker};

#[test]
fn job_new_shows_and_keeps_its_deadline() {
    let j = Job::new(3, 7, 5, 10, 25);
    assert_eq!(j.id(), 3);
    assert_eq!(j.task_id(), 7);
    assert_eq!(j.remaining_time(), 5);
    assert_eq!(j.task_deadline(), 10);
    assert_eq!(j.absolute_deadline(), 25);
    assert_eq!(j.real_absolute_deadline(), 25);
    assert!(!j.is_deadline_inf());
}

#[test]
fn job_schedule_runs_one_unit() {
    let mut j = Job::new(1, 1, 2, 4, 4);
    j.schedule();
    assert_eq!(j.remaining_time(), 1);
    assert!(!j.is_complete());
    j.schedule();
    assert_eq!(j.remaining_time(), 0);
    assert!(j.is_complete());
}

#[test]
fn job_deadline_missed_needs_work_left() {
    let mut j = Job::new(1, 1, 1, 4, 4);
    assert!(!j.deadline_missed(3));
    assert!(j.deadline_missed(4));
    assert!(j.deadline_missed(9));
    j.schedule();
    assert!(!j.deadline_missed(9));
}

#[test]
fn job_infinite_deadline_changes_only_the_shown_one() {
    let mut j = Job::new(1, 1, 1, 4, 4);
    j.set_deadline_inf();
    assert!(j.is_deadline_inf());
    assert_eq!(j.absolute_deadline(), isize::MIN);
    assert_eq!(j.real_absolute_deadline(), 4);
    j.set_deadline(8);
    assert_eq!(j.absolute_deadline(), 8);
    assert!(!j.is_deadline_inf());
    j.set_remaining_time(9);
    assert_eq!(j.remaining_time(), 9);
}

#[test]
fn task_reports_deadline_and_period_with_offset() {
    let t = Task::new(1, 2, 3, 5, 10);
    assert_eq!(t.id(), 1);
    assert_eq!(t.offset(), 2);
    assert_eq!(t.wcet(), 3);
    assert_eq!(t.deadline(), 7);
    assert_eq!(t.period(), 12);
}

#[test]
fn task_spawns_jobs_on_its_release_times() {
    let mut t = Task::new(4, 2, 3, 5, 10);
    assert!(t.spawn_job(0).is_none());
    assert!(t.spawn_job(1).is_none());
    let first = t.spawn_job(2).unwrap();
    assert_eq!(first.id(), 1);
    assert_eq!(first.task_id(), 4);
    assert_eq!(first.remaining_time(), 3);
    assert_eq!(first.task_deadline(), 7);
    assert_eq!(first.absolute_deadline(), 9);
    assert!(t.spawn_job(7).is_none());
    let second = t.spawn_job(12).unwrap();
    assert_eq!(second.id(), 2);
    assert_eq!(second.absolute_deadline(), 19);
}

fn two_tasks() -> TaskSet {
    TaskSet::new(vec![Task::new(1, 0, 1, 4, 4), Task::new(2, 0, 2, 6, 6)])
}

#[test]
fn taskset_basic_queries() {
    let ts = two_tasks();
    assert_eq!(ts.len(), 2);
    assert!(!ts.is_empty());
    assert_eq!(ts.get_first_task_id(), Some(1));
    assert!(ts.task_exists(2));
    assert!(!ts.task_exists(3));
    assert_eq!(ts.get_task_by_id(2).unwrap().wcet(), 2);
    assert!(ts.get_task_by_id(9).is_none());
    assert_eq!(ts.get_task_by_index(0).unwrap().id(), 1);
    assert!(ts.get_task_by_index(2).is_none());
    assert_eq!(ts.iter().count(), 2);
    assert!(TaskSet::new_empty().is_empty());
    assert_eq!(TaskSet::new_empty().get_first_task_id(), None);
}

#[test]
fn taskset_get_task_by_id_finds_the_first() {
    let ts = TaskSet::new(vec![Task::new(1, 0, 1, 4, 4), Task::new(1, 0, 9, 6, 6)]);
    assert_eq!(ts.get_task_by_id(1).unwrap().wcet(), 1);
}

#[test]
fn taskset_release_jobs_in_task_order() {
    let mut ts = two_tasks();
    let jobs = ts.release_jobs(0);
    assert_eq!(jobs.len(), 2);
    assert_eq!(jobs[0].task_id(), 1);
    assert_eq!(jobs[1].task_id(), 2);
    let jobs = ts.release_jobs(4);
    assert_eq!(jobs.len(), 1);
    assert_eq!(jobs[0].task_id(), 1);
    assert_eq!(jobs[0].id(), 2);
    assert_eq!(ts.release_jobs(5).len(), 0);
    let jobs = ts.release_jobs(12);
    assert_eq!(jobs.len(), 2);
}

#[test]
fn taskset_retain_not_drops_every_task_with_the_id() {
    let mut ts = TaskSet::new(vec![
        Task::new(1, 0, 1, 4, 4),
        Task::new(2, 0, 1, 4, 4),
        Task::new(1, 0, 2, 4, 4),
    ]);
    ts.retain_not(1);
    assert_eq!(ts.len(), 1);
    assert_eq!(ts.get_first_task_id(), Some(2));
    ts.add_task(Task::new(5, 0, 1, 1, 1));
    assert_eq!(ts.len(), 2);
    assert_eq!(ts.get_tasks().len(), 2);
    ts.get_tasks_mut().clear();
    assert!(ts.is_empty());
}

#[test]
fn taskset_is_feasible_checks_deadlines_and_utilisation() {
    let ts = two_tasks();
    assert!(ts.is_feasible(true));
    assert!(!ts.is_feasible(false));
    let late = TaskSet::new(vec![Task::new(1, 0, 3, 2, 4)]);
    assert!(!late.is_feasible(true));
}

#[test]
fn taskset_busy_period_is_reached_at_once() {
    let ts = two_tasks();
    assert_eq!(ts.feasibility_interval_part(), (3, 3));
}

#[test]
fn taskset_busy_period_after_several_rounds() {
    let ts = TaskSet::new(vec![Task::new(1, 0, 2, 4, 4), Task::new(2, 0, 3, 6, 6)]);
    assert_eq!(ts.feasibility_interval_part(), (5, 12));
}

#[test]
fn taskset_global_interval_uses_offsets_and_periods() {
    let ts = TaskSet::new(vec![Task::new(1, 0, 1, 4, 4), Task::new(2, 2, 1, 4, 4)]);
    // reported periods are 4 and 6, their lcm is 12; the largest offset is 2
    assert_eq!(ts.feasibility_interval_global(), (0, 26));
}

#[test]
fn taskset_copy_keeps_the_tasks() {
    let ts = two_tasks();
    let v = ts.get_tasks_copy();
    assert_eq!(v.len(), 2);
    assert_eq!(v[1].id(), 2);
}

#[test]
fn partition_gives_each_processor_in_bounds() {
    let mut p = Partition::new(3);
    assert_eq!(p.processor_number(), 3);
    assert!(p.get(0).is_some());
    assert!(p.get(2).is_some());
    assert!(p.get(3).is_none());
    p.get_mut(2).unwrap().add_task(Task::new(1, 0, 1, 2, 2));
    assert_eq!(p.get(2).unwrap().len(), 1);
    assert_eq!(p.get(1).unwrap().len(), 0);
    assert!(p.get_mut(0).is_some());
    assert!(p.get_mut(3).is_none());
    assert_eq!(p.iter().count(), 3);
}

#[test]
fn worker_counts_migrations() {
    let mut w = Worker::new(7, HashMap::new());
    assert_eq!(w.id(), 7);
    assert_eq!(w.get_migrations(), 0);
    w.migrate(1);
    w.migrate(1);
    w.migrate(2);
    assert_eq!(w.get_migrations(), 3);
}

#[test]
fn worker_starts_from_the_given_counts() {
    let mut m = HashMap::new();
    m.insert(1usize, 4usize);
    m.insert(2usize, 1usize);
    let mut w = Worker::new(1, m);
    assert_eq!(w.get_migrations(), 5);
    w.migrate(3);
    assert_eq!(w.get_migrations(), 6);
}

#[test]
fn scheduling_codes_are_the_exit_codes() {
    assert_eq!(SchedulingCode::SchedulableSimulated.code(), 0);
    assert_eq!(SchedulingCode::SchedulableShortcut.code(), 1);
    assert_eq!(SchedulingCode::UnschedulableSimulated.code(), 2);
    assert_eq!(SchedulingCode::UnschedulableShortcut.code(), 3);
    assert_eq!(SchedulingCode::CannotTell.code(), 4);
}

#[test]
fn partition_iter_mut_changes_each_task_set_in_place() {
    let mut p = Partition::new(2);
    let mut id = 1;
    for ts in p.iter_mut() {
        ts.add_task(Task::new(id, 0, 1, 2, 2));
        id += 1;
    }
    assert_eq!(p.processor_number(), 2);
    assert_eq!(p.get(0).unwrap().get_first_task_id(), Some(1));
    assert_eq!(p.get(1).unwrap().get_first_task_id(), Some(2));
}

#[test]
fn task_numbers_its_jobs_from_one() {
    let mut t = Task::new(1, 0, 2, 5, 5);
    assert_eq!(t.spawn_job(0).unwrap().id(), 1);
    assert_eq!(t.spawn_job(5).unwrap().id(), 2);
}

#[test]
fn can_release_at_detects_a_zero_period() {
    let ok = TaskSet::new(vec![Task::new(1, 0, 1, 4, 4)]);
    assert!(ok.can_release_at(0));
    let zero = TaskSet::new(vec![Task::new(1, 0, 1, 4, 0)]);
    assert!(!zero.can_release_at(0));
    assert!(zero.can_release_at(-1));
}

#[test]
fn partition_index_gives_the_task_set_of_a_processor() {
    let mut p = Partition::new(2);
    p.get_mut(1).unwrap().add_task(Task::new(5, 0, 1, 2, 2));
    assert_eq!(p[1].len(), 1);
    assert_eq!(p[0].len(), 0);
}

#[test]
fn checked_global_interval_agrees_and_refuses_overflow() {
    let ts = TaskSet::new(vec![Task::new(1, 1, 1, 4, 4), Task::new(2, 0, 1, 6, 6)]);
    assert_eq!(ts.checked_feasibility_interval_global(), Some(ts.feasibility_interval_global()));
    assert_eq!(TaskSet::new_empty().checked_feasibility_interval_global(), None);
    let big = TaskSet::new(vec![Task::new(1, 0, 1, 4, isize::MAX / 2 + 1)]);
    assert_eq!(big.checked_feasibility_interval_global(), None);
}
