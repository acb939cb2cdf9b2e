use multiprocessor::scheduler::dm_scheduler::DMScheduler;
use multiprocessor::scheduler::edf_k_scheduler::EDFkScheduler;
use multiprocessor::scheduler::global_step::StepFault;
use multiprocessor::{Job, Task, TaskSet};

fn all_fit(cores: usize, tasks: usize) -> Vec<Vec<bool>> {
    vec![vec![true; tasks]; cores]
}

fn two_light_tasks() -> TaskSet {
    TaskSet::new(vec![Task::new(1, 0, 1, 4, 4), Task::new(2, 0, 1, 4, 4)])
}

#[test]
fn edfk_step_faults_on_a_core_that_starts_with_the_whole_task_set() {
    let mut edfk = EDFkScheduler::new(two_light_tasks(), 1, 0);
    let mut queue: Vec<(Job, usize)> = Vec::new();
    let fits = all_fit(1, 2);
    assert_eq!(edfk.time_step(0, &mut queue, &fits).unwrap_err(), StepFault::NoCurrentJob);
}

#[test]
fn edfk_step_without_cores_queues_marked_jobs() {
    let ts = TaskSet::new(vec![Task::new(1, 0, 2, 2, 4), Task::new(2, 0, 2, 3, 4)]);
    let mut edfk = EDFkScheduler::new(ts, 0, 2);
    let mut queue: Vec<(Job, usize)> = Vec::new();
    let fits: Vec<Vec<bool>> = Vec::new();
    let (missed, taken) = edfk.time_step(0, &mut queue, &fits).unwrap();
    assert!(!missed);
    assert!(taken.is_empty());
    assert_eq!(queue.len(), 2);
    assert!(queue[0].0.is_deadline_inf());
    assert_eq!(queue[0].0.real_absolute_deadline(), 2);
    assert_eq!(queue[1].0.absolute_deadline(), 3);
    assert_eq!(queue[0].1, 0);
    assert_eq!(queue[1].1, 0);
}

#[test]
fn edfk_step_reports_a_job_left_waiting_past_its_deadline() {
    let ts = TaskSet::new(vec![Task::new(1, 0, 1, 2, 4)]);
    let mut edfk = EDFkScheduler::new(ts, 0, 0);
    let mut queue: Vec<(Job, usize)> = Vec::new();
    let fits: Vec<Vec<bool>> = Vec::new();
    assert_eq!(edfk.time_step(0, &mut queue, &fits).unwrap().0, false);
    assert_eq!(edfk.time_step(1, &mut queue, &fits).unwrap().0, false);
    assert_eq!(edfk.time_step(2, &mut queue, &fits).unwrap().0, true);
}

#[test]
fn edfk_step_with_nothing_released_changes_nothing() {
    let ts = TaskSet::new(vec![Task::new(1, 5, 1, 2, 4)]);
    let mut edfk = EDFkScheduler::new(ts, 2, 0);
    edfk.set_core_times(0);
    let mut queue: Vec<(Job, usize)> = Vec::new();
    let fits = all_fit(2, 1);
    let (missed, taken) = edfk.time_step(0, &mut queue, &fits).unwrap();
    assert!(!missed);
    assert!(taken.is_empty());
    assert!(queue.is_empty());
    assert!(edfk.cores()[0].is_assigned());
}

#[test]
fn dm_step_faults_on_a_core_that_starts_with_the_whole_task_set() {
    let mut dm = DMScheduler::new(two_light_tasks(), 3);
    let fits = all_fit(3, 2);
    assert_eq!(dm.time_step(0, &fits).unwrap_err(), StepFault::NoCurrentJob);
}

#[test]
fn dm_step_without_cores_keeps_only_fresh_jobs() {
    let ts = TaskSet::new(vec![Task::new(1, 0, 1, 2, 1)]);
    let mut dm = DMScheduler::new(ts, 0);
    let fits: Vec<Vec<bool>> = Vec::new();
    for time in 0..5 {
        let (missed, taken) = dm.time_step(time, &fits).unwrap();
        assert!(!missed);
        assert!(taken.is_empty());
    }
}

#[test]
fn dm_sorts_tasks_stably_by_reported_deadline() {
    let ts = TaskSet::new(vec![
        Task::new(1, 0, 1, 10, 10),
        Task::new(2, 0, 1, 5, 5),
        Task::new(3, 2, 1, 3, 5),
        Task::new(4, 0, 1, 1, 5),
    ]);
    let mut dm = DMScheduler::new(ts, 1);
    dm.sort_tasks_by_deadline();
    let ids: Vec<usize> = dm.task_set().iter().map(|t| t.id()).collect();
    assert_eq!(ids, vec![4, 2, 3, 1]);
}

#[test]
fn deadlines_fit_detects_an_overflowing_deadline() {
    let ok = TaskSet::new(vec![Task::new(1, 3, 1, 4, 4)]);
    assert!(ok.deadlines_fit());
    let bad = TaskSet::new(vec![Task::new(1, isize::MAX, 1, 4, 4)]);
    assert!(!bad.deadlines_fit());
}
