use vstd::prelude::*;

use crate::constants::{TimeStep, ID};
use crate::job::{Job, JobView};

verus! {

/// The abstract state of a periodic task.
pub struct TaskView {
    pub id: ID,
    pub offset: TimeStep,
    pub wcet: TimeStep,
    pub deadline: TimeStep,
    pub period: TimeStep,
    pub jobs_released: ID,
}

/// The abstract states of a sequence of tasks.
pub open spec fn task_views(s: Seq<Task>) -> Seq<TaskView> {
    s.map_values(|t: Task| t@)
}

/// The deadline the task reports: its relative deadline plus its offset.
pub open spec fn task_deadline(t: TaskView) -> int {
    t.deadline + t.offset
}

/// The period the task reports: its period plus its offset.
pub open spec fn task_period(t: TaskView) -> int {
    t.period + t.offset
}

/// Whether `task_deadline` fits in a `TimeStep`.
pub open spec fn deadline_fits(t: TaskView) -> bool {
    TimeStep::MIN <= task_deadline(t) <= TimeStep::MAX
}

/// Whether `task_period` fits in a `TimeStep`.
pub open spec fn period_fits(t: TaskView) -> bool {
    TimeStep::MIN <= task_period(t) <= TimeStep::MAX
}

/// The task releases a job at time `now`: its offset has passed and `now` lies a whole
/// number of periods after it.
pub open spec fn releases_at(t: TaskView, now: int) -> bool {
    now >= t.offset && (now - t.offset) % (t.period as int) == 0
}

/// The arguments on which `spawn_job` computes without overflow or division by zero.
pub open spec fn spawn_defined(t: TaskView, now: int) -> bool {
    now < t.offset || (now - t.offset <= TimeStep::MAX && t.period != 0 && ((now - t.offset) % (
    t.period as int) != 0 || (t.jobs_released + 1 <= ID::MAX && deadline_fits(t) && TimeStep::MIN
        <= task_deadline(t) + now <= TimeStep::MAX)))
}

/// The job that the task releases at `now`, after its count of released jobs has gone
/// up by one: numbered by the new count (jobs are numbered from one), with the task's worst-case
/// execution time as its work and an absolute deadline `now` after the task's deadline.
pub open spec fn released_job(t: TaskView, now: int) -> JobView {
    JobView {
        id: after_release(t).jobs_released,
        task_id: t.id,
        task_deadline: task_deadline(t) as TimeStep,
        remaining_time: t.wcet,
        real_absolute_deadline: (task_deadline(t) + now) as TimeStep,
        show_absolute_deadline: (task_deadline(t) + now) as TimeStep,
    }
}

/// The task after a release: one more job released.
pub open spec fn after_release(t: TaskView) -> TaskView {
    TaskView { jobs_released: (t.jobs_released + 1) as ID, ..t }
}

/// A periodic task: it releases a job every `period` steps from `offset` on, each job
/// needing `wcet` units of work within `deadline` steps.
#[derive(Clone, Copy, Debug, PartialEq, Eq, Structural)]
pub struct Task {
    id: ID,
    offset: TimeStep,
    wcet: TimeStep,
    deadline: TimeStep,
    period: TimeStep,
    jobs_released: ID,
}

impl View for Task {
    type V = TaskView;

    closed spec fn view(&self) -> TaskView {
        TaskView {
            id: self.id,
            offset: self.offset,
            wcet: self.wcet,
            deadline: self.deadline,
            period: self.period,
            jobs_released: self.jobs_released,
        }
    }
}

impl Task {
    /// A task that has released no job yet.
    pub fn new(id: ID, offset: TimeStep, wcet: TimeStep, deadline: TimeStep, period: TimeStep) -> (r:
        Self)
        ensures
            r@ == (TaskView { id, offset, wcet, deadline, period, jobs_released: 0 }),
    {
        Self { id, offset, wcet, deadline, period, jobs_released: 0 }
    }

    pub fn id(&self) -> (r: ID)
        ensures
            r == self@.id,
    {
        self.id
    }

    pub fn offset(&self) -> (r: TimeStep)
        ensures
            r == self@.offset,
    {
        self.offset
    }

    pub fn wcet(&self) -> (r: TimeStep)
        ensures
            r == self@.wcet,
    {
        self.wcet
    }

    /// The relative deadline plus the offset.
    pub fn deadline(&self) -> (r: TimeStep)
        requires
            deadline_fits(self@),
        ensures
            r == task_deadline(self@),
    {
        self.deadline + self.offset
    }

    /// The relative deadline plus the offset, when it fits in a `TimeStep`.
    pub fn checked_deadline(&self) -> (r: Option<TimeStep>)
        ensures
            r is Some <==> deadline_fits(self@),
            r is Some ==> r->0 == task_deadline(self@),
    {
        self.deadline.checked_add(self.offset)
    }

    /// Whether `spawn_job(now)` computes without overflow or division by zero (see
    /// `spawn_defined`).
    pub fn can_spawn_at(&self, now: TimeStep) -> (r: bool)
        ensures
            r == spawn_defined(self@, now as int),
    {
        if now < self.offset {
            return true;
        }
        let diff: i128 = now as i128 - self.offset as i128;
        if diff > TimeStep::MAX as i128 {
            return false;
        }
        if self.period == 0 {
            return false;
        }
        let d: TimeStep = now - self.offset;
        if d % self.period != 0 {
            return true;
        }
        if self.jobs_released == ID::MAX {
            return false;
        }
        match self.checked_deadline() {
            None => false,
            Some(dl) => dl.checked_add(now).is_some(),
        }
    }

    /// The period plus the offset, when it fits in a `TimeStep`.
    pub fn checked_period(&self) -> (r: Option<TimeStep>)
        ensures
            r is Some <==> period_fits(self@),
            r is Some ==> r->0 == task_period(self@),
    {
        self.period.checked_add(self.offset)
    }

    /// The period plus the offset.
    pub fn period(&self) -> (r: TimeStep)
        requires
            period_fits(self@),
        ensures
            r == task_period(self@),
    {
        self.period + self.offset
    }

    /// Releases a job if `current_time` is a release time of the task (see
    /// `releases_at`), counting it; otherwise leaves the task as it is.
    pub fn spawn_job(&mut self, current_time: TimeStep) -> (r: Option<Job>)
        requires
            spawn_defined(old(self)@, current_time as int),
        ensures
            releases_at(old(self)@, current_time as int) ==> (final(self)@ == after_release(
                old(self)@,
            ) && r is Some && r->0@ == released_job(old(self)@, current_time as int)),
            !releases_at(old(self)@, current_time as int) ==> final(self)@ == old(self)@ && r
                is None,
    {
        if current_time < self.offset {
            return None;
        }
        if (current_time - self.offset) % self.period != 0 {
            return None;
        }
        self.jobs_released = self.jobs_released + 1;
        Some(
            Job::new(
                self.jobs_released,
                self.id,
                self.wcet,
                self.deadline(),
                self.deadline() + current_time,
            ),
        )
    }
}

} // verus!
