use vstd::prelude::*;

use crate::constants::{TimeStep, ID};

verus! {

/// The abstract state of a job.
pub struct JobView {
    pub id: ID,
    pub task_id: ID,
    pub task_deadline: TimeStep,
    pub remaining_time: TimeStep,
    pub real_absolute_deadline: TimeStep,
    pub show_absolute_deadline: TimeStep,
}

/// The job has missed its deadline at time `t`: work is left and the deadline has come.
pub open spec fn job_missed(j: JobView, t: int) -> bool {
    j.remaining_time > 0 && t >= j.real_absolute_deadline
}

/// The job has no work left.
pub open spec fn job_complete(j: JobView) -> bool {
    j.remaining_time == 0
}

/// A job released by a task: an instance of it with a remaining execution time and
/// deadlines.
#[derive(Clone, Copy, Debug, PartialEq, Eq, Structural)]
pub struct Job {
    id: ID,
    task_id: ID,
    task_deadline: TimeStep,
    remaining_time: TimeStep,
    real_absolute_deadline: TimeStep,
    show_absolute_deadline: TimeStep,
}

impl View for Job {
    type V = JobView;

    closed spec fn view(&self) -> JobView {
        JobView {
            id: self.id,
            task_id: self.task_id,
            task_deadline: self.task_deadline,
            remaining_time: self.remaining_time,
            real_absolute_deadline: self.real_absolute_deadline,
            show_absolute_deadline: self.show_absolute_deadline,
        }
    }
}

impl Job {
    /// A job whose shown and real absolute deadlines are both `absolute_deadline`.
    pub fn new(
        id: ID,
        task_id: ID,
        remaining_time: TimeStep,
        task_deadline: TimeStep,
        absolute_deadline: TimeStep,
    ) -> (r: Self)
        ensures
            r@ == (JobView {
                id,
                task_id,
                task_deadline,
                remaining_time,
                real_absolute_deadline: absolute_deadline,
                show_absolute_deadline: absolute_deadline,
            }),
    {
        Self {
            id,
            task_id,
            task_deadline,
            remaining_time,
            real_absolute_deadline: absolute_deadline,
            show_absolute_deadline: absolute_deadline,
        }
    }

    pub fn id(&self) -> (r: ID)
        ensures
            r == self@.id,
    {
        self.id
    }

    pub fn task_id(&self) -> (r: ID)
        ensures
            r == self@.task_id,
    {
        self.task_id
    }

    pub fn task_deadline(&self) -> (r: TimeStep)
        ensures
            r == self@.task_deadline,
    {
        self.task_deadline
    }

    pub fn remaining_time(&self) -> (r: TimeStep)
        ensures
            r == self@.remaining_time,
    {
        self.remaining_time
    }

    pub fn set_remaining_time(&mut self, new: TimeStep)
        ensures
            final(self)@ == (JobView { remaining_time: new, ..old(self)@ }),
    {
        self.remaining_time = new;
    }

    /// The deadline shown to the scheduler (the one it orders jobs by).
    pub fn absolute_deadline(&self) -> (r: TimeStep)
        ensures
            r == self@.show_absolute_deadline,
    {
        self.show_absolute_deadline
    }

    /// The deadline the job has to meet.
    pub fn real_absolute_deadline(&self) -> (r: TimeStep)
        ensures
            r == self@.real_absolute_deadline,
    {
        self.real_absolute_deadline
    }

    /// Sets the deadline shown to the scheduler; the real deadline stays.
    pub fn set_deadline(&mut self, new: TimeStep)
        ensures
            final(self)@ == (JobView { show_absolute_deadline: new, ..old(self)@ }),
    {
        self.show_absolute_deadline = new;
    }

    /// Marks the job as always coming first: its shown deadline becomes `TimeStep::MIN`.
    pub fn set_deadline_inf(&mut self)
        ensures
            final(self)@ == (JobView { show_absolute_deadline: TimeStep::MIN, ..old(self)@ }),
    {
        self.show_absolute_deadline = TimeStep::MIN;
    }

    /// Whether the shown deadline is the mark set by `set_deadline_inf`.
    pub fn is_deadline_inf(&self) -> (r: bool)
        ensures
            r == (self@.show_absolute_deadline == TimeStep::MIN),
    {
        self.show_absolute_deadline == TimeStep::MIN
    }

    /// Whether work is left at time `t` while the real deadline has come.
    pub fn deadline_missed(&self, t: TimeStep) -> (r: bool)
        ensures
            r == job_missed(self@, t as int),
    {
        self.remaining_time > 0 && t >= self.real_absolute_deadline
    }

    /// Whether no work is left.
    pub fn is_complete(&self) -> (r: bool)
        ensures
            r == job_complete(self@),
    {
        self.remaining_time == 0
    }

    /// Runs the job for one time unit: one unit less of work is left.
    pub fn schedule(&mut self)
        requires
            old(self)@.remaining_time > TimeStep::MIN,
        ensures
            final(self)@ == (JobView {
                remaining_time: (old(self)@.remaining_time - 1) as TimeStep,
                ..old(self)@
            }),
    {
        self.remaining_time = self.remaining_time - 1;
    }
}

} // verus!
