use std::collections::HashMap;
use vstd::prelude::*;

use crate::constants::{TimeStep, ID};
use crate::job::Job;
use crate::migrations::{can_count, count_migration, counted, total_count, total_migrations};
use crate::scheduler::edf_scheduler::{earliest_index, first_earliest, job_views};
use crate::task::TaskView;
use crate::taskset::TaskSet;

verus! {

/// The abstract state of a processor of the task-set model.
pub struct ProcessorView {
    pub id: ID,
    pub migrations: Map<ID, usize>,
    pub tasks: Seq<TaskView>,
    pub current_time: TimeStep,
}

/// A processor of the task-set model: its identifier, its tasks, its clock, and how
/// often each task migrated.
#[derive(Debug)]
pub struct Core {
    id: ID,
    map_migrations: HashMap<ID, usize>,
    task_set: TaskSet,
    current_time: TimeStep,
}

impl View for Core {
    type V = ProcessorView;

    closed spec fn view(&self) -> ProcessorView {
        ProcessorView {
            id: self.id,
            migrations: self.map_migrations@,
            tasks: self.task_set@,
            current_time: self.current_time,
        }
    }
}

impl Core {
    /// A processor with no task and no migration, at time zero.
    pub fn new(id: ID) -> (r: Self)
        ensures
            r@ == (ProcessorView {
                id,
                migrations: Map::empty(),
                tasks: Seq::empty(),
                current_time: 0,
            }),
    {
        Self { id, map_migrations: HashMap::new(), task_set: TaskSet::new_empty(), current_time: 0 }
    }

    /// A processor holding `task_set`, with no migration, at time zero.
    pub fn new_task_set(id: ID, task_set: TaskSet) -> (r: Self)
        ensures
            r@ == (ProcessorView {
                id,
                migrations: Map::empty(),
                tasks: task_set@,
                current_time: 0,
            }),
    {
        Self { id, map_migrations: HashMap::new(), task_set, current_time: 0 }
    }

    /// Counts one more migration of `task_id`, starting from one when it has none.
    pub fn migrate(&mut self, task_id: ID)
        requires
            can_count(old(self)@.migrations, task_id),
        ensures
            final(self)@ == (ProcessorView {
                migrations: counted(old(self)@.migrations, task_id),
                ..old(self)@
            }),
    {
        count_migration(&mut self.map_migrations, task_id);
    }

    /// The number of migrations counted over all tasks.
    pub fn get_migrations(&self) -> (r: usize)
        requires
            total_count(self@.migrations) <= usize::MAX,
        ensures
            r == total_count(self@.migrations),
    {
        total_migrations(&self.map_migrations)
    }

    pub fn id(&self) -> (r: ID)
        ensures
            r == self@.id,
    {
        self.id
    }

    /// The position of the first job with the earliest shown deadline; `None` for no job.
    /// The jobs are left as they are.
    pub fn schedule(&self, jobs: &mut Vec<Job>) -> (r: Option<ID>)
        ensures
            final(jobs)@ == old(jobs)@,
            old(jobs)@.len() == 0 ==> r is None,
            old(jobs)@.len() > 0 ==> r == Some(first_earliest(job_views(old(jobs)@)) as ID),
    {
        earliest_index(jobs)
    }
}

} // verus!
