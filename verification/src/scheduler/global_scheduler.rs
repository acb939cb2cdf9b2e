use vstd::prelude::*;

use crate::constants::ID;
use crate::scheduler::dm_scheduler::GlobalSchedulerView;
use crate::scheduler::processor::{core_views, cores_sharing, fresh_core, Core};
use crate::taskset::TaskSet;

verus! {

/// Global earliest-deadline-first scheduling over several cores.
pub struct GlobalEDFScheduler {
    task_set: TaskSet,
    num_cores: usize,
    cores: Vec<Core>,
}

impl View for GlobalEDFScheduler {
    type V = GlobalSchedulerView;

    closed spec fn view(&self) -> GlobalSchedulerView {
        GlobalSchedulerView {
            task_set: self.task_set@,
            num_cores: self.num_cores,
            cores: core_views(self.cores@),
        }
    }
}

impl GlobalEDFScheduler {
    /// A scheduler over `num_cores` cores numbered from one, each starting with the whole
    /// task set.
    pub fn new(task_set: TaskSet, num_cores: usize) -> (r: Self)
        ensures
            r@.task_set == task_set@,
            r@.num_cores == num_cores,
            r@.cores.len() == num_cores,
            forall|i: int| 0 <= i < num_cores ==> #[trigger] r@.cores[i] == fresh_core((i + 1) as ID, task_set@),
    {
        let cores = cores_sharing(&task_set, num_cores);
        Self { task_set, num_cores, cores }
    }

    pub fn task_set(&self) -> (r: &TaskSet)
        ensures
            r@ == self@.task_set,
    {
        &self.task_set
    }

    pub fn num_cores(&self) -> (r: usize)
        ensures
            r == self@.num_cores,
    {
        self.num_cores
    }

    /// The cores, for the simulation to run.
    pub fn cores_mut(&mut self) -> (r: &mut Vec<Core>)
        ensures
            core_views(r@) == old(self)@.cores,
            final(self)@ == (GlobalSchedulerView { cores: core_views(final(r)@), ..old(self)@ }),
    {
        &mut self.cores
    }
}

} // verus!
