use vstd::prelude::*;

use crate::constants::{SchedulingCode, Version, ID};
use crate::scheduler::processor::{core_views, empty_cores, fresh_core, Core, CoreView};
use crate::task::TaskView;
use crate::taskset::TaskSet;

verus! {

/// The abstract state of a scheduler.
pub struct SchedulerView {
    pub task_set: Seq<TaskView>,
    pub version: Version,
    pub num_cores: usize,
    pub num_threads: usize,
    pub cores: Seq<CoreView>,
    pub heuristic: Seq<char>,
    pub sorting_order: Seq<char>,
}

/// The `k` of EDF(k) for a policy: its own for EDF(k), one otherwise (EDF(1) is EDF).
pub open spec fn version_k(v: Version) -> usize {
    match v {
        Version::EDFk(value) => value,
        _ => 1,
    }
}

/// Whether a verdict says schedulable.
pub open spec fn is_schedulable_code(c: SchedulingCode) -> bool {
    c == SchedulingCode::SchedulableShortcut || c == SchedulingCode::SchedulableSimulated
}

/// The verdict so far after one more core reports `resp`: an unschedulable verdict so
/// far stays; otherwise an unschedulable report replaces it, a simulated schedulable
/// report makes it simulated, and a shortcut schedulable report leaves it as it is. So
/// the task set is found unschedulable as soon as one core is.
pub open spec fn merged_verdict(acc: SchedulingCode, resp: SchedulingCode) -> SchedulingCode {
    if !is_schedulable_code(acc) {
        acc
    } else if !is_schedulable_code(resp) {
        resp
    } else if resp == SchedulingCode::SchedulableSimulated {
        SchedulingCode::SchedulableSimulated
    } else {
        acc
    }
}

/// Merges a core's report into the verdict so far (see `merged_verdict`).
pub fn merge_verdict(acc: SchedulingCode, resp: SchedulingCode) -> (r: SchedulingCode)
    ensures
        r == merged_verdict(acc, resp),
{
    if !(acc == SchedulingCode::SchedulableShortcut || acc == SchedulingCode::SchedulableSimulated) {
        acc
    } else if !(resp == SchedulingCode::SchedulableShortcut || resp
        == SchedulingCode::SchedulableSimulated) {
        resp
    } else if resp == SchedulingCode::SchedulableSimulated {
        SchedulingCode::SchedulableSimulated
    } else {
        acc
    }
}

/// A scheduler that checks a task set under a chosen policy, with the partitioning
/// heuristic and task order named by strings (`"ff"`, `"nd"`, `"bf"`, `"wf"`; `"iu"`,
/// `"du"`).
pub struct Scheduler {
    task_set: TaskSet,
    version: Version,
    num_cores: usize,
    num_threads: usize,
    cores: Vec<Core>,
    heuristic: String,
    sorting_order: String,
}

impl View for Scheduler {
    type V = SchedulerView;

    closed spec fn view(&self) -> SchedulerView {
        SchedulerView {
            task_set: self.task_set@,
            version: self.version,
            num_cores: self.num_cores,
            num_threads: self.num_threads,
            cores: core_views(self.cores@),
            heuristic: self.heuristic@,
            sorting_order: self.sorting_order@,
        }
    }
}

impl Scheduler {
    /// A scheduler for partitioned EDF over `num_cores` empty cores numbered from one.
    pub fn new(
        task_set: TaskSet,
        num_cores: usize,
        num_threads: usize,
        heuristic: String,
        sorting_order: String,
    ) -> (r: Self)
        ensures
            r@.task_set == task_set@,
            r@.version == Version::Partitioned,
            r@.num_cores == num_cores,
            r@.num_threads == num_threads,
            r@.heuristic == heuristic@,
            r@.sorting_order == sorting_order@,
            r@.cores.len() == num_cores,
            forall|i: int| 0 <= i < num_cores ==> #[trigger] r@.cores[i] == fresh_core((i + 1) as ID, Seq::empty()),
    {
        Self {
            task_set,
            version: Version::Partitioned,
            num_cores,
            num_threads,
            cores: empty_cores(num_cores),
            heuristic,
            sorting_order,
        }
    }

    pub fn set_version(&mut self, new_version: Version)
        ensures
            final(self)@ == (SchedulerView { version: new_version, ..old(self)@ }),
    {
        self.version = new_version;
    }

    /// The `k` of EDF(k), or one when the policy is not EDF(k).
    pub fn get_k(&self) -> (r: usize)
        ensures
            r == version_k(self@.version),
    {
        match self.version {
            Version::EDFk(value) => value,
            _ => 1,
        }
    }

    /// The tasks, for the partitioning to order them.
    pub fn task_set_mut(&mut self) -> (r: &mut TaskSet)
        ensures
            r@ == old(self)@.task_set,
            final(self)@ == (SchedulerView { task_set: final(r)@, ..old(self)@ }),
    {
        &mut self.task_set
    }

    /// The cores, for the partitioning to replace.
    pub fn cores_mut(&mut self) -> (r: &mut Vec<Core>)
        ensures
            core_views(r@) == old(self)@.cores,
            final(self)@ == (SchedulerView { cores: core_views(final(r)@), ..old(self)@ }),
    {
        &mut self.cores
    }

    pub fn num_cores(&self) -> (r: usize)
        ensures
            r == self@.num_cores,
    {
        self.num_cores
    }

    pub fn num_threads(&self) -> (r: usize)
        ensures
            r == self@.num_threads,
    {
        self.num_threads
    }

    pub fn heuristic(&self) -> (r: &String)
        ensures
            r@ == self@.heuristic,
    {
        &self.heuristic
    }

    pub fn sorting_order(&self) -> (r: &String)
        ensures
            r@ == self@.sorting_order,
    {
        &self.sorting_order
    }

    pub fn task_set(&self) -> (r: &TaskSet)
        ensures
            r@ == self@.task_set,
    {
        &self.task_set
    }
}

} // verus!
