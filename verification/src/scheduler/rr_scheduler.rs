use vstd::prelude::*;

use crate::constants::TimeStep;
use crate::job::Job;
use crate::lcm::{lcm_fold, lcm_fold_defined};
use crate::task::TaskView;
use crate::taskset::{all_periods_fit, reported_periods, TaskSet};

verus! {

/// Round-robin selection: each call elects the job after the one elected last.
pub struct RoundRobin {
    last_index: usize,
}

impl View for RoundRobin {
    type V = usize;

    closed spec fn view(&self) -> usize {
        self.last_index
    }
}

impl RoundRobin {
    /// A selector whose last elected position is zero.
    pub fn new() -> (r: Self)
        ensures
            r@ == 0,
    {
        Self { last_index: 0 }
    }

    /// Elects the job after the last elected position, wrapping around the queue; `None`
    /// for no job (the last position then stays).
    pub fn schedule<'a>(&mut self, jobs: &'a mut Vec<Job>) -> (r: Option<&'a mut Job>)
        requires
            old(self)@ < usize::MAX,
        ensures
            old(jobs)@.len() == 0 ==> r is None && final(self)@ == old(self)@ && final(jobs)@
                == old(jobs)@,
            old(jobs)@.len() > 0 ==> ({
                let i = ((old(self)@ + 1) % (old(jobs)@.len() as int)) as int;
                &&& final(self)@ == i
                &&& r is Some
                &&& *r->0 == old(jobs)@[i]
                &&& final(jobs)@ == old(jobs)@.update(i, *final(r->0))
            }),
    {
        if jobs.len() == 0 {
            return None;
        }
        self.last_index = (self.last_index + 1) % jobs.len();
        Some(&mut jobs[self.last_index])
    }

    /// The interval `[0, P)` with `P` the least common multiple of the reported periods.
    pub fn feasibility_interval(&self, taskset: &TaskSet) -> (r: (TimeStep, TimeStep))
        requires
            all_periods_fit(taskset@),
            lcm_fold_defined(reported_periods(taskset@)),
        ensures
            r.0 == 0,
            r.1 == lcm_fold(reported_periods(taskset@)),
    {
        let periods = taskset.periods();
        (0, crate::lcm::multiple_lcm(periods))
    }
}

} // verus!
