use vstd::prelude::*;

use crate::constants::TimeStep;
use crate::job::Job;

verus! {

/// What can go wrong in a simulation: a job missed its deadline at time `t`.
#[derive(Debug, Clone, Copy)]
pub enum SchedulingError {
    DeadlineMissed { job: Job, t: TimeStep },
}

} // verus!
