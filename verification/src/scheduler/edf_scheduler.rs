use vstd::prelude::*;

use crate::constants::TimeStep;
use crate::job::{Job, JobView};
use crate::taskset::{busy_converges_at, busy_period, wcet_sum, TaskSet};

verus! {

/// The abstract states of a sequence of jobs.
pub open spec fn job_views(s: Seq<Job>) -> Seq<JobView> {
    s.map_values(|j: Job| j@)
}

/// `i` is the first position holding a job with the smallest shown deadline.
pub open spec fn is_first_earliest(q: Seq<JobView>, i: int) -> bool {
    &&& 0 <= i < q.len()
    &&& forall|j: int|
        0 <= j < q.len() ==> q[i].show_absolute_deadline <= #[trigger] q[j].show_absolute_deadline
    &&& forall|j: int|
        0 <= j < i ==> #[trigger] q[j].show_absolute_deadline > q[i].show_absolute_deadline
}

/// The first position holding a job with the smallest shown deadline.
pub open spec fn first_earliest(q: Seq<JobView>) -> int {
    choose|i: int| is_first_earliest(q, i)
}

/// The first earliest position is unique: `first_earliest` names it.
pub proof fn lemma_first_earliest_unique(q: Seq<JobView>, i: int)
    requires
        is_first_earliest(q, i),
    ensures
        first_earliest(q) == i,
{
    let k = first_earliest(q);
    assert(is_first_earliest(q, k));
    if k < i {
        assert(q[k].show_absolute_deadline > q[i].show_absolute_deadline);
    } else if i < k {
        assert(q[i].show_absolute_deadline > q[k].show_absolute_deadline);
    }
}

/// The position of the first job with the smallest shown deadline, if any job is given.
pub fn earliest_index(jobs: &Vec<Job>) -> (r: Option<usize>)
    ensures
        jobs@.len() == 0 ==> r is None,
        jobs@.len() > 0 ==> r is Some && is_first_earliest(job_views(jobs@), r->0 as int)
            && r->0 as int == first_earliest(job_views(jobs@)),
{
    if jobs.len() == 0 {
        return None;
    }
    let ghost q = job_views(jobs@);
    let mut smallest: TimeStep = jobs[0].absolute_deadline();
    let mut index_to_ret: usize = 0;
    let n = jobs.len();
    let mut i: usize = 0;
    while i < n
        invariant
            n == jobs@.len(),
            q == job_views(jobs@),
            0 <= index_to_ret < n,
            i <= n,
            index_to_ret <= i,
            smallest == q[index_to_ret as int].show_absolute_deadline,
            forall|j: int| 0 <= j < i ==> smallest <= #[trigger] q[j].show_absolute_deadline,
            forall|j: int| 0 <= j < index_to_ret ==> #[trigger] q[j].show_absolute_deadline > smallest,
        decreases n - i,
    {
        let current_deadline = jobs[i].absolute_deadline();
        if current_deadline < smallest {
            smallest = current_deadline;
            index_to_ret = i;
        }
        i = i + 1;
    }
    proof {
        lemma_first_earliest_unique(q, index_to_ret as int);
    }
    Some(index_to_ret)
}

/// Earliest-deadline-first scheduling on one processor.
pub struct EarliestDeadlineFirst;

impl EarliestDeadlineFirst {
    /// The position of the first job with the earliest shown deadline; `None` for no job.
    /// The jobs are left as they are.
    pub fn schedule(&self, jobs: &mut Vec<Job>) -> (r: Option<usize>)
        ensures
            final(jobs)@ == old(jobs)@,
            old(jobs)@.len() == 0 ==> r is None,
            old(jobs)@.len() > 0 ==> r == Some(first_earliest(job_views(old(jobs)@)) as usize),
    {
        earliest_index(jobs)
    }

    /// The feasibility interval of the task set on one processor: its total work, and the
    /// length of its first busy period.
    pub fn feasibility_interval(&self, taskset: &TaskSet) -> (r: (TimeStep, TimeStep))
        requires
            exists|n: nat| busy_converges_at(taskset@, n),
        ensures
            r.0 == wcet_sum(taskset@),
            r.1 == busy_period(taskset@),
    {
        taskset.feasibility_interval_part()
    }
}

} // verus!
