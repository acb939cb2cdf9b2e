use vstd::prelude::*;

use crate::constants::{TimeStep, ID};
use crate::job::{Job, JobView};

verus! {

/// The abstract states of a global queue: each job with the core it runs on (zero for
/// none).
pub open spec fn queue_views(s: Seq<(Job, ID)>) -> Seq<(JobView, ID)> {
    s.map_values(|p: (Job, ID)| (p.0@, p.1))
}

/// The job at `i` runs on no core.
pub open spec fn unassigned(q: Seq<(JobView, ID)>, i: int) -> bool {
    q[i].1 == 0
}

/// `i` is the first unassigned position with the smallest shown deadline among the
/// unassigned jobs, and that deadline is below `TimeStep::MAX`.
pub open spec fn is_first_earliest_unassigned(q: Seq<(JobView, ID)>, i: int) -> bool {
    &&& 0 <= i < q.len()
    &&& unassigned(q, i)
    &&& q[i].0.show_absolute_deadline < TimeStep::MAX
    &&& forall|j: int|
        0 <= j < q.len() && #[trigger] unassigned(q, j) ==> q[i].0.show_absolute_deadline
            <= q[j].0.show_absolute_deadline
    &&& forall|j: int|
        0 <= j < i && #[trigger] unassigned(q, j) ==> q[j].0.show_absolute_deadline
            > q[i].0.show_absolute_deadline
}

/// Some unassigned job has a shown deadline below `TimeStep::MAX`.
pub open spec fn has_earliest_candidate(q: Seq<(JobView, ID)>) -> bool {
    exists|i: int|
        0 <= i < q.len() && #[trigger] unassigned(q, i) && q[i].0.show_absolute_deadline
            < TimeStep::MAX
}

/// There is at most one first unassigned position with the earliest shown deadline.
pub proof fn lemma_first_earliest_unassigned_unique(q: Seq<(JobView, ID)>, a: int, b: int)
    requires
        is_first_earliest_unassigned(q, a),
        is_first_earliest_unassigned(q, b),
    ensures
        a == b,
{
    if a < b {
        assert(unassigned(q, a));
    }
    if b < a {
        assert(unassigned(q, b));
    }
}

/// The first unassigned position with the earliest shown deadline below
/// `TimeStep::MAX`, if there is one.
pub fn earliest_unassigned(queue: &Vec<(Job, ID)>) -> (r: Option<ID>)
    ensures
        has_earliest_candidate(queue_views(queue@)) ==> r is Some
            && is_first_earliest_unassigned(queue_views(queue@), r->0 as int),
        !has_earliest_candidate(queue_views(queue@)) ==> r is None,
{
    let ghost q = queue_views(queue@);
    let mut smallest: TimeStep = TimeStep::MAX;
    let mut index_to_ret: Option<ID> = None;
    let n = queue.len();
    let mut i: usize = 0;
    while i < n
        invariant
            n == q.len(),
            q == queue_views(queue@),
            i <= n,
            forall|j: int|
                0 <= j < i && #[trigger] unassigned(q, j) ==> smallest
                    <= q[j].0.show_absolute_deadline,
            match index_to_ret {
                Some(b) => 0 <= b < i && unassigned(q, b as int) && smallest
                    == q[b as int].0.show_absolute_deadline && smallest < TimeStep::MAX && forall|
                    j: int,
                | 0 <= j < b && #[trigger] unassigned(q, j) ==> q[j].0.show_absolute_deadline
                    > smallest,
                None => smallest == TimeStep::MAX,
            },
        decreases n - i,
    {
        let (job, id_core) = &queue[i];
        assert(q[i as int] == (job@, *id_core));
        if *id_core != 0 {
            i = i + 1;
            continue;
        }
        let current_deadline = job.absolute_deadline();
        if current_deadline < smallest {
            smallest = current_deadline;
            index_to_ret = Some(i);
        }
        i = i + 1;
    }
    proof {
        if has_earliest_candidate(q) {
            let c = choose|c: int|
                0 <= c < q.len() && #[trigger] unassigned(q, c) && q[c].0.show_absolute_deadline
                    < TimeStep::MAX;
            assert(smallest <= q[c].0.show_absolute_deadline);
        }
    }
    index_to_ret
}

/// `i` is the first unassigned position with the smallest task deadline among the
/// unassigned jobs, and that deadline is below `TimeStep::MAX`.
pub open spec fn is_first_most_urgent_unassigned(q: Seq<(JobView, ID)>, i: int) -> bool {
    &&& 0 <= i < q.len()
    &&& unassigned(q, i)
    &&& q[i].0.task_deadline < TimeStep::MAX
    &&& forall|j: int|
        0 <= j < q.len() && #[trigger] unassigned(q, j) ==> q[i].0.task_deadline
            <= q[j].0.task_deadline
    &&& forall|j: int|
        0 <= j < i && #[trigger] unassigned(q, j) ==> q[j].0.task_deadline > q[i].0.task_deadline
}

/// Some unassigned job has a task deadline below `TimeStep::MAX`.
pub open spec fn has_urgent_candidate(q: Seq<(JobView, ID)>) -> bool {
    exists|i: int|
        0 <= i < q.len() && #[trigger] unassigned(q, i) && q[i].0.task_deadline < TimeStep::MAX
}

/// There is at most one first unassigned position with the smallest task deadline.
pub proof fn lemma_first_most_urgent_unique(q: Seq<(JobView, ID)>, a: int, b: int)
    requires
        is_first_most_urgent_unassigned(q, a),
        is_first_most_urgent_unassigned(q, b),
    ensures
        a == b,
{
    if a < b {
        assert(unassigned(q, a));
    }
    if b < a {
        assert(unassigned(q, b));
    }
}

/// The first unassigned position with the smallest task deadline below
/// `TimeStep::MAX`, if there is one.
pub fn most_urgent_unassigned(queue: &Vec<(Job, ID)>) -> (r: Option<ID>)
    ensures
        has_urgent_candidate(queue_views(queue@)) ==> r is Some
            && is_first_most_urgent_unassigned(queue_views(queue@), r->0 as int),
        !has_urgent_candidate(queue_views(queue@)) ==> r is None,
{
    let ghost q = queue_views(queue@);
    let mut best_priority: TimeStep = TimeStep::MAX;
    let mut index_to_ret: Option<ID> = None;
    let n = queue.len();
    let mut i: usize = 0;
    while i < n
        invariant
            n == q.len(),
            q == queue_views(queue@),
            i <= n,
            forall|j: int|
                0 <= j < i && #[trigger] unassigned(q, j) ==> best_priority <= q[j].0.task_deadline,
            match index_to_ret {
                Some(b) => 0 <= b < i && unassigned(q, b as int) && best_priority
                    == q[b as int].0.task_deadline && best_priority < TimeStep::MAX && forall|
                    j: int,
                | 0 <= j < b && #[trigger] unassigned(q, j) ==> q[j].0.task_deadline
                    > best_priority,
                None => best_priority == TimeStep::MAX,
            },
        decreases n - i,
    {
        let (job, id_core) = &queue[i];
        assert(q[i as int] == (job@, *id_core));
        if *id_core != 0 {
            i = i + 1;
            continue;
        }
        let task_priority = job.task_deadline();
        if task_priority < best_priority {
            best_priority = task_priority;
            index_to_ret = Some(i);
        }
        i = i + 1;
    }
    proof {
        if has_urgent_candidate(q) {
            let c = choose|c: int|
                0 <= c < q.len() && #[trigger] unassigned(q, c) && q[c].0.task_deadline
                    < TimeStep::MAX;
            assert(best_priority <= q[c].0.task_deadline);
        }
    }
    index_to_ret
}

} // verus!
