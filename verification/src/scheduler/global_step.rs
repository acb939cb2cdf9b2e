use vstd::prelude::*;

use crate::constants::{TimeStep, ID};
use crate::job::{job_missed, Job, JobView};
use crate::scheduler::global_queue::{queue_views, unassigned};
use crate::scheduler::processor::{core_views, Core, CoreView};
use crate::task::TaskView;

verus! {

/// Why a time step of a global simulation cannot be carried out: the points where the
/// simulation stops short instead of going on.
#[derive(Clone, Copy, Debug, PartialEq, Eq, Structural)]
pub enum StepFault {
    /// A core holding tasks has no queued job to read.
    NoCurrentJob,
    /// A queued job belongs to no task of the set.
    UnknownTask,
    /// A migration count, a clock or a remaining time would leave its integer type.
    Overflow,
}

/// The abstract state of a global simulation: the tasks, the cores and the global queue
/// (each job with the core it runs on, zero for none).
pub struct GlobalState {
    pub tasks: Seq<TaskView>,
    pub cores: Seq<CoreView>,
    pub queue: Seq<(JobView, ID)>,
}

/// Some core holds no task.
pub open spec fn some_core_free(cores: Seq<CoreView>) -> bool {
    exists|i: int| 0 <= i < cores.len() && #[trigger] cores[i].tasks.len() == 0
}

/// Some job on no core has missed its deadline at time `t`.
pub open spec fn unassigned_missed(q: Seq<(JobView, ID)>, t: int) -> bool {
    exists|i: int| 0 <= i < q.len() && #[trigger] unassigned(q, i) && job_missed(q[i].0, t)
}

/// The entry at `i` runs on core `id`.
pub open spec fn on_core(q: Seq<(JobView, ID)>, i: int, id: ID) -> bool {
    q[i].1 == id
}

/// Some entry runs on core `id`.
pub open spec fn has_on_core(q: Seq<(JobView, ID)>, id: ID) -> bool {
    exists|i: int| 0 <= i < q.len() && #[trigger] on_core(q, i, id)
}

/// `i` is the first entry that runs on core `id`.
pub open spec fn is_first_on_core(q: Seq<(JobView, ID)>, i: int, id: ID) -> bool {
    &&& 0 <= i < q.len()
    &&& on_core(q, i, id)
    &&& forall|j: int| 0 <= j < i ==> !#[trigger] on_core(q, j, id)
}

/// The queue with its first entry on core `id`, if there is one, put back on no core.
pub open spec fn release_first_on(q: Seq<(JobView, ID)>, id: ID) -> Seq<(JobView, ID)> {
    if has_on_core(q, id) {
        let i = choose|i: int| is_first_on_core(q, i, id);
        q.update(i, (q[i].0, 0usize))
    } else {
        q
    }
}

/// Whether an entry runs on a core other than `id`.
pub open spec fn off_core(id: ID) -> spec_fn((JobView, ID)) -> bool {
    |p: (JobView, ID)| p.1 != id
}

/// The queue without the entries on core `id`.
pub open spec fn drop_on_core(q: Seq<(JobView, ID)>, id: ID) -> Seq<(JobView, ID)> {
    q.filter(off_core(id))
}

/// The queue with the remaining time of every job on core `id` set to `rem`.
pub open spec fn set_remaining_on(q: Seq<(JobView, ID)>, id: ID, rem: TimeStep) -> Seq<
    (JobView, ID),
> {
    q.map_values(
        |p: (JobView, ID)|
            if p.1 == id {
                (JobView { remaining_time: rem, ..p.0 }, p.1)
            } else {
                p
            },
    )
}

/// The jobs, each on no core.
pub open spec fn on_no_core(jobs: Seq<JobView>) -> Seq<(JobView, ID)> {
    jobs.map_values(|j: JobView| (j, 0usize))
}

/// A table of booleans by its rows.
pub open spec fn table_view(t: Seq<Vec<bool>>) -> Seq<Seq<bool>> {
    t.map_values(|r: Vec<bool>| r@)
}

/// The abstract state made of the tasks, the cores and the queue.
pub open spec fn global_state(tasks: Seq<TaskView>, cores: Seq<CoreView>, queue: Seq<(Job, ID)>) -> GlobalState {
    GlobalState { tasks, cores, queue: queue_views(queue) }
}

/// There is at most one first entry on a core.
pub proof fn lemma_first_on_core_unique(q: Seq<(JobView, ID)>, a: int, b: int, id: ID)
    requires
        is_first_on_core(q, a, id),
        is_first_on_core(q, b, id),
    ensures
        a == b,
{
    if a < b {
        assert(!on_core(q, a, id));
    }
    if b < a {
        assert(!on_core(q, b, id));
    }
}

/// Whether some core holds no task.
pub fn any_core_free(cores: &Vec<Core>) -> (r: bool)
    ensures
        r == some_core_free(core_views(cores@)),
{
    let ghost cv = core_views(cores@);
    let n = cores.len();
    let mut i: usize = 0;
    while i < n
        invariant
            n == cv.len(),
            cv == core_views(cores@),
            i <= n,
            forall|j: int| 0 <= j < i ==> #[trigger] cv[j].tasks.len() > 0,
        decreases n - i,
    {
        assert(cv[i as int] == cores@[i as int]@);
        if !cores[i].is_assigned() {
            assert(cv[i as int].tasks.len() == 0);
            return true;
        }
        i = i + 1;
    }
    false
}

/// Whether some job on no core has missed its deadline at time `t`.
pub fn unassigned_job_missed(queue: &Vec<(Job, ID)>, t: TimeStep) -> (r: bool)
    ensures
        r == unassigned_missed(queue_views(queue@), t as int),
{
    let ghost q = queue_views(queue@);
    let n = queue.len();
    let mut i: usize = 0;
    while i < n
        invariant
            n == q.len(),
            q == queue_views(queue@),
            i <= n,
            forall|j: int| 0 <= j < i ==> !(#[trigger] unassigned(q, j) && job_missed(q[j].0, t as int)),
        decreases n - i,
    {
        let (job, id) = &queue[i];
        assert(q[i as int] == (job@, *id));
        if *id == 0 && job.deadline_missed(t) {
            assert(unassigned(q, i as int));
            return true;
        }
        i = i + 1;
    }
    false
}

/// Whether some entry runs on core `id`.
pub fn any_on_core(queue: &Vec<(Job, ID)>, id: ID) -> (r: bool)
    ensures
        r == has_on_core(queue_views(queue@), id),
{
    let ghost q = queue_views(queue@);
    let n = queue.len();
    let mut i: usize = 0;
    while i < n
        invariant
            n == q.len(),
            q == queue_views(queue@),
            i <= n,
            forall|j: int| 0 <= j < i ==> !#[trigger] on_core(q, j, id),
        decreases n - i,
    {
        assert(q[i as int].1 == queue@[i as int].1);
        if queue[i].1 == id {
            assert(on_core(q, i as int, id));
            return true;
        }
        i = i + 1;
    }
    false
}

/// Puts the first entry on core `id`, if there is one, back on no core.
pub fn release_first_on_core(queue: &mut Vec<(Job, ID)>, id: ID)
    ensures
        queue_views(final(queue)@) == release_first_on(queue_views(old(queue)@), id),
        final(queue)@.len() == old(queue)@.len(),
{
    let ghost q = queue_views(queue@);
    let n = queue.len();
    let mut i: usize = 0;
    while i < n
        invariant
            n == q.len(),
            q == queue_views(queue@),
            q == queue_views(old(queue)@),
            i <= n,
            forall|j: int| 0 <= j < i ==> !#[trigger] on_core(q, j, id),
        decreases n - i,
    {
        assert(q[i as int].1 == queue@[i as int].1);
        if queue[i].1 == id {
            let job = queue[i].0;
            assert(q[i as int].0 == job@);
            proof {
                assert(is_first_on_core(q, i as int, id));
                let c = choose|c: int| is_first_on_core(q, c, id);
                lemma_first_on_core_unique(q, c, i as int, id);
            }
            queue.set(i, (job, 0));
            assert(queue_views(queue@) =~= q.update(i as int, (q[i as int].0, 0usize)));
            assert(has_on_core(q, id));
            assert(release_first_on(q, id) == q.update(i as int, (q[i as int].0, 0usize)));
            return;
        }
        i = i + 1;
    }
    assert(!has_on_core(q, id));
}

/// Takes the entries on core `id` off the queue.
pub fn drop_entries_on_core(queue: &mut Vec<(Job, ID)>, id: ID)
    ensures
        queue_views(final(queue)@) == drop_on_core(queue_views(old(queue)@), id),
{
    let ghost q = queue_views(queue@);
    let mut kept: Vec<(Job, ID)> = Vec::new();
    let n = queue.len();
    let mut i: usize = 0;
    while i < n
        invariant
            n == q.len(),
            q == queue_views(queue@),
            i <= n,
            queue_views(kept@) == drop_on_core(q.take(i as int), id),
        decreases n - i,
    {
        let entry = queue[i];
        assert((entry.0@, entry.1) == q[i as int]);
        assert(q.take(i + 1) =~= q.take(i as int).push(q[i as int]));
        proof {
            q.take(i as int).lemma_filter_push(q[i as int], off_core(id));
        }
        let ghost before = kept@;
        if entry.1 != id {
            kept.push(entry);
            assert(queue_views(kept@) =~= queue_views(before).push(q[i as int]));
        }
        assert(drop_on_core(q.take(i + 1), id) == (if q[i as int].1 != id {
            drop_on_core(q.take(i as int), id).push(q[i as int])
        } else {
            drop_on_core(q.take(i as int), id)
        }));
        i = i + 1;
    }
    assert(q.take(n as int) =~= q);
    *queue = kept;
}

/// Sets the remaining time of every job on core `id` to `rem`.
pub fn set_remaining_on_core(queue: &mut Vec<(Job, ID)>, id: ID, rem: TimeStep)
    ensures
        queue_views(final(queue)@) == set_remaining_on(queue_views(old(queue)@), id, rem),
{
    let ghost q = queue_views(queue@);
    let n = queue.len();
    let mut i: usize = 0;
    while i < n
        invariant
            n == q.len(),
            n == queue@.len(),
            i <= n,
            forall|j: int|
                0 <= j < i ==> #[trigger] queue_views(queue@)[j] == set_remaining_on(q, id, rem)[j],
            forall|j: int| i <= j < n ==> #[trigger] queue_views(queue@)[j] == q[j],
        decreases n - i,
    {
        let (mut job, core) = queue[i];
        assert(queue_views(queue@)[i as int] == q[i as int]);
        assert((job@, core) == q[i as int]);
        let ghost before = queue@;
        if core == id {
            job.set_remaining_time(rem);
            queue.set(i, (job, core));
        }
        assert(queue_views(queue@)[i as int] == set_remaining_on(q, id, rem)[i as int]);
        assert forall|j: int| 0 <= j < n && j != i implies #[trigger] queue_views(queue@)[j]
            == queue_views(before)[j] by {
            assert(queue@[j] == before[j]);
        }
        i = i + 1;
    }
    assert(queue_views(queue@) =~= set_remaining_on(q, id, rem));
}

} // verus!
