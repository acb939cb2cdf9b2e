use std::collections::HashMap;
use vstd::prelude::*;

use crate::constants::{CoreValue, SchedulingCode, TimeStep, ID};
use crate::job::{job_complete, job_missed, Job, JobView};
use crate::migrations::{
    can_count, count_migration, counted, lemma_total_count_zeros, total_count, total_migrations,
};
use crate::scheduler::edf_scheduler::{
    earliest_index, first_earliest, is_first_earliest, job_views, lemma_first_earliest_unique,
};
use crate::task::{Task, TaskView};
use crate::taskset::{
    after_releases, all_spawn_defined, busy_converges_at, busy_period, deadlines_fit_while_checked,
    released_jobs, wcets_within_deadlines, without_id, TaskSet,
};

verus! {

broadcast use vstd::std_specs::hash::group_hash_axioms;

/// The abstract state of a core.
pub struct CoreView {
    pub id: ID,
    pub migrations: Map<ID, usize>,
    pub tasks: Seq<TaskView>,
    pub queue: Seq<JobView>,
    pub current_time: TimeStep,
    pub feasibility_interval: Option<TimeStep>,
}

/// Some task has identifier `id`.
pub open spec fn has_task(tasks: Seq<TaskView>, id: ID) -> bool {
    exists|i: int| 0 <= i < tasks.len() && #[trigger] tasks[i].id == id
}

/// A count of zero migrations for each task identifier present.
pub open spec fn zero_counts(tasks: Seq<TaskView>) -> Map<ID, usize> {
    Map::new(|k: ID| has_task(tasks, k), |k: ID| 0usize)
}

/// The sum of the remaining execution times of the jobs.
pub open spec fn remaining_sum(q: Seq<JobView>) -> int
    decreases q.len(),
{
    if q.len() == 0 {
        0
    } else {
        remaining_sum(q.drop_last()) + q.last().remaining_time
    }
}

/// Some job of the queue belongs to a task whose identifier is below `k`.
pub open spec fn has_priority_job(q: Seq<JobView>, k: int) -> bool {
    exists|i: int| 0 <= i < q.len() && #[trigger] q[i].task_id < k
}

/// `i` is the first position of a job with the smallest task identifier among the jobs
/// of tasks below `k`.
pub open spec fn is_first_priority_job(q: Seq<JobView>, k: int, i: int) -> bool {
    &&& 0 <= i < q.len()
    &&& q[i].task_id < k
    &&& forall|j: int| 0 <= j < q.len() && #[trigger] q[j].task_id < k ==> q[i].task_id <= q[j].task_id
    &&& forall|j: int| 0 <= j < i ==> #[trigger] q[j].task_id >= k || q[j].task_id > q[i].task_id
}

/// What `Core::schedule(k)` elects: if some job belongs to a task below `k`, the job
/// identifier of the first such job with the smallest task identifier; otherwise the
/// position of the first job with the earliest shown deadline; nothing for no job.
pub open spec fn core_choice(q: Seq<JobView>, k: int) -> Option<ID> {
    if has_priority_job(q, k) {
        Some(q[choose|i: int| is_first_priority_job(q, k, i)].id)
    } else if q.len() == 0 {
        None
    } else {
        Some(first_earliest(q) as ID)
    }
}

/// The queue after the elected position, if it holds a job, runs for one time unit.
pub open spec fn run_choice(q: Seq<JobView>, choice: Option<ID>) -> Seq<JobView> {
    match choice {
        Some(i) => if i < q.len() {
            q.update(
                i as int,
                JobView { remaining_time: (q[i as int].remaining_time - 1) as TimeStep, ..q[i as int] },
            )
        } else {
            q
        },
        None => q,
    }
}

/// Running the elected job, if any, stays within `TimeStep`.
pub open spec fn run_choice_defined(q: Seq<JobView>, choice: Option<ID>) -> bool {
    match choice {
        Some(i) => i < q.len() ==> q[i as int].remaining_time > TimeStep::MIN,
        None => true,
    }
}

/// The queue without its complete jobs.
pub open spec fn drop_complete(q: Seq<JobView>) -> Seq<JobView> {
    q.filter(|j: JobView| !job_complete(j))
}

/// The queue without the jobs of task `id`.
pub open spec fn drop_task_jobs(q: Seq<JobView>, id: ID) -> Seq<JobView> {
    q.filter(|j: JobView| j.task_id != id)
}

/// Some job of the queue has missed its deadline at time `t`.
pub open spec fn any_missed(q: Seq<JobView>, t: int) -> bool {
    exists|i: int| 0 <= i < q.len() && #[trigger] job_missed(q[i], t)
}

/// The outcome of simulating earliest-deadline-first on one processor from time `t`
/// to `end`: at each step the tasks release their jobs; if a job has then missed its
/// deadline the simulation stops as unschedulable; otherwise the job elected by
/// `core_choice(_, 1)` runs for one unit, complete jobs leave, and time moves on. The
/// verdict comes with the tasks, the queue and the time the simulation ends with.
pub open spec fn edf_run(tasks: Seq<TaskView>, queue: Seq<JobView>, t: int, end: int) -> (
    SchedulingCode,
    Seq<TaskView>,
    Seq<JobView>,
    int,
)
    decreases end - t,
{
    if t >= end {
        (SchedulingCode::SchedulableSimulated, tasks, queue, t)
    } else {
        let q1 = queue + released_jobs(tasks, t);
        let tasks1 = after_releases(tasks, t);
        if any_missed(q1, t) {
            (SchedulingCode::UnschedulableSimulated, tasks1, q1, t)
        } else {
            edf_run(tasks1, drop_complete(run_choice(q1, core_choice(q1, 1))), t + 1, end)
        }
    }
}

/// The simulation of `edf_run` computes without overflow or division by zero.
pub open spec fn edf_run_defined(tasks: Seq<TaskView>, queue: Seq<JobView>, t: int, end: int) -> bool
    decreases end - t,
{
    if t >= end {
        true
    } else {
        let q1 = queue + released_jobs(tasks, t);
        let tasks1 = after_releases(tasks, t);
        &&& all_spawn_defined(tasks, t)
        &&& (any_missed(q1, t) || (run_choice_defined(q1, core_choice(q1, 1)) && edf_run_defined(
            tasks1,
            drop_complete(run_choice(q1, core_choice(q1, 1))),
            t + 1,
            end,
        )))
    }
}

/// Every partial sum of the remaining execution times, from the front, fits in a
/// `TimeStep`.
pub open spec fn sums_fit(q: Seq<JobView>) -> bool {
    forall|i: int|
        0 <= i <= q.len() ==> TimeStep::MIN <= #[trigger] remaining_sum(q.take(i)) <= TimeStep::MAX
}

/// The core after `remove(id)`: without the tasks and queued jobs of `id`, with the
/// migration counted, if it holds such a task; unchanged otherwise.
pub open spec fn core_removed(c: CoreView, id: ID) -> CoreView {
    if has_task(c.tasks, id) {
        CoreView {
            migrations: counted(c.migrations, id),
            tasks: without_id(c.tasks, id),
            queue: drop_task_jobs(c.queue, id),
            ..c
        }
    } else {
        c
    }
}

/// `remove(id)` counts its migration within `usize`.
pub open spec fn remove_defined(c: CoreView, id: ID) -> bool {
    has_task(c.tasks, id) ==> can_count(c.migrations, id)
}

/// The core after `add_job(job, task, fits)`, and whether it took the task: the queue
/// is `job` alone; the task joins, with its migration counted, when the core has no task
/// of its identifier and `fits` holds.
pub open spec fn core_with_job(c: CoreView, job: JobView, task: TaskView, fits: bool) -> (
    CoreView,
    bool,
) {
    let added = !has_task(c.tasks, task.id) && fits;
    (
        CoreView {
            queue: seq![job],
            tasks: if added {
                c.tasks.push(task)
            } else {
                c.tasks
            },
            migrations: if added {
                counted(c.migrations, task.id)
            } else {
                c.migrations
            },
            ..c
        },
        added,
    )
}

/// `add_job(_, task, fits)` counts its migration within `usize`.
pub open spec fn add_defined(c: CoreView, task: TaskView, fits: bool) -> bool {
    !has_task(c.tasks, task.id) && fits ==> can_count(c.migrations, task.id)
}

/// The core after `simulate_step`, and what it reports: `Missed` if a queued job has
/// missed its deadline; otherwise the first job runs one unit and, if it completes, the
/// core drops its tasks and queue and reports `Complete`; the clock moves on by one.
pub open spec fn core_stepped(c: CoreView) -> (CoreView, CoreValue) {
    let later = (c.current_time + 1) as TimeStep;
    if any_missed(c.queue, c.current_time as int) {
        (CoreView { current_time: later, ..c }, CoreValue::Missed)
    } else if c.queue.len() == 0 {
        (CoreView { current_time: later, ..c }, CoreValue::Running)
    } else if c.queue[0].remaining_time - 1 == 0 {
        (
            CoreView { tasks: Seq::empty(), queue: Seq::empty(), current_time: later, ..c },
            CoreValue::Complete,
        )
    } else {
        (
            CoreView {
                queue: c.queue.update(
                    0,
                    JobView { remaining_time: (c.queue[0].remaining_time - 1) as TimeStep, ..c.queue[0] },
                ),
                current_time: later,
                ..c
            },
            CoreValue::Running,
        )
    }
}

/// `simulate_step` moves the clock and runs the first job within `TimeStep`.
pub open spec fn step_defined(c: CoreView) -> bool {
    &&& c.current_time < TimeStep::MAX
    &&& !any_missed(c.queue, c.current_time as int) && c.queue.len() > 0
        ==> c.queue[0].remaining_time > TimeStep::MIN
}

/// Whether some job has missed its deadline at time `t`.
fn any_job_missed(queue: &Vec<Job>, t: TimeStep) -> (r: bool)
    ensures
        r == any_missed(job_views(queue@), t as int),
{
    let ghost q = job_views(queue@);
    let n = queue.len();
    let mut i: usize = 0;
    while i < n
        invariant
            n == q.len(),
            q == job_views(queue@),
            i <= n,
            forall|j: int| 0 <= j < i ==> !#[trigger] job_missed(q[j], t as int),
        decreases n - i,
    {
        if queue[i].deadline_missed(t) {
            assert(job_missed(q[i as int], t as int));
            return true;
        }
        i = i + 1;
    }
    false
}

/// The jobs that still have work, in order.
fn keep_incomplete(queue: &Vec<Job>) -> (r: Vec<Job>)
    ensures
        job_views(r@) == drop_complete(job_views(queue@)),
{
    let ghost q = job_views(queue@);
    let mut kept: Vec<Job> = Vec::new();
    let n = queue.len();
    let mut i: usize = 0;
    while i < n
        invariant
            n == q.len(),
            q == job_views(queue@),
            i <= n,
            job_views(kept@) == drop_complete(q.take(i as int)),
        decreases n - i,
    {
        let j = queue[i];
        assert(j@ == q[i as int]);
        assert(q.take(i + 1) =~= q.take(i as int).push(j@));
        proof {
            q.take(i as int).lemma_filter_push(j@, |x: JobView| !job_complete(x));
        }
        let ghost before = kept@;
        if !j.is_complete() {
            kept.push(j);
            assert(job_views(kept@) =~= job_views(before).push(j@));
        }
        i = i + 1;
    }
    assert(q.take(n as int) =~= q);
    kept
}

/// The queue after the job at position `i` runs for one time unit.
pub open spec fn run_at(q: Seq<JobView>, i: int) -> Seq<JobView> {
    q.update(i, JobView { remaining_time: (q[i].remaining_time - 1) as TimeStep, ..q[i] })
}

/// Every non-empty queue has a first position holding a job with the smallest shown
/// deadline.
pub proof fn lemma_first_earliest_exists(q: Seq<JobView>)
    requires
        q.len() > 0,
    ensures
        exists|i: int| is_first_earliest(q, i),
    decreases q.len(),
{
    if q.len() == 1 {
        assert(is_first_earliest(q, 0));
    } else {
        let p = q.drop_last();
        lemma_first_earliest_exists(p);
        let i = choose|i: int| is_first_earliest(p, i);
        let last = q.len() - 1;
        if q[last].show_absolute_deadline < p[i].show_absolute_deadline {
            assert forall|j: int| 0 <= j < last implies #[trigger] q[j].show_absolute_deadline
                > q[last].show_absolute_deadline by {
                assert(q[j] == p[j]);
                assert(p[i].show_absolute_deadline <= p[j].show_absolute_deadline);
            }
            assert(is_first_earliest(q, last));
        } else {
            assert forall|j: int| 0 <= j < q.len() implies q[i].show_absolute_deadline
                <= #[trigger] q[j].show_absolute_deadline by {
                if j < last {
                    assert(q[j] == p[j]);
                    assert(p[i].show_absolute_deadline <= p[j].show_absolute_deadline);
                }
            }
            assert forall|j: int| 0 <= j < i implies #[trigger] q[j].show_absolute_deadline
                > q[i].show_absolute_deadline by {
                assert(q[j] == p[j]);
                assert(p[j].show_absolute_deadline > p[i].show_absolute_deadline);
            }
            assert(is_first_earliest(q, i));
        }
    }
}

/// Earliest-deadline-first on one processor: at each step of the simulation that finds
/// no missed deadline, the tasks release their jobs and, when no queued job belongs to
/// task 0 (tasks are numbered from one), the job that runs for one unit is the first
/// queued job with the smallest shown deadline; the completed jobs then leave and the
/// simulation goes on from the next time step. An empty queue just moves the time on.
pub proof fn lemma_edf_run_runs_earliest(tasks: Seq<TaskView>, queue: Seq<JobView>, t: int, end: int)
    requires
        t < end,
        !any_missed(queue + released_jobs(tasks, t), t),
    ensures
        ({
            let q1 = queue + released_jobs(tasks, t);
            let next = after_releases(tasks, t);
            &&& q1.len() == 0 ==> edf_run(tasks, queue, t, end) == edf_run(next, q1, t + 1, end)
            &&& q1.len() > 0 && q1.len() <= usize::MAX && (forall|j: int|
                0 <= j < q1.len() ==> #[trigger] q1[j].task_id >= 1) ==> exists|i: int|
                is_first_earliest(q1, i) && edf_run(tasks, queue, t, end) == edf_run(
                    next,
                    drop_complete(run_at(q1, i)),
                    t + 1,
                    end,
                )
        }),
{
    let q1 = queue + released_jobs(tasks, t);
    let next = after_releases(tasks, t);
    if q1.len() == 0 {
        assert(!has_priority_job(q1, 1));
        assert(core_choice(q1, 1) is None);
        assert(drop_complete(q1) =~= q1);
    } else if q1.len() <= usize::MAX && (forall|j: int| 0 <= j < q1.len() ==> #[trigger] q1[j].task_id
        >= 1) {
        assert(!has_priority_job(q1, 1)) by {
            if has_priority_job(q1, 1) {
                let j = choose|j: int| 0 <= j < q1.len() && #[trigger] q1[j].task_id < 1;
                assert(q1[j].task_id >= 1);
            }
        }
        lemma_first_earliest_exists(q1);
        let i = choose|i: int| is_first_earliest(q1, i);
        lemma_first_earliest_unique(q1, i);
        assert(core_choice(q1, 1) == Some(i as ID));
        assert(run_choice(q1, core_choice(q1, 1)) == run_at(q1, i));
    }
}

/// A simulation only ever gives a simulated verdict. An unschedulable verdict comes
/// with a job that has missed its deadline in the final queue at the final time,
/// before the end of the interval; a schedulable verdict means the whole interval was
/// simulated.
pub proof fn lemma_edf_run_verdict(tasks: Seq<TaskView>, queue: Seq<JobView>, t: int, end: int)
    ensures
        ({
            let run = edf_run(tasks, queue, t, end);
            &&& run.0 == SchedulingCode::SchedulableSimulated || run.0
                == SchedulingCode::UnschedulableSimulated
            &&& run.0 == SchedulingCode::UnschedulableSimulated ==> any_missed(run.2, run.3) && t
                <= run.3 < end
            &&& run.0 == SchedulingCode::SchedulableSimulated ==> run.3 == (if t >= end {
                t
            } else {
                end
            })
        }),
    decreases end - t,
{
    if t < end {
        let q1 = queue + released_jobs(tasks, t);
        let tasks1 = after_releases(tasks, t);
        if !any_missed(q1, t) {
            lemma_edf_run_verdict(
                tasks1,
                drop_complete(run_choice(q1, core_choice(q1, 1))),
                t + 1,
                end,
            );
        }
    }
}

/// A processor core: the tasks assigned to it, the queue of their pending jobs, its
/// clock, and how often each task migrated onto or off it.
#[derive(Clone, Debug)]
pub struct Core {
    id: ID,
    map_migrations: HashMap<ID, usize>,
    task_set: TaskSet,
    queue: Vec<Job>,
    current_time: TimeStep,
    feasibility_interval: Option<TimeStep>,
}

impl View for Core {
    type V = CoreView;

    closed spec fn view(&self) -> CoreView {
        CoreView {
            id: self.id,
            migrations: self.map_migrations@,
            tasks: self.task_set@,
            queue: job_views(self.queue@),
            current_time: self.current_time,
            feasibility_interval: self.feasibility_interval,
        }
    }
}

impl Core {
    /// A core with no task, no job and no migration, at time zero.
    pub fn new(id: ID) -> (r: Self)
        ensures
            r@ == (CoreView {
                id,
                migrations: Map::empty(),
                tasks: Seq::empty(),
                queue: Seq::empty(),
                current_time: 0,
                feasibility_interval: None,
            }),
    {
        let r = Self {
            id,
            map_migrations: HashMap::new(),
            task_set: TaskSet::new_empty(),
            queue: Vec::new(),
            current_time: 0,
            feasibility_interval: None,
        };
        assert(job_views(r.queue@) =~= Seq::<JobView>::empty());
        r
    }

    /// A core holding `task_set`, with a count of zero migrations for each of its tasks.
    pub fn new_task_set(id: ID, task_set: TaskSet) -> (r: Self)
        ensures
            r@ == (CoreView {
                id,
                migrations: zero_counts(task_set@),
                tasks: task_set@,
                queue: Seq::empty(),
                current_time: 0,
                feasibility_interval: None,
            }),
    {
        let mut map_migrations: HashMap<ID, usize> = HashMap::new();
        let n = task_set.len();
        let mut i: usize = 0;
        while i < n
            invariant
                n == task_set@.len(),
                i <= n,
                map_migrations@ == zero_counts(task_set@.take(i as int)),
            decreases n - i,
        {
            let t = task_set.get_task_by_index(i).unwrap();
            let id_i = t.id();
            map_migrations.insert(id_i, 0);
            assert(map_migrations@ =~= zero_counts(task_set@.take(i + 1))) by {
                assert forall|k: ID| has_task(task_set@.take(i + 1), k) <==> (has_task(
                    task_set@.take(i as int),
                    k,
                ) || k == id_i) by {
                    if k == id_i {
                        assert(task_set@.take(i + 1)[i as int].id == k);
                    }
                    if has_task(task_set@.take(i + 1), k) && k != id_i {
                        let j = choose|j: int|
                            0 <= j < i + 1 && #[trigger] task_set@.take(i + 1)[j].id == k;
                        assert(task_set@.take(i as int)[j].id == k);
                    }
                    if has_task(task_set@.take(i as int), k) {
                        let j = choose|j: int|
                            0 <= j < i && #[trigger] task_set@.take(i as int)[j].id == k;
                        assert(task_set@.take(i + 1)[j].id == k);
                    }
                }
            }
            i = i + 1;
        }
        assert(task_set@.take(n as int) =~= task_set@);
        let r = Self {
            id,
            map_migrations,
            task_set,
            queue: Vec::new(),
            current_time: 0,
            feasibility_interval: None,
        };
        assert(job_views(r.queue@) =~= Seq::<JobView>::empty());
        r
    }

    /// Whether some task is assigned to the core.
    pub fn is_assigned(&self) -> (r: bool)
        ensures
            r == (self@.tasks.len() > 0),
    {
        !self.task_set.is_empty()
    }

    /// The total remaining execution time of the queued jobs.
    pub fn get_remaining_time(&self) -> (r: TimeStep)
        requires
            forall|i: int|
                0 <= i <= self@.queue.len() ==> TimeStep::MIN <= #[trigger] remaining_sum(
                    self@.queue.take(i),
                ) <= TimeStep::MAX,
        ensures
            r == remaining_sum(self@.queue),
    {
        let ghost q = self@.queue;
        let n = self.queue.len();
        let mut sum: TimeStep = 0;
        let mut i: usize = 0;
        while i < n
            invariant
                n == q.len(),
                q == job_views(self.queue@),
                i <= n,
                forall|j: int|
                    0 <= j <= q.len() ==> TimeStep::MIN <= #[trigger] remaining_sum(q.take(j))
                        <= TimeStep::MAX,
                sum == remaining_sum(q.take(i as int)),
            decreases n - i,
        {
            assert(q.take(i + 1).drop_last() =~= q.take(i as int));
            assert(q.take(i + 1).last() == q[i as int]);
            assert(TimeStep::MIN <= remaining_sum(q.take(i + 1)) <= TimeStep::MAX);
            sum = sum + self.queue[i].remaining_time();
            i = i + 1;
        }
        assert(q.take(n as int) =~= q);
        sum
    }

    /// Assigns `task` to the core unless a task with its identifier is already assigned
    /// or the core's utilisation budget does not admit it (`fits`, which the caller
    /// computes from the budget and the task's utilisation); on success the task's
    /// migration is counted. Returns whether the task was assigned.
    pub fn add(&mut self, task: Task, fits: bool) -> (r: bool)
        requires
            !has_task(old(self)@.tasks, task@.id) && fits ==> can_count(
                old(self)@.migrations,
                task@.id,
            ),
        ensures
            r == (!has_task(old(self)@.tasks, task@.id) && fits),
            r ==> final(self)@ == (CoreView {
                migrations: counted(old(self)@.migrations, task@.id),
                tasks: old(self)@.tasks.push(task@),
                ..old(self)@
            }),
            !r ==> final(self)@ == old(self)@,
    {
        if self.task_set.task_exists(task.id()) {
            return false;
        }
        if !fits {
            return false;
        }
        self.migrate(task.id());
        self.task_set.add_task(task);
        true
    }

    /// Replaces the queue by `job` alone, then tries to assign `task` as `add` does.
    /// Returns whether the task was assigned.
    pub fn add_job(&mut self, job: Job, task: Task, fits: bool) -> (r: bool)
        requires
            !has_task(old(self)@.tasks, task@.id) && fits ==> can_count(
                old(self)@.migrations,
                task@.id,
            ),
        ensures
            r == (!has_task(old(self)@.tasks, task@.id) && fits),
            final(self)@.queue == seq![job@],
            r ==> final(self)@.tasks == old(self)@.tasks.push(task@) && final(self)@.migrations
                == counted(old(self)@.migrations, task@.id),
            !r ==> final(self)@.tasks == old(self)@.tasks && final(self)@.migrations == old(
                self,
            )@.migrations,
            final(self)@.id == old(self)@.id,
            final(self)@.current_time == old(self)@.current_time,
            final(self)@.feasibility_interval == old(self)@.feasibility_interval,
    {
        self.queue.clear();
        self.queue.push(job);
        assert(job_views(self.queue@) =~= seq![job@]);
        self.add(task, fits)
    }

    /// The identifier of the first assigned task, if any.
    pub fn get_current_task_id(&self) -> (r: Option<ID>)
        ensures
            self@.tasks.len() == 0 ==> r is None,
            self@.tasks.len() > 0 ==> r == Some(self@.tasks[0].id),
    {
        self.task_set.get_first_task_id()
    }

    /// The shown deadline of the first queued job, when a task is assigned.
    pub fn current_job_deadline(&self) -> (r: Option<TimeStep>)
        requires
            self@.tasks.len() > 0 ==> self@.queue.len() > 0,
        ensures
            self@.tasks.len() == 0 ==> r is None,
            self@.tasks.len() > 0 ==> r == Some(self@.queue[0].show_absolute_deadline),
    {
        if self.task_set.is_empty() {
            return None;
        }
        Some(self.queue[0].absolute_deadline())
    }

    /// Whether the first queued job carries the "always first" mark, when a task is
    /// assigned.
    pub fn current_job_is_inf(&self) -> (r: Option<bool>)
        requires
            self@.tasks.len() > 0 ==> self@.queue.len() > 0,
        ensures
            self@.tasks.len() == 0 ==> r is None,
            self@.tasks.len() > 0 ==> r == Some(
                self@.queue[0].show_absolute_deadline == TimeStep::MIN,
            ),
    {
        if self.task_set.is_empty() {
            return None;
        }
        Some(self.queue[0].is_deadline_inf())
    }

    /// Takes the task `task_id` off the core, with its queued jobs, and counts the
    /// migration; does nothing if no such task is assigned.
    pub fn remove(&mut self, task_id: ID)
        requires
            has_task(old(self)@.tasks, task_id) ==> can_count(old(self)@.migrations, task_id),
        ensures
            has_task(old(self)@.tasks, task_id) ==> final(self)@ == (CoreView {
                migrations: counted(old(self)@.migrations, task_id),
                tasks: without_id(old(self)@.tasks, task_id),
                queue: drop_task_jobs(old(self)@.queue, task_id),
                ..old(self)@
            }),
            !has_task(old(self)@.tasks, task_id) ==> final(self)@ == old(self)@,
    {
        if !self.task_set.task_exists(task_id) {
            return;
        }
        self.task_set.retain_not(task_id);
        let ghost q = self@.queue;
        let mut kept: Vec<Job> = Vec::new();
        let n = self.queue.len();
        let mut i: usize = 0;
        while i < n
            invariant
                n == q.len(),
                q == job_views(self.queue@),
                i <= n,
                job_views(kept@) == drop_task_jobs(q.take(i as int), task_id),
            decreases n - i,
        {
            let j = self.queue[i];
            assert(j@ == q[i as int]);
            assert(q.take(i + 1) =~= q.take(i as int).push(j@));
            proof {
                q.take(i as int).lemma_filter_push(j@, |x: JobView| x.task_id != task_id);
            }
            let ghost before = kept@;
            if j.task_id() != task_id {
                kept.push(j);
                assert(job_views(kept@) =~= job_views(before).push(j@));
            }
            i = i + 1;
        }
        assert(q.take(n as int) =~= q);
        self.queue = kept;
        self.migrate(task_id);
    }

    /// Counts one more migration of `task_id`, starting from one when it has none.
    pub fn migrate(&mut self, task_id: ID)
        requires
            can_count(old(self)@.migrations, task_id),
        ensures
            final(self)@ == (CoreView {
                migrations: counted(old(self)@.migrations, task_id),
                ..old(self)@
            }),
    {
        count_migration(&mut self.map_migrations, task_id);
    }

    /// The number of migrations counted over all tasks.
    pub fn get_migrations(&self) -> (r: usize)
        requires
            total_count(self@.migrations) <= usize::MAX,
        ensures
            r == total_count(self@.migrations),
    {
        total_migrations(&self.map_migrations)
    }

    pub fn id(&self) -> (r: ID)
        ensures
            r == self@.id,
    {
        self.id
    }

    /// Elects the next job: if some queued job belongs to a task whose identifier is
    /// below `k`, the job identifier of the first such job with the smallest task
    /// identifier; otherwise the position of the first job with the earliest shown
    /// deadline; `None` for an empty queue.
    pub fn schedule(&self, k: usize) -> (r: Option<ID>)
        ensures
            r == core_choice(self@.queue, k as int),
    {
        let ghost q = self@.queue;
        let n = self.queue.len();
        let mut best: Option<usize> = None;
        let mut i: usize = 0;
        while i < n
            invariant
                n == q.len(),
                q == job_views(self.queue@),
                i <= n,
                match best {
                    Some(b) => is_first_priority_job(q.take(i as int), k as int, b as int),
                    None => !has_priority_job(q.take(i as int), k as int),
                },
            decreases n - i,
        {
            let tid = self.queue[i].task_id();
            let ghost qi = q.take(i as int);
            let ghost qn = q.take(i + 1);
            assert(qn[i as int] == q[i as int]);
            assert forall|j: int| 0 <= j < i implies #[trigger] qn[j] == qi[j] by {}
            if tid < k {
                match best {
                    Some(b) => {
                        if tid < self.queue[b].task_id() {
                            best = Some(i);
                        }
                    },
                    None => {
                        best = Some(i);
                    },
                }
            }
            i = i + 1;
        }
        assert(q.take(n as int) =~= q);
        match best {
            Some(b) => {
                proof {
                    let c = choose|c: int| is_first_priority_job(q, k as int, c);
                    assert(is_first_priority_job(q, k as int, c));
                    if c < b {
                        assert(q[c].task_id >= k || q[c].task_id > q[b as int].task_id);
                    } else if b < c {
                        assert(q[b as int].task_id >= k || q[b as int].task_id > q[c].task_id);
                    }
                }
                Some(self.queue[b].id())
            },
            None => {
                if self.queue.len() == 0 {
                    return None;
                }
                earliest_index(&self.queue)
            },
        }
    }

    /// The verdicts that need no simulation: an empty core is schedulable; a core whose
    /// tasks fail the feasibility condition (`utilisation_at_most_one` and every task's
    /// work within its deadline) is not; otherwise `None`.
    pub fn test_shortcuts(&self, utilisation_at_most_one: bool) -> (r: Option<SchedulingCode>)
        requires
            self@.tasks.len() > 0 && utilisation_at_most_one ==> deadlines_fit_while_checked(
                self@.tasks,
            ),
        ensures
            self@.tasks.len() == 0 ==> r == Some(SchedulingCode::SchedulableShortcut),
            self@.tasks.len() > 0 && !(utilisation_at_most_one && wcets_within_deadlines(
                self@.tasks,
            )) ==> r == Some(SchedulingCode::UnschedulableShortcut),
            self@.tasks.len() > 0 && utilisation_at_most_one && wcets_within_deadlines(self@.tasks)
                ==> r is None,
    {
        if self.task_set.is_empty() {
            return Some(SchedulingCode::SchedulableShortcut);
        }
        if !self.task_set.is_feasible(utilisation_at_most_one) {
            return Some(SchedulingCode::UnschedulableShortcut);
        }
        None
    }

    /// Sets the feasibility interval to the length of the first busy period of the tasks.
    pub fn set_feasibility_interval(&mut self)
        requires
            exists|n: nat| busy_converges_at(old(self)@.tasks, n),
        ensures
            final(self)@.feasibility_interval is Some,
            final(self)@.feasibility_interval->0 == busy_period(old(self)@.tasks),
            final(self)@ == (CoreView {
                feasibility_interval: final(self)@.feasibility_interval,
                ..old(self)@
            }),
    {
        self.feasibility_interval = Some(self.task_set.feasibility_interval_part().1);
    }

    /// Decides the schedulability of the core's tasks on their own processor: first the
    /// shortcuts of `test_shortcuts`; otherwise it sets the feasibility interval to the
    /// first busy period and simulates earliest-deadline-first up to it (see `edf_run`).
    pub fn simulate_partitionned(&mut self, utilisation_at_most_one: bool) -> (r: SchedulingCode)
        requires
            old(self)@.tasks.len() > 0 && utilisation_at_most_one ==> deadlines_fit_while_checked(
                old(self)@.tasks,
            ),
            old(self)@.tasks.len() > 0 && utilisation_at_most_one && wcets_within_deadlines(
                old(self)@.tasks,
            ) ==> (exists|n: nat| busy_converges_at(old(self)@.tasks, n)) && edf_run_defined(
                old(self)@.tasks,
                old(self)@.queue,
                old(self)@.current_time as int,
                busy_period(old(self)@.tasks),
            ),
        ensures
            old(self)@.tasks.len() == 0 ==> r == SchedulingCode::SchedulableShortcut && final(self)@
                == old(self)@,
            old(self)@.tasks.len() > 0 && !(utilisation_at_most_one && wcets_within_deadlines(
                old(self)@.tasks,
            )) ==> r == SchedulingCode::UnschedulableShortcut && final(self)@ == old(self)@,
            old(self)@.tasks.len() > 0 && utilisation_at_most_one && wcets_within_deadlines(
                old(self)@.tasks,
            ) ==> ({
                let run = edf_run(
                    old(self)@.tasks,
                    old(self)@.queue,
                    old(self)@.current_time as int,
                    busy_period(old(self)@.tasks),
                );
                &&& r == run.0
                &&& final(self)@.tasks == run.1
                &&& final(self)@.queue == run.2
                &&& final(self)@.current_time == run.3
                &&& final(self)@.feasibility_interval is Some
                &&& final(self)@.feasibility_interval->0 == busy_period(old(self)@.tasks)
                &&& final(self)@.id == old(self)@.id
                &&& final(self)@.migrations == old(self)@.migrations
            }),
    {
        if let Some(result_shortcut) = self.test_shortcuts(utilisation_at_most_one) {
            return result_shortcut;
        }
        self.set_feasibility_interval();
        let end = self.feasibility_interval.unwrap();
        let ghost target = edf_run(
            old(self)@.tasks,
            old(self)@.queue,
            old(self)@.current_time as int,
            end as int,
        );
        let ghost id0 = self@.id;
        let ghost migrations0 = self@.migrations;
        while self.current_time < end
            invariant
                old(self)@.tasks.len() > 0,
                utilisation_at_most_one,
                wcets_within_deadlines(old(self)@.tasks),
                end as int == busy_period(old(self)@.tasks),
                target == edf_run(
                    old(self)@.tasks,
                    old(self)@.queue,
                    old(self)@.current_time as int,
                    end as int,
                ),
                self@.feasibility_interval == Some(end),
                self@.id == id0,
                id0 == old(self)@.id,
                self@.migrations == migrations0,
                migrations0 == old(self)@.migrations,
                edf_run(self@.tasks, self@.queue, self@.current_time as int, end as int) == target,
                edf_run_defined(self@.tasks, self@.queue, self@.current_time as int, end as int),
            decreases end - self.current_time,
        {
            let ghost t = self.current_time as int;
            let ghost q0 = self@.queue;
            let ghost tasks0 = self@.tasks;
            let mut released = self.task_set.release_jobs(self.current_time);
            let ghost rel = released@;
            self.queue.append(&mut released);
            assert(job_views(self.queue@) =~= q0 + released_jobs(tasks0, t));
            if any_job_missed(&self.queue, self.current_time) {
                assert(edf_run(tasks0, q0, t, end as int) == (
                    SchedulingCode::UnschedulableSimulated,
                    self@.tasks,
                    self@.queue,
                    t,
                ));
                assert(target.0 == SchedulingCode::UnschedulableSimulated);
                assert(target.1 == self@.tasks);
                assert(target.2 == self@.queue);
                assert(target.3 == self@.current_time);
                return SchedulingCode::UnschedulableSimulated;
            }
            let ghost q1 = self@.queue;
            let choice = self.schedule(1);
            if let Some(index_elected) = choice {
                if index_elected < self.queue.len() {
                    let mut elected = self.queue[index_elected];
                    assert(elected@ == q1[index_elected as int]);
                    elected.schedule();
                    self.queue.set(index_elected, elected);
                }
            }
            assert(job_views(self.queue@) =~= run_choice(q1, core_choice(q1, 1)));
            self.queue = keep_incomplete(&self.queue);
            self.current_time = self.current_time + 1;
        }
        SchedulingCode::SchedulableSimulated
    }

    /// Simulates one time step of the core: if a queued job has missed its deadline the
    /// core reports `Missed`; otherwise the first queued job, if any, runs for one unit,
    /// and when it completes the core drops its tasks and queue and reports `Complete`.
    /// The clock moves on by one in every case.
    pub fn simulate_step(&mut self, k: usize) -> (r: CoreValue)
        requires
            old(self)@.current_time < TimeStep::MAX,
            !any_missed(old(self)@.queue, old(self)@.current_time as int) && old(self)@.queue.len()
                > 0 ==> old(self)@.queue[0].remaining_time > TimeStep::MIN,
        ensures
            ({
                let o = old(self)@;
                let later = (o.current_time + 1) as TimeStep;
                if any_missed(o.queue, o.current_time as int) {
                    r == CoreValue::Missed && final(self)@ == (CoreView { current_time: later, ..o })
                } else if o.queue.len() == 0 {
                    r == CoreValue::Running && final(self)@ == (CoreView { current_time: later, ..o })
                } else if o.queue[0].remaining_time - 1 == 0 {
                    r == CoreValue::Complete && final(self)@ == (CoreView {
                        tasks: Seq::empty(),
                        queue: Seq::empty(),
                        current_time: later,
                        ..o
                    })
                } else {
                    r == CoreValue::Running && final(self)@ == (CoreView {
                        queue: o.queue.update(
                            0,
                            JobView {
                                remaining_time: (o.queue[0].remaining_time - 1) as TimeStep,
                                ..o.queue[0]
                            },
                        ),
                        current_time: later,
                        ..o
                    })
                }
            }),
    {
        let mut result = CoreValue::Running;
        if any_job_missed(&self.queue, self.current_time) {
            result = CoreValue::Missed;
        } else {
            if self.queue.len() > 0 {
                let mut job = self.queue[0];
                job.schedule();
                self.queue.set(0, job);
                if job.is_complete() {
                    self.task_set.get_tasks_mut().clear();
                    self.queue.clear();
                    result = CoreValue::Complete;
                    assert(job_views(self.queue@) =~= Seq::<JobView>::empty());
                    assert(self@.tasks =~= Seq::<TaskView>::empty());
                } else {
                    assert(job_views(self.queue@) =~= old(self)@.queue.update(0, job@));
                }
            }
        }
        self.current_time = self.current_time + 1;
        result
    }

    /// Whether one more migration of `task_id` can be counted within `usize`.
    pub fn can_count_migration(&self, task_id: ID) -> (r: bool)
        ensures
            r == can_count(self@.migrations, task_id),
    {
        match self.map_migrations.get(&task_id) {
            Some(v) => *v < usize::MAX,
            None => true,
        }
    }

    /// The total remaining execution time of the queued jobs, when every partial sum from
    /// the front fits in a `TimeStep`; `None` otherwise.
    pub fn checked_remaining_time(&self) -> (r: Option<TimeStep>)
        ensures
            r is Some <==> sums_fit(self@.queue),
            r is Some ==> r->0 == remaining_sum(self@.queue),
    {
        let ghost q = self@.queue;
        let n = self.queue.len();
        let mut sum: TimeStep = 0;
        let mut i: usize = 0;
        assert(q.take(0) =~= Seq::<JobView>::empty());
        while i < n
            invariant
                n == q.len(),
                q == job_views(self.queue@),
                i <= n,
                forall|j: int|
                    0 <= j <= i ==> TimeStep::MIN <= #[trigger] remaining_sum(q.take(j))
                        <= TimeStep::MAX,
                sum == remaining_sum(q.take(i as int)),
            decreases n - i,
        {
            assert(q.take(i + 1).drop_last() =~= q.take(i as int));
            assert(q.take(i + 1).last() == q[i as int]);
            match sum.checked_add(self.queue[i].remaining_time()) {
                Some(v) => {
                    sum = v;
                },
                None => {
                    assert(!(TimeStep::MIN <= remaining_sum(q.take(i + 1)) <= TimeStep::MAX));
                    return None;
                },
            }
            i = i + 1;
        }
        assert(q.take(n as int) =~= q);
        Some(sum)
    }

    /// Whether `simulate_step` can run: the clock can move on and the job that would run
    /// has a remaining time above `TimeStep::MIN`.
    pub fn can_step(&self) -> (r: bool)
        ensures
            r == step_defined(self@),
    {
        if self.current_time == TimeStep::MAX {
            return false;
        }
        if any_job_missed(&self.queue, self.current_time) {
            return true;
        }
        if self.queue.len() == 0 {
            return true;
        }
        self.queue[0].remaining_time() > TimeStep::MIN
    }

    /// Sets the core's clock.
    pub fn set_time(&mut self, time: TimeStep)
        ensures
            final(self)@ == (CoreView { current_time: time, ..old(self)@ }),
    {
        self.current_time = time;
    }

    /// The task deadline of the first queued job, when a task is assigned.
    pub fn current_job_task_deadline(&self) -> (r: Option<TimeStep>)
        requires
            self@.tasks.len() > 0 ==> self@.queue.len() > 0,
        ensures
            self@.tasks.len() == 0 ==> r is None,
            self@.tasks.len() > 0 ==> r == Some(self@.queue[0].task_deadline),
    {
        if self.task_set.is_empty() {
            return None;
        }
        Some(self.queue[0].task_deadline())
    }

    /// The number of queued jobs.
    pub fn queue_len(&self) -> (r: usize)
        ensures
            r == self@.queue.len(),
    {
        self.queue.len()
    }

    /// The tasks assigned to the core.
    pub fn task_set(&self) -> (r: &TaskSet)
        ensures
            r@ == self@.tasks,
    {
        &self.task_set
    }
}

/// A core built by `Core::new_task_set` has counted no migration.
pub proof fn lemma_fresh_core_counts_nothing(tasks: Seq<TaskView>)
    ensures
        total_count(zero_counts(tasks)) == 0,
{
    lemma_total_count_zeros(zero_counts(tasks));
}

/// The view of a core built by `Core::new_task_set(id, ..)` on tasks `tasks`.
pub open spec fn fresh_core(id: ID, tasks: Seq<TaskView>) -> CoreView {
    CoreView {
        id,
        migrations: zero_counts(tasks),
        tasks,
        queue: Seq::empty(),
        current_time: 0,
        feasibility_interval: None,
    }
}

/// The verdict of `simulate_partitionned(fits)` on a core built fresh on `tasks`.
pub open spec fn fresh_verdict(tasks: Seq<TaskView>, fits: bool) -> SchedulingCode {
    if tasks.len() == 0 {
        SchedulingCode::SchedulableShortcut
    } else if !(fits && wcets_within_deadlines(tasks)) {
        SchedulingCode::UnschedulableShortcut
    } else {
        edf_run(tasks, Seq::empty(), 0, busy_period(tasks)).0
    }
}

/// The view of a core built fresh on `tasks` after `simulate_partitionned(fits)`.
pub open spec fn simulated_core(id: ID, tasks: Seq<TaskView>, fits: bool) -> CoreView {
    if tasks.len() == 0 || !(fits && wcets_within_deadlines(tasks)) {
        fresh_core(id, tasks)
    } else {
        let run = edf_run(tasks, Seq::empty(), 0, busy_period(tasks));
        CoreView {
            id,
            migrations: zero_counts(tasks),
            tasks: run.1,
            queue: run.2,
            current_time: run.3 as TimeStep,
            feasibility_interval: Some(busy_period(tasks) as TimeStep),
        }
    }
}

/// `simulate_partitionned(fits)` on a core built fresh on `tasks` computes without
/// overflow, division by zero or endless iteration.
pub open spec fn fresh_simulation_defined(tasks: Seq<TaskView>, fits: bool) -> bool {
    &&& tasks.len() > 0 && fits ==> deadlines_fit_while_checked(tasks)
    &&& tasks.len() > 0 && fits && wcets_within_deadlines(tasks) ==> (exists|n: nat|
        busy_converges_at(tasks, n)) && edf_run_defined(tasks, Seq::empty(), 0, busy_period(tasks))
}

/// The abstract states of a sequence of cores.
pub open spec fn core_views(s: Seq<Core>) -> Seq<CoreView> {
    s.map_values(|c: Core| c@)
}

/// Cores numbered from one to `num_cores`, each holding all of `task_set`.
pub fn cores_sharing(task_set: &TaskSet, num_cores: usize) -> (r: Vec<Core>)
    ensures
        r@.len() == num_cores,
        forall|i: int| 0 <= i < num_cores ==> #[trigger] r@[i]@ == fresh_core((i + 1) as ID, task_set@),
{
    let mut cores: Vec<Core> = Vec::new();
    let mut i: usize = 0;
    while i < num_cores
        invariant
            i <= num_cores,
            cores@.len() == i,
            forall|j: int| 0 <= j < i ==> #[trigger] cores@[j]@ == fresh_core((j + 1) as ID, task_set@),
        decreases num_cores - i,
    {
        cores.push(Core::new_task_set(i + 1, task_set.duplicate()));
        i = i + 1;
    }
    cores
}

/// Cores numbered from one to `num_cores`, each with no task.
pub fn empty_cores(num_cores: usize) -> (r: Vec<Core>)
    ensures
        r@.len() == num_cores,
        forall|i: int| 0 <= i < num_cores ==> #[trigger] r@[i]@ == fresh_core((i + 1) as ID, Seq::empty()),
{
    let mut cores: Vec<Core> = Vec::new();
    let mut i: usize = 0;
    while i < num_cores
        invariant
            i <= num_cores,
            cores@.len() == i,
            forall|j: int| 0 <= j < i ==> #[trigger] cores@[j]@ == fresh_core((j + 1) as ID, Seq::empty()),
        decreases num_cores - i,
    {
        let c = Core::new(i + 1);
        assert(c@ == fresh_core((i + 1) as ID, Seq::empty())) by {
            assert(zero_counts(Seq::<TaskView>::empty()) =~= Map::<ID, usize>::empty());
        }
        cores.push(c);
        i = i + 1;
    }
    cores
}

} // verus!
