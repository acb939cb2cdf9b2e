use vstd::prelude::*;

use crate::constants::{CoreValue, TimeStep, ID};
use crate::job::{Job, JobView};
use crate::scheduler::global_queue::{
    earliest_unassigned, has_earliest_candidate, is_first_earliest_unassigned,
    lemma_first_earliest_unassigned_unique, queue_views,
};
use crate::scheduler::global_step::{
    any_core_free, any_on_core, drop_entries_on_core, drop_on_core, global_state, has_on_core,
    on_no_core, release_first_on, release_first_on_core, set_remaining_on, set_remaining_on_core,
    some_core_free, table_view, unassigned_job_missed, unassigned_missed, GlobalState, StepFault,
};
use crate::scheduler::processor::{
    add_defined, core_removed, core_stepped, core_views, core_with_job, cores_sharing, fresh_core,
    remaining_sum, remove_defined, step_defined, sums_fit, Core, CoreView,
};
use crate::task::TaskView;
use crate::taskset::{after_releases, all_spawn_defined, first_with_id, released_jobs, TaskSet};

verus! {

/// A released job as EDF(k) queues it: the jobs of the tasks below `k` carry the
/// "always first" mark, a shown deadline of `TimeStep::MIN`.
pub open spec fn edfk_marked(j: JobView, k: int) -> JobView {
    if j.task_id < k {
        JobView { show_absolute_deadline: TimeStep::MIN, ..j }
    } else {
        j
    }
}

/// The jobs the tasks release at `t`, marked for EDF(k) and on no core.
pub open spec fn edfk_released(tasks: Seq<TaskView>, t: int, k: int) -> Seq<(JobView, ID)> {
    on_no_core(released_jobs(tasks, t).map_values(|j: JobView| edfk_marked(j, k)))
}

/// Core `c` takes the elected job, at `e` in the queue, in the placement pass of EDF(k):
/// if it holds tasks it first gives up the job's task and the first queue entry on it
/// goes back to no core; the elected entry goes on the core; it gets the job alone in
/// its queue and takes the job's task, at
/// position `t` in the set, if it lacks it and `fits[c][t]` holds. Also whether, and
/// which, task it took.
pub open spec fn edfk_take(s: GlobalState, c: int, e: int, fits: Seq<Seq<bool>>) -> Result<
    (GlobalState, Option<(usize, usize)>),
    StepFault,
> {
    let cur = s.cores[c];
    let job = s.queue[e].0;
    if !remove_defined(cur, job.task_id) {
        Err(StepFault::Overflow)
    } else {
        let cur1 = if cur.tasks.len() > 0 {
            core_removed(cur, job.task_id)
        } else {
            cur
        };
        let q1 = if cur.tasks.len() > 0 {
            release_first_on(s.queue, cur.id)
        } else {
            s.queue
        }.update(e, (job, cur.id));
        match first_with_id(s.tasks, job.task_id) {
            None => Err(StepFault::UnknownTask),
            Some(t) => {
                let f = fits[c][t];
                if !add_defined(cur1, s.tasks[t], f) {
                    Err(StepFault::Overflow)
                } else {
                    let (cur2, added) = core_with_job(cur1, job, s.tasks[t], f);
                    Ok(
                        (
                            GlobalState { cores: s.cores.update(c, cur2), queue: q1, ..s },
                            if added {
                                Some((c as usize, t as usize))
                            } else {
                                None
                            },
                        ),
                    )
                }
            },
        }
    }
}

/// The placement pass of EDF(k) over the cores `c` to `end - 1`, with `taken` the
/// (core, task position) pairs of the tasks taken so far. At each core, while the queue
/// holds jobs: a core holding tasks must have a queued job; the pass stops at a core
/// whose job carries the mark, or when no job on no core has a shown deadline below
/// `TimeStep::MAX`. Otherwise the first such job with the earliest shown deadline is
/// elected; a core with no task takes it, and so does a core with tasks when every core
/// holds tasks and its job's shown deadline is later. Taking it, a core with tasks first
/// gives up the elected job's task (and the first queue entry on it goes back to no
/// core); the elected entry goes on the core, which gets the job alone in its queue and takes the job's task if it lacks
/// it and `fits[c][t]` holds, `t` being the task's position in the set.
pub open spec fn edfk_place(
    s: GlobalState,
    c: int,
    end: int,
    fits: Seq<Seq<bool>>,
    taken: Seq<(usize, usize)>,
) -> Result<(GlobalState, Seq<(usize, usize)>), StepFault>
    decreases end - c,
{
    if c >= end || s.queue.len() == 0 {
        Ok((s, taken))
    } else {
        let cur = s.cores[c];
        if cur.tasks.len() > 0 && cur.queue.len() == 0 {
            Err(StepFault::NoCurrentJob)
        } else if cur.tasks.len() > 0 && cur.queue[0].show_absolute_deadline == TimeStep::MIN {
            Ok((s, taken))
        } else if !has_earliest_candidate(s.queue) {
            Ok((s, taken))
        } else {
            let e = choose|e: int| is_first_earliest_unassigned(s.queue, e);
            let job = s.queue[e].0;
            if cur.tasks.len() > 0 && (some_core_free(s.cores)
                || cur.queue[0].show_absolute_deadline <= job.show_absolute_deadline) {
                edfk_place(s, c + 1, end, fits, taken)
            } else {
                match edfk_take(s, c, e, fits) {
                    Err(f) => Err(f),
                    Ok((s2, took)) => edfk_place(
                        s2,
                        c + 1,
                        end,
                        fits,
                        match took {
                            Some(p) => taken.push(p),
                            None => taken,
                        },
                    ),
                }
            }
        }
    }
}

/// The simulation pass of EDF(k) over the cores `c` to `end - 1`: each core simulates
/// one step (see `core_stepped`); a missed deadline stops the pass and is reported; a
/// completed job takes the entries on that core off the queue; a running core sets the
/// remaining time of the entries on it to the total remaining time of its own queue.
pub open spec fn edfk_simulate(s: GlobalState, c: int, end: int) -> Result<(GlobalState, bool), StepFault>
    decreases end - c,
{
    if c >= end {
        Ok((s, false))
    } else if !step_defined(s.cores[c]) {
        Err(StepFault::Overflow)
    } else {
        let (cur, resp) = core_stepped(s.cores[c]);
        let cores = s.cores.update(c, cur);
        if resp == CoreValue::Missed {
            Ok((GlobalState { cores, ..s }, true))
        } else if resp == CoreValue::Complete {
            edfk_simulate(GlobalState { cores, queue: drop_on_core(s.queue, cur.id), ..s }, c + 1, end)
        } else if !has_on_core(s.queue, cur.id) {
            edfk_simulate(GlobalState { cores, ..s }, c + 1, end)
        } else if !sums_fit(cur.queue) {
            Err(StepFault::Overflow)
        } else {
            edfk_simulate(
                GlobalState {
                    cores,
                    queue: set_remaining_on(s.queue, cur.id, remaining_sum(cur.queue) as TimeStep),
                    ..s
                },
                c + 1,
                end,
            )
        }
    }
}

/// One time step `t` of the EDF(k) simulation on `cores` cores: the tasks release their
/// jobs, marked, onto the queue; the placement pass and the simulation pass run over
/// all the cores; the step reports whether a deadline was missed, on a core or
/// by a job on no core, and which tasks the cores took.
pub open spec fn edfk_step(s: GlobalState, t: int, k: int, cores: int, fits: Seq<Seq<bool>>) -> Result<
    (GlobalState, bool, Seq<(usize, usize)>),
    StepFault,
> {
    let s1 = GlobalState {
        tasks: after_releases(s.tasks, t),
        cores: s.cores,
        queue: s.queue + edfk_released(s.tasks, t, k),
    };
    match edfk_place(s1, 0, cores, fits, Seq::empty()) {
        Err(f) => Err(f),
        Ok((s2, taken)) => match edfk_simulate(s2, 0, cores) {
            Err(f) => Err(f),
            Ok((s3, missed)) => Ok((s3, missed || unassigned_missed(s3.queue, t), taken)),
        },
    }
}

/// The abstract state of an EDF(k) scheduler.
pub struct EDFkSchedulerView {
    pub task_set: Seq<TaskView>,
    pub num_cores: usize,
    pub cores: Seq<CoreView>,
    pub k: usize,
}

/// Global EDF(k) scheduling: the jobs of the `k` first tasks always come first, the
/// others are placed by earliest deadline.
pub struct EDFkScheduler {
    task_set: TaskSet,
    num_cores: usize,
    cores: Vec<Core>,
    k: usize,
}

impl View for EDFkScheduler {
    type V = EDFkSchedulerView;

    closed spec fn view(&self) -> EDFkSchedulerView {
        EDFkSchedulerView {
            task_set: self.task_set@,
            num_cores: self.num_cores,
            cores: core_views(self.cores@),
            k: self.k,
        }
    }
}

impl EDFkScheduler {
    /// A scheduler over `num_cores` cores numbered from one, each starting with the whole
    /// task set and no queued job. (A core holding tasks with no queued job cannot be
    /// read in the placement pass, so the first step that releases a job reports
    /// `StepFault::NoCurrentJob`.)
    pub fn new(task_set: TaskSet, num_cores: usize, k: usize) -> (r: Self)
        ensures
            r@.task_set == task_set@,
            r@.num_cores == num_cores,
            r@.k == k,
            r@.cores.len() == num_cores,
            forall|i: int| 0 <= i < num_cores ==> #[trigger] r@.cores[i] == fresh_core((i + 1) as ID, task_set@),
    {
        let cores = cores_sharing(&task_set, num_cores);
        Self { task_set, num_cores, cores, k }
    }

    /// The job to place next: the first job on no core with the earliest shown deadline
    /// among those on no core, if that deadline is below `TimeStep::MAX`; `None`
    /// otherwise.
    pub fn schedule_jobs(queue: &Vec<(Job, ID)>) -> (r: Option<ID>)
        ensures
            has_earliest_candidate(queue_views(queue@)) ==> r is Some
                && is_first_earliest_unassigned(queue_views(queue@), r->0 as int),
            !has_earliest_candidate(queue_views(queue@)) ==> r is None,
    {
        if queue.len() == 0 {
            return None;
        }
        earliest_unassigned(queue)
    }

    /// Core `c` takes the elected job (see `edfk_take`); the fault, if any.
    fn take_elected(
        &mut self,
        c: usize,
        e: usize,
        queue: &mut Vec<(Job, ID)>,
        fits: &Vec<Vec<bool>>,
        taken: &mut Vec<(usize, usize)>,
    ) -> (r: Option<StepFault>)
        requires
            c < old(self)@.num_cores,
            e < old(queue)@.len(),
            old(self)@.cores.len() == old(self)@.num_cores,
            fits@.len() >= old(self)@.num_cores,
            forall|i: int| 0 <= i < fits@.len() ==> #[trigger] fits@[i]@.len() == old(self)@.task_set.len(),
        ensures
            final(self)@.num_cores == old(self)@.num_cores,
            final(self)@.k == old(self)@.k,
            final(self)@.task_set == old(self)@.task_set,
            final(self)@.cores.len() == old(self)@.cores.len(),
            match edfk_take(
                global_state(old(self)@.task_set, old(self)@.cores, old(queue)@),
                c as int,
                e as int,
                table_view(fits@),
            ) {
                Ok((s2, took)) => r is None && global_state(
                    final(self)@.task_set,
                    final(self)@.cores,
                    final(queue)@,
                ) == s2 && final(taken)@ == match took {
                    Some(p) => old(taken)@.push(p),
                    None => old(taken)@,
                },
                Err(f) => r == Some(f),
            },
    {
        let ghost s = global_state(self@.task_set, self@.cores, queue@);
        let ghost fv = table_view(fits@);
        assert(self@.cores[c as int] == self.cores@[c as int]@);
        let job = queue[e].0;
        assert(job@ == s.queue[e as int].0);
        let assigned = self.cores[c].is_assigned();
        let cur_id = self.cores[c].id();
        if self.cores[c].task_set().task_exists(job.task_id())
            && !self.cores[c].can_count_migration(job.task_id()) {
            return Some(StepFault::Overflow);
        }
        if assigned {
            let ghost before = self.cores@;
            let core = &mut self.cores[c];
            core.remove(job.task_id());
            assert(core_views(self.cores@) =~= core_views(before).update(
                c as int,
                core_removed(core_views(before)[c as int], job@.task_id),
            ));
            release_first_on_core(queue, cur_id);
        }
        let ghost q0 = queue_views(queue@);
        queue.set(e, (job, cur_id));
        assert(queue_views(queue@) =~= q0.update(e as int, (job@, cur_id)));
        let t = match self.task_set.index_of_id(job.task_id()) {
            None => {
                return Some(StepFault::UnknownTask);
            },
            Some(t) => t,
        };
        let task = *self.task_set.get_task_by_index(t).unwrap();
        assert(fits@[c as int]@ == fv[c as int]);
        let f = fits[c][t];
        let ghost cur1 = self@.cores[c as int];
        let ghost q1 = queue_views(queue@);
        assert(self@.task_set == s.tasks);
        assert(first_with_id(s.tasks, job@.task_id) == Some(t as int));
        assert(task@ == s.tasks[t as int]);
        assert(f == fv[c as int][t as int]);
        assert(cur1 == (if s.cores[c as int].tasks.len() > 0 {
            core_removed(s.cores[c as int], job@.task_id)
        } else {
            s.cores[c as int]
        }));
        assert(q1 == (if s.cores[c as int].tasks.len() > 0 {
            release_first_on(s.queue, s.cores[c as int].id)
        } else {
            s.queue
        }).update(e as int, (job@, cur_id)));
        if !self.cores[c].task_set().task_exists(task.id()) && f
            && !self.cores[c].can_count_migration(task.id()) {
            return Some(StepFault::Overflow);
        }
        let ghost before = self.cores@;
        let core = &mut self.cores[c];
        let added = core.add_job(job, task, f);
        assert(core_views(self.cores@) =~= core_views(before).update(
            c as int,
            core_with_job(core_views(before)[c as int], job@, task@, f).0,
        ));
        let ghost after = self@.cores;
        assert(after == s.cores.update(c as int, core_with_job(cur1, job@, task@, f).0));
        if added {
            taken.push((c, t));
        }
        None
    }

    /// One core of the placement pass (see `edfk_place`): `None` when the pass goes on
    /// with the next core, otherwise how it ends.
    fn place_on_core(
        &mut self,
        c: usize,
        queue: &mut Vec<(Job, ID)>,
        fits: &Vec<Vec<bool>>,
        taken: &mut Vec<(usize, usize)>,
    ) -> (r: Option<Result<(), StepFault>>)
        requires
            c < old(self)@.num_cores,
            old(self)@.cores.len() == old(self)@.num_cores,
            fits@.len() >= old(self)@.num_cores,
            forall|i: int| 0 <= i < fits@.len() ==> #[trigger] fits@[i]@.len() == old(self)@.task_set.len(),
        ensures
            final(self)@.num_cores == old(self)@.num_cores,
            final(self)@.k == old(self)@.k,
            final(self)@.task_set == old(self)@.task_set,
            final(self)@.cores.len() == old(self)@.cores.len(),
            ({
                let before = edfk_place(
                    global_state(old(self)@.task_set, old(self)@.cores, old(queue)@),
                    c as int,
                    old(self)@.num_cores as int,
                    table_view(fits@),
                    old(taken)@,
                );
                let now = global_state(final(self)@.task_set, final(self)@.cores, final(queue)@);
                match r {
                    None => before == edfk_place(
                        now,
                        c + 1,
                        old(self)@.num_cores as int,
                        table_view(fits@),
                        final(taken)@,
                    ),
                    Some(Ok(())) => before == Ok::<(GlobalState, Seq<(usize, usize)>), StepFault>(
                        (now, final(taken)@),
                    ),
                    Some(Err(f)) => before == Err::<(GlobalState, Seq<(usize, usize)>), StepFault>(f),
                }
            }),
    {
        let ghost s = global_state(self@.task_set, self@.cores, queue@);
        let ghost fv = table_view(fits@);
        if queue.len() == 0 {
            return Some(Ok(()));
        }
        let free = any_core_free(&self.cores);
        assert(self@.cores[c as int] == self.cores@[c as int]@);
        let assigned = self.cores[c].is_assigned();
        if assigned && self.cores[c].queue_len() == 0 {
            return Some(Err(StepFault::NoCurrentJob));
        }
        if self.cores[c].current_job_is_inf() == Some(true) {
            return Some(Ok(()));
        }
        let e = match Self::schedule_jobs(queue) {
            None => {
                return Some(Ok(()));
            },
            Some(e) => e,
        };
        proof {
            let w = choose|w: int| is_first_earliest_unassigned(s.queue, w);
            lemma_first_earliest_unassigned_unique(s.queue, w, e as int);
        }
        let job = queue[e].0;
        assert(job@ == s.queue[e as int].0);
        if assigned && (free || self.cores[c].current_job_deadline().unwrap()
            <= job.absolute_deadline()) {
            return None;
        }
        match self.take_elected(c, e, queue, fits, taken) {
            Some(f) => Some(Err(f)),
            None => None,
        }
    }

    /// The placement pass of one time step (see `edfk_place`).
    fn place_jobs(&mut self, queue: &mut Vec<(Job, ID)>, fits: &Vec<Vec<bool>>) -> (r: Result<
        Vec<(usize, usize)>,
        StepFault,
    >)
        requires
            old(self)@.cores.len() == old(self)@.num_cores,
            fits@.len() >= old(self)@.num_cores,
            forall|c: int| 0 <= c < fits@.len() ==> #[trigger] fits@[c]@.len() == old(self)@.task_set.len(),
        ensures
            final(self)@.num_cores == old(self)@.num_cores,
            final(self)@.k == old(self)@.k,
            final(self)@.cores.len() == old(self)@.cores.len(),
            match edfk_place(
                global_state(old(self)@.task_set, old(self)@.cores, old(queue)@),
                0,
                old(self)@.num_cores as int,
                table_view(fits@),
                Seq::empty(),
            ) {
                Ok((s, taken)) => r is Ok && r->Ok_0@ == taken && global_state(
                    final(self)@.task_set,
                    final(self)@.cores,
                    final(queue)@,
                ) == s,
                Err(f) => r is Err && r->Err_0 == f,
            },
    {
        let ghost fv = table_view(fits@);
        let ghost target = edfk_place(
            global_state(self@.task_set, self@.cores, queue@),
            0,
            self@.num_cores as int,
            fv,
            Seq::empty(),
        );
        let end = self.num_cores;
        let mut taken: Vec<(usize, usize)> = Vec::new();
        let mut c: usize = 0;
        while c < end
            invariant
                end == self@.num_cores,
                old(self)@.cores.len() == old(self)@.num_cores,
                target == edfk_place(
                    global_state(old(self)@.task_set, old(self)@.cores, old(queue)@),
                    0,
                    old(self)@.num_cores as int,
                    fv,
                    Seq::empty(),
                ),
                self@.num_cores == old(self)@.num_cores,
                self@.k == old(self)@.k,
                self@.cores.len() == self@.num_cores,
                self@.task_set == old(self)@.task_set,
                c <= end,
                fv == table_view(fits@),
                fits@.len() >= self@.num_cores,
                forall|i: int| 0 <= i < fits@.len() ==> #[trigger] fits@[i]@.len() == self@.task_set.len(),
                edfk_place(global_state(self@.task_set, self@.cores, queue@), c as int, end as int, fv, taken@)
                    == target,
            decreases end - c,
        {
            match self.place_on_core(c, queue, fits, &mut taken) {
                Some(Ok(())) => {
                    return Ok(taken);
                },
                Some(Err(f)) => {
                    return Err(f);
                },
                None => {},
            }
            c = c + 1;
        }
        Ok(taken)
    }

    /// One core of the simulation pass (see `edfk_simulate`): `None` when the pass goes
    /// on with the next core, otherwise how it ends.
    fn simulate_core_at(&mut self, c: usize, queue: &mut Vec<(Job, ID)>) -> (r: Option<
        Result<bool, StepFault>,
    >)
        requires
            c < old(self)@.num_cores,
            old(self)@.cores.len() == old(self)@.num_cores,
        ensures
            final(self)@.num_cores == old(self)@.num_cores,
            final(self)@.k == old(self)@.k,
            final(self)@.task_set == old(self)@.task_set,
            final(self)@.cores.len() == old(self)@.cores.len(),
            ({
                let before = edfk_simulate(
                    global_state(old(self)@.task_set, old(self)@.cores, old(queue)@),
                    c as int,
                    old(self)@.num_cores as int,
                );
                let now = global_state(final(self)@.task_set, final(self)@.cores, final(queue)@);
                match r {
                    None => before == edfk_simulate(now, c + 1, old(self)@.num_cores as int),
                    Some(Ok(m)) => before == Ok::<(GlobalState, bool), StepFault>((now, m)),
                    Some(Err(f)) => before == Err::<(GlobalState, bool), StepFault>(f),
                }
            }),
    {
        assert(self@.cores[c as int] == self.cores@[c as int]@);
        if !self.cores[c].can_step() {
            return Some(Err(StepFault::Overflow));
        }
        let ghost before = self.cores@;
        let k = self.k;
        let core = &mut self.cores[c];
        let resp = core.simulate_step(k);
        assert(core_views(self.cores@) =~= core_views(before).update(
            c as int,
            core_stepped(core_views(before)[c as int]).0,
        ));
        assert(self@.cores[c as int] == self.cores@[c as int]@);
        let id = self.cores[c].id();
        match resp {
            CoreValue::Missed => Some(Ok(true)),
            CoreValue::Complete => {
                drop_entries_on_core(queue, id);
                None
            },
            CoreValue::Running => {
                if any_on_core(queue, id) {
                    match self.cores[c].checked_remaining_time() {
                        None => Some(Err(StepFault::Overflow)),
                        Some(rem) => {
                            set_remaining_on_core(queue, id, rem);
                            None
                        },
                    }
                } else {
                    None
                }
            },
        }
    }

    /// The simulation pass of one time step (see `edfk_simulate`); whether a deadline was
    /// missed on a core.
    fn simulate_cores(&mut self, queue: &mut Vec<(Job, ID)>) -> (r: Result<bool, StepFault>)
        requires
            old(self)@.cores.len() == old(self)@.num_cores,
        ensures
            final(self)@.num_cores == old(self)@.num_cores,
            final(self)@.k == old(self)@.k,
            final(self)@.cores.len() == old(self)@.cores.len(),
            match edfk_simulate(
                global_state(old(self)@.task_set, old(self)@.cores, old(queue)@),
                0,
                old(self)@.num_cores as int,
            ) {
                Ok((s, missed)) => r == Ok::<bool, StepFault>(missed) && global_state(
                    final(self)@.task_set,
                    final(self)@.cores,
                    final(queue)@,
                ) == s,
                Err(f) => r == Err::<bool, StepFault>(f),
            },
    {
        let ghost target = edfk_simulate(
            global_state(self@.task_set, self@.cores, queue@),
            0,
            self@.num_cores as int,
        );
        let end = self.num_cores;
        let mut c: usize = 0;
        while c < end
            invariant
                end == self@.num_cores,
                old(self)@.cores.len() == old(self)@.num_cores,
                target == edfk_simulate(
                    global_state(old(self)@.task_set, old(self)@.cores, old(queue)@),
                    0,
                    old(self)@.num_cores as int,
                ),
                self@.num_cores == old(self)@.num_cores,
                self@.k == old(self)@.k,
                self@.cores.len() == self@.num_cores,
                c <= end,
                edfk_simulate(global_state(self@.task_set, self@.cores, queue@), c as int, end as int)
                    == target,
            decreases end - c,
        {
            match self.simulate_core_at(c, queue) {
                Some(Ok(m)) => {
                    return Ok(m);
                },
                Some(Err(f)) => {
                    return Err(f);
                },
                None => {},
            }
            c = c + 1;
        }
        Ok(false)
    }

    /// Releases the jobs of the tasks at `time` onto the queue, on no core, marking
    /// those of the tasks below `k`.
    fn release_into_queue(&mut self, time: TimeStep, queue: &mut Vec<(Job, ID)>)
        requires
            all_spawn_defined(old(self)@.task_set, time as int),
        ensures
            final(self)@ == (EDFkSchedulerView {
                task_set: after_releases(old(self)@.task_set, time as int),
                ..old(self)@
            }),
            queue_views(final(queue)@) == queue_views(old(queue)@) + edfk_released(
                old(self)@.task_set,
                time as int,
                old(self)@.k as int,
            ),
    {
        let ghost q0 = queue_views(queue@);
        let ghost k = self.k as int;
        let released = self.task_set.release_jobs(time);
        let ghost rel = released@.map_values(|j: Job| j@);
        let ghost target = edfk_released(old(self)@.task_set, time as int, k);
        assert(target.len() == rel.len());
        let n = released.len();
        let mut i: usize = 0;
        while i < n
            invariant
                n == rel.len(),
                rel == released@.map_values(|j: Job| j@),
                target == on_no_core(rel.map_values(|j: JobView| edfk_marked(j, k))),
                k == self.k as int,
                i <= n,
                queue_views(queue@) == q0 + target.take(i as int),
            decreases n - i,
        {
            let mut j = released[i];
            assert(j@ == rel[i as int]);
            if j.task_id() < self.k {
                j.set_deadline_inf();
            }
            let ghost before = queue_views(queue@);
            queue.push((j, 0));
            assert(target[i as int] == (edfk_marked(rel[i as int], k), 0usize));
            assert(queue_views(queue@) =~= before.push((j@, 0usize)));
            assert(target.take(i + 1) =~= target.take(i as int).push(target[i as int]));
            i = i + 1;
        }
        assert(target.take(n as int) =~= target);
    }

    /// One time step `time` of the EDF(k) simulation (see `edfk_step`): whether a
    /// deadline was missed, and the (core, task position) pairs of the tasks the cores
    /// took, for the caller to charge to their utilisation budgets; a fault where the
    /// step cannot be carried out. `fits[c][t]` tells whether core `c` has the budget for
    /// the task at position `t`.
    pub fn time_step(&mut self, time: TimeStep, queue: &mut Vec<(Job, ID)>, fits: &Vec<Vec<bool>>) -> (r:
        Result<(bool, Vec<(usize, usize)>), StepFault>)
        requires
            old(self)@.cores.len() == old(self)@.num_cores,
            all_spawn_defined(old(self)@.task_set, time as int),
            fits@.len() >= old(self)@.num_cores,
            forall|c: int| 0 <= c < fits@.len() ==> #[trigger] fits@[c]@.len() == old(self)@.task_set.len(),
        ensures
            final(self)@.num_cores == old(self)@.num_cores,
            final(self)@.k == old(self)@.k,
            final(self)@.cores.len() == old(self)@.cores.len(),
            match edfk_step(
                global_state(old(self)@.task_set, old(self)@.cores, old(queue)@),
                time as int,
                old(self)@.k as int,
                old(self)@.num_cores as int,
                table_view(fits@),
            ) {
                Ok((s, missed, taken)) => r is Ok && r->Ok_0.0 == missed && r->Ok_0.1@ == taken
                    && global_state(final(self)@.task_set, final(self)@.cores, final(queue)@) == s,
                Err(f) => r is Err && r->Err_0 == f,
            },
    {
        self.release_into_queue(time, queue);
        let taken = match self.place_jobs(queue, fits) {
            Ok(taken) => taken,
            Err(f) => {
                return Err(f);
            },
        };
        let missed = match self.simulate_cores(queue) {
            Ok(m) => m,
            Err(f) => {
                return Err(f);
            },
        };
        let late = unassigned_job_missed(queue, time);
        Ok((missed || late, taken))
    }

    /// Sets the clock of every core to `time`.
    pub fn set_core_times(&mut self, time: TimeStep)
        ensures
            final(self)@.task_set == old(self)@.task_set,
            final(self)@.num_cores == old(self)@.num_cores,
            final(self)@.k == old(self)@.k,
            final(self)@.cores.len() == old(self)@.cores.len(),
            forall|i: int| 0 <= i < old(self)@.cores.len() ==> #[trigger] final(self)@.cores[i] == (CoreView {
                current_time: time,
                ..old(self)@.cores[i]
            }),
    {
        let n = self.cores.len();
        let mut i: usize = 0;
        while i < n
            invariant
                n == self.cores@.len(),
                n == old(self).cores@.len(),
                i <= n,
                self@.task_set == old(self)@.task_set,
                self@.num_cores == old(self)@.num_cores,
                self@.k == old(self)@.k,
                forall|j: int| 0 <= j < i ==> #[trigger] self.cores@[j]@ == (CoreView {
                    current_time: time,
                    ..old(self).cores@[j]@
                }),
                forall|j: int| i <= j < n ==> #[trigger] self.cores@[j] == old(self).cores@[j],
            decreases n - i,
        {
            let core = &mut self.cores[i];
            core.set_time(time);
            i = i + 1;
        }
    }

    /// The cores.
    pub fn cores(&self) -> (r: &Vec<Core>)
        ensures
            core_views(r@) == self@.cores,
    {
        &self.cores
    }

    pub fn num_cores(&self) -> (r: usize)
        ensures
            r == self@.num_cores,
    {
        self.num_cores
    }

    pub fn k(&self) -> (r: usize)
        ensures
            r == self@.k,
    {
        self.k
    }

    pub fn task_set(&self) -> (r: &TaskSet)
        ensures
            r@ == self@.task_set,
    {
        &self.task_set
    }
}

} // verus!
