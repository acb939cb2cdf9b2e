use vstd::prelude::*;

use crate::constants::{Heuristic, SchedulingCode, Sorting, ID};
use crate::scheduler::processor::{
    core_views, empty_cores, fresh_core, fresh_simulation_defined, fresh_verdict, simulated_core,
    Core, CoreView,
};
use crate::task::TaskView;
use crate::taskset::TaskSet;

verus! {

/// The abstract state of a partitioned scheduler.
pub struct PartitionSchedulerView {
    pub task_set: Seq<TaskView>,
    pub num_cores: usize,
    pub num_threads: usize,
    pub cores: Seq<CoreView>,
    pub heuristic: Heuristic,
    pub sorting_order: Sorting,
}

/// The verdict is one of the two schedulable ones.
pub open spec fn is_schedulable_verdict(c: SchedulingCode) -> bool {
    c == SchedulingCode::SchedulableShortcut || c == SchedulingCode::SchedulableSimulated
}

/// The verdict on all the cores from the verdicts on each, in core order: the first
/// unschedulable verdict if there is one; otherwise schedulable by simulation if some
/// core needed a simulation, by the shortcut if none did.
pub open spec fn combine_verdicts(rs: Seq<SchedulingCode>) -> SchedulingCode
    decreases rs.len(),
{
    if rs.len() == 0 {
        SchedulingCode::SchedulableShortcut
    } else {
        let prev = combine_verdicts(rs.drop_last());
        let last = rs.last();
        if !is_schedulable_verdict(prev) {
            prev
        } else if !is_schedulable_verdict(last) {
            last
        } else if prev == SchedulingCode::SchedulableSimulated || last
            == SchedulingCode::SchedulableSimulated {
            SchedulingCode::SchedulableSimulated
        } else {
            SchedulingCode::SchedulableShortcut
        }
    }
}

/// The combined verdict is schedulable exactly when every core's verdict is.
pub proof fn lemma_combine_schedulable(rs: Seq<SchedulingCode>)
    ensures
        is_schedulable_verdict(combine_verdicts(rs)) <==> forall|i: int|
            0 <= i < rs.len() ==> #[trigger] is_schedulable_verdict(rs[i]),
        !is_schedulable_verdict(combine_verdicts(rs)) ==> exists|i: int|
            0 <= i < rs.len() && rs[i] == combine_verdicts(rs),
    decreases rs.len(),
{
    if rs.len() > 0 {
        let p = rs.drop_last();
        lemma_combine_schedulable(p);
        assert forall|i: int| 0 <= i < p.len() implies p[i] == rs[i] by {}
        if !is_schedulable_verdict(combine_verdicts(p)) {
            let i = choose|i: int| 0 <= i < p.len() && p[i] == combine_verdicts(p);
            assert(rs[i] == combine_verdicts(rs));
        } else if !is_schedulable_verdict(rs.last()) {
            assert(rs[rs.len() - 1] == combine_verdicts(rs));
        }
    }
}

/// The combined verdict is the first unschedulable one.
proof fn lemma_combine_first_failure(rs: Seq<SchedulingCode>, i: int)
    requires
        0 <= i < rs.len(),
        forall|j: int| 0 <= j < i ==> #[trigger] is_schedulable_verdict(rs[j]),
        !is_schedulable_verdict(rs[i]),
    ensures
        combine_verdicts(rs) == rs[i],
    decreases rs.len(),
{
    let p = rs.drop_last();
    if i == rs.len() - 1 {
        lemma_combine_schedulable(p);
        assert forall|j: int| 0 <= j < p.len() implies #[trigger] is_schedulable_verdict(p[j]) by {
            assert(p[j] == rs[j]);
        }
    } else {
        assert forall|j: int| 0 <= j < i implies #[trigger] is_schedulable_verdict(p[j]) by {
            assert(p[j] == rs[j]);
        }
        lemma_combine_first_failure(p, i);
    }
}

/// The verdicts of the fresh cores built on the partitions, in core order.
pub open spec fn partition_verdicts(parts: Seq<Seq<TaskView>>, fits: Seq<bool>) -> Seq<
    SchedulingCode,
> {
    Seq::new(parts.len(), |i: int| fresh_verdict(parts[i], fits[i]))
}

/// The number of cores simulated: up to and including the first unschedulable one.
pub open spec fn cores_simulated(rs: Seq<SchedulingCode>) -> int {
    if exists|i: int| 0 <= i < rs.len() && !#[trigger] is_schedulable_verdict(rs[i]) {
        (choose|i: int|
            0 <= i < rs.len() && !is_schedulable_verdict(rs[i]) && forall|j: int|
                0 <= j < i ==> #[trigger] is_schedulable_verdict(rs[j])) + 1
    } else {
        rs.len() as int
    }
}

/// Partitioned earliest-deadline-first scheduling: each task is placed on one core,
/// and each core is then checked on its own.
pub struct PartitionScheduler {
    task_set: TaskSet,
    num_cores: usize,
    num_threads: usize,
    cores: Vec<Core>,
    heuristic: Heuristic,
    sorting_order: Sorting,
}

impl View for PartitionScheduler {
    type V = PartitionSchedulerView;

    closed spec fn view(&self) -> PartitionSchedulerView {
        PartitionSchedulerView {
            task_set: self.task_set@,
            num_cores: self.num_cores,
            num_threads: self.num_threads,
            cores: core_views(self.cores@),
            heuristic: self.heuristic,
            sorting_order: self.sorting_order,
        }
    }
}

impl PartitionScheduler {
    /// A scheduler over `num_cores` empty cores numbered from one.
    pub fn new(
        task_set: TaskSet,
        num_cores: usize,
        num_threads: usize,
        heuristic: Heuristic,
        sorting_order: Sorting,
    ) -> (r: Self)
        ensures
            r@.task_set == task_set@,
            r@.num_cores == num_cores,
            r@.num_threads == num_threads,
            r@.heuristic == heuristic,
            r@.sorting_order == sorting_order,
            r@.cores.len() == num_cores,
            forall|i: int| 0 <= i < num_cores ==> #[trigger] r@.cores[i] == fresh_core((i + 1) as ID, Seq::empty()),
    {
        Self {
            task_set,
            num_cores,
            num_threads,
            cores: empty_cores(num_cores),
            heuristic,
            sorting_order,
        }
    }

    /// Checks a partition of the tasks: core `i` (numbered `i + 1`) gets `partitions[i]`
    /// and is simulated on its own (`fits[i]` tells whether the utilisation of
    /// `partitions[i]` is at most one), in core order; the first unschedulable verdict is
    /// returned at once, otherwise the combined schedulable verdict (see
    /// `combine_verdicts`).
    pub fn is_schedulable(&mut self, partitions: Vec<TaskSet>, fits: Vec<bool>) -> (r:
        SchedulingCode)
        requires
            partitions@.len() >= old(self)@.num_cores,
            fits@.len() >= old(self)@.num_cores,
            forall|i: int|
                0 <= i < old(self)@.num_cores ==> #[trigger] fresh_simulation_defined(
                    partitions@[i]@,
                    fits@[i],
                ),
        ensures
            ({
                let parts = partitions@.take(old(self)@.num_cores as int).map_values(
                    |t: TaskSet| t@,
                );
                let rs = partition_verdicts(parts, fits@.take(old(self)@.num_cores as int));
                &&& r == combine_verdicts(rs)
                &&& final(self)@.cores.len() == old(self)@.num_cores
                &&& forall|i: int|
                    0 <= i < old(self)@.num_cores ==> #[trigger] final(self)@.cores[i] == if i
                        < cores_simulated(rs) {
                        simulated_core((i + 1) as ID, parts[i], fits@[i])
                    } else {
                        fresh_core((i + 1) as ID, parts[i])
                    }
                &&& final(self)@ == (PartitionSchedulerView {
                    cores: final(self)@.cores,
                    ..old(self)@
                })
            }),
    {
        let n = self.num_cores;
        let ghost parts = partitions@.take(n as int).map_values(|t: TaskSet| t@);
        let ghost fs = fits@.take(n as int);
        let ghost rs = partition_verdicts(parts, fs);
        let mut cores: Vec<Core> = Vec::new();
        let mut i: usize = 0;
        while i < n
            invariant
                i <= n,
                n <= partitions@.len(),
                parts == partitions@.take(n as int).map_values(|t: TaskSet| t@),
                cores@.len() == i,
                forall|j: int| 0 <= j < i ==> #[trigger] cores@[j]@ == fresh_core((j + 1) as ID, parts[j]),
            decreases n - i,
        {
            assert(parts[i as int] == partitions@[i as int]@);
            cores.push(Core::new_task_set(i + 1, partitions[i].duplicate()));
            i = i + 1;
        }
        self.cores = cores;
        let mut result = SchedulingCode::SchedulableShortcut;
        let mut i: usize = 0;
        while i < n
            invariant
                i <= n,
                n == self.num_cores,
                n <= fits@.len(),
                rs.len() == n,
                fs == fits@.take(n as int),
                rs == partition_verdicts(parts, fs),
                n <= partitions@.len(),
                parts == partitions@.take(n as int).map_values(|t: TaskSet| t@),
                parts.len() == n,
                forall|j: int| 0 <= j < n ==> #[trigger] fresh_simulation_defined(parts[j], fs[j]),
                self.cores@.len() == n,
                result == combine_verdicts(rs.take(i as int)),
                is_schedulable_verdict(result),
                forall|j: int| 0 <= j < i ==> #[trigger] is_schedulable_verdict(rs[j]),
                forall|j: int|
                    0 <= j < i ==> #[trigger] self.cores@[j]@ == simulated_core((j + 1) as ID, parts[j], fs[j]),
                forall|j: int|
                    i <= j < n ==> #[trigger] self.cores@[j]@ == fresh_core((j + 1) as ID, parts[j]),
                self.task_set@ == old(self)@.task_set,
                self.num_threads == old(self)@.num_threads,
                self.heuristic == old(self)@.heuristic,
                self.sorting_order == old(self)@.sorting_order,
                n == old(self)@.num_cores,
            decreases n - i,
        {
            let ghost before = self.cores@;
            assert(fresh_simulation_defined(parts[i as int], fs[i as int]));
            let resp = self.cores[i].simulate_partitionned(fits[i]);
            assert(fs[i as int] == fits@[i as int]);
            assert(resp == rs[i as int]);
            assert(rs.take(i + 1).drop_last() =~= rs.take(i as int));
            assert(self.cores@[i as int]@ == simulated_core((i + 1) as ID, parts[i as int], fs[i as int]));
            assert forall|j: int| 0 <= j < n && j != i implies #[trigger] self.cores@[j] == before[j] by {}
            if resp != SchedulingCode::SchedulableShortcut && resp != SchedulingCode::SchedulableSimulated {
                proof {
                    assert(!is_schedulable_verdict(rs[i as int]));
                    let c = choose|c: int|
                        0 <= c < rs.len() && !is_schedulable_verdict(rs[c]) && forall|j: int|
                            0 <= j < c ==> #[trigger] is_schedulable_verdict(rs[j]);
                    if c < i {
                        assert(is_schedulable_verdict(rs[c]));
                    } else if c > i {
                        assert(is_schedulable_verdict(rs[i as int]));
                    }
                    assert(cores_simulated(rs) == i + 1);
                    lemma_combine_first_failure(rs, i as int);
                }
                return resp;
            }
            if resp == SchedulingCode::SchedulableSimulated {
                result = resp;
            }
            i = i + 1;
        }
        assert(rs.take(n as int) =~= rs);
        result
    }

    /// The tasks, for the partitioning to order them.
    pub fn task_set_mut(&mut self) -> (r: &mut TaskSet)
        ensures
            r@ == old(self)@.task_set,
            final(self)@ == (PartitionSchedulerView { task_set: final(r)@, ..old(self)@ }),
    {
        &mut self.task_set
    }

    /// The cores, for the partitioning to replace and the simulation to run.
    pub fn cores_mut(&mut self) -> (r: &mut Vec<Core>)
        ensures
            core_views(r@) == old(self)@.cores,
            final(self)@ == (PartitionSchedulerView { cores: core_views(final(r)@), ..old(self)@ }),
    {
        &mut self.cores
    }

    pub fn num_cores(&self) -> (r: usize)
        ensures
            r == self@.num_cores,
    {
        self.num_cores
    }

    pub fn heuristic(&self) -> (r: Heuristic)
        ensures
            r == self@.heuristic,
    {
        self.heuristic
    }

    pub fn sorting_order(&self) -> (r: Sorting)
        ensures
            r == self@.sorting_order,
    {
        self.sorting_order
    }
}

} // verus!
