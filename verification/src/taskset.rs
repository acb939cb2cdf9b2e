use vstd::prelude::*;

use crate::constants::{TimeStep, ID};
use crate::job::{Job, JobView};
use crate::deadline_order::{
    deadline_ordered, reports_deadline, sort_tasks_by_deadline, sorted_by_deadline,
};
use crate::lcm::{
    checked_multiple_lcm, lcm_fold, lcm_fold_defined, lemma_lcm_fold_common_multiple, multiple,
    multiple_lcm,
};
use vstd::std_specs::iter::IteratorSpec;
use crate::task::{
    after_release, deadline_fits, period_fits, task_period, released_job, releases_at, spawn_defined, task_deadline, task_views,
    Task, TaskView,
};

verus! {

/// The jobs that the tasks release at `now`, in the order of the tasks.
pub open spec fn released_jobs(tasks: Seq<TaskView>, now: int) -> Seq<JobView>
    decreases tasks.len(),
{
    if tasks.len() == 0 {
        Seq::empty()
    } else {
        let last = tasks.last();
        released_jobs(tasks.drop_last(), now) + if releases_at(last, now) {
            seq![released_job(last, now)]
        } else {
            Seq::empty()
        }
    }
}

/// The tasks after the releases at `now`: each task that releases has one more job
/// counted.
pub open spec fn after_releases(tasks: Seq<TaskView>, now: int) -> Seq<TaskView> {
    Seq::new(
        tasks.len(),
        |i: int|
            if releases_at(tasks[i], now) {
                after_release(tasks[i])
            } else {
                tasks[i]
            },
    )
}

/// Every task can be asked for a job at `now` without overflow or division by zero.
pub open spec fn all_spawn_defined(tasks: Seq<TaskView>, now: int) -> bool {
    forall|i: int| 0 <= i < tasks.len() ==> #[trigger] spawn_defined(tasks[i], now)
}

/// Every task's work fits within its reported deadline.
pub open spec fn wcets_within_deadlines(tasks: Seq<TaskView>) -> bool {
    forall|i: int| 0 <= i < tasks.len() ==> #[trigger] tasks[i].wcet <= task_deadline(tasks[i])
}

/// Checking the tasks one by one for `wcet <= deadline()`, each task reached has a
/// reported deadline that fits in a `TimeStep` (the check stops at the first failure).
pub open spec fn deadlines_fit_while_checked(tasks: Seq<TaskView>) -> bool {
    forall|i: int|
        0 <= i < tasks.len() && (forall|j: int|
            0 <= j < i ==> tasks[j].wcet <= task_deadline(tasks[j])) ==> #[trigger] deadline_fits(
            tasks[i],
        )
}

/// The first task with the given identifier, if any.
pub open spec fn first_with_id(tasks: Seq<TaskView>, id: ID) -> Option<int> {
    if exists|i: int| 0 <= i < tasks.len() && #[trigger] tasks[i].id == id {
        Some(
            choose|i: int|
                0 <= i < tasks.len() && tasks[i].id == id && forall|j: int|
                    0 <= j < i ==> #[trigger] tasks[j].id != id,
        )
    } else {
        None
    }
}

/// The tasks without those that have the given identifier, in their order.
pub open spec fn without_id(tasks: Seq<TaskView>, id: ID) -> Seq<TaskView> {
    tasks.filter(|t: TaskView| t.id != id)
}

/// Division truncating toward zero, as machine integer division does.
pub open spec fn trunc_div(x: int, d: int) -> int {
    if x >= 0 {
        x / d
    } else {
        -((-x) / d)
    }
}

/// Whether a value fits in a `TimeStep`.
pub open spec fn fits(x: int) -> bool {
    TimeStep::MIN <= x <= TimeStep::MAX
}

/// The sum of the tasks' worst-case execution times.
pub open spec fn wcet_sum(tasks: Seq<TaskView>) -> int
    decreases tasks.len(),
{
    if tasks.len() == 0 {
        0
    } else {
        wcet_sum(tasks.drop_last()) + tasks.last().wcet
    }
}

/// Every partial sum of the worst-case execution times fits in a `TimeStep`.
pub open spec fn wcet_sum_fits(tasks: Seq<TaskView>) -> bool {
    forall|i: int| 0 <= i <= tasks.len() ==> #[trigger] fits(wcet_sum(tasks.take(i)))
}

/// The work that a task demands in a window of length `w`: `ceil(w / T) * C`, with `T`
/// the period the task reports (`period + offset`), computed as `(w + T - 1) / T * C`.
pub open spec fn demand(t: TaskView, w: int) -> int {
    trunc_div(w + task_period(t) - 1, task_period(t)) * t.wcet
}

/// `demand(t, w)` computes without overflow, with a positive reported period.
pub open spec fn demand_defined(t: TaskView, w: int) -> bool {
    &&& period_fits(t)
    &&& task_period(t) > 0
    &&& fits(w + task_period(t))
    &&& fits(w + task_period(t) - 1)
    &&& fits(demand(t, w))
}

/// The total work demanded by the tasks in a window of length `w`.
pub open spec fn total_demand(tasks: Seq<TaskView>, w: int) -> int
    decreases tasks.len(),
{
    if tasks.len() == 0 {
        0
    } else {
        total_demand(tasks.drop_last(), w) + demand(tasks.last(), w)
    }
}

/// `total_demand(tasks, w)` computes without overflow or division by zero.
pub open spec fn total_demand_defined(tasks: Seq<TaskView>, w: int) -> bool {
    &&& forall|i: int| 0 <= i < tasks.len() ==> #[trigger] demand_defined(tasks[i], w)
    &&& forall|i: int| 0 <= i <= tasks.len() ==> #[trigger] fits(total_demand(tasks.take(i), w))
}

/// The `k`-th window of the busy-period iteration: it starts from the total work and
/// replaces the window by the work demanded in it.
pub open spec fn busy_window(tasks: Seq<TaskView>, k: nat) -> int
    decreases k,
{
    if k == 0 {
        wcet_sum(tasks)
    } else {
        total_demand(tasks, busy_window(tasks, (k - 1) as nat))
    }
}

/// The `k`-th window is a fixed point of the iteration.
pub open spec fn busy_fixed(tasks: Seq<TaskView>, k: nat) -> bool {
    total_demand(tasks, busy_window(tasks, k)) == busy_window(tasks, k)
}

/// The busy-period iteration reaches a fixed point at step `n` with every step on the
/// way computed without overflow.
pub open spec fn busy_converges_at(tasks: Seq<TaskView>, n: nat) -> bool {
    &&& wcet_sum_fits(tasks)
    &&& forall|k: nat| k <= n ==> #[trigger] total_demand_defined(tasks, busy_window(tasks, k))
    &&& busy_fixed(tasks, n)
}

/// The first fixed point of the busy-period iteration is reached at step `k`.
pub open spec fn busy_first_fixed(tasks: Seq<TaskView>, k: nat) -> bool {
    busy_fixed(tasks, k) && forall|j: nat| j < k ==> !#[trigger] busy_fixed(tasks, j)
}

/// The step at which the busy-period iteration first reaches a fixed point.
pub open spec fn busy_fixed_step(tasks: Seq<TaskView>) -> nat {
    choose|k: nat| busy_first_fixed(tasks, k)
}

/// The length of the first busy period: the first fixed point of the iteration.
pub open spec fn busy_period(tasks: Seq<TaskView>) -> int {
    busy_window(tasks, busy_fixed_step(tasks))
}

/// The first fixed point is reached at one step only.
pub proof fn lemma_busy_first_fixed_unique(tasks: Seq<TaskView>, k: nat)
    requires
        busy_first_fixed(tasks, k),
    ensures
        busy_fixed_step(tasks) == k,
        busy_period(tasks) == busy_window(tasks, k),
{
    let j = busy_fixed_step(tasks);
    assert(busy_first_fixed(tasks, j));
    if j < k {
        assert(!busy_fixed(tasks, j));
    } else if k < j {
        assert(!busy_fixed(tasks, k));
    }
}

/// The largest offset among the tasks (zero for no task).
pub open spec fn max_offset(tasks: Seq<TaskView>) -> int
    decreases tasks.len(),
{
    if tasks.len() == 0 {
        0
    } else if tasks.len() == 1 {
        tasks[0].offset as int
    } else {
        let m = max_offset(tasks.drop_last());
        if tasks.last().offset >= m {
            tasks.last().offset as int
        } else {
            m
        }
    }
}

/// The periods the tasks report, in order.
pub open spec fn reported_periods(tasks: Seq<TaskView>) -> Seq<isize> {
    tasks.map_values(|t: TaskView| task_period(t) as isize)
}

/// Every task's reported period fits in a `TimeStep`.
pub open spec fn all_periods_fit(tasks: Seq<TaskView>) -> bool {
    forall|i: int| 0 <= i < tasks.len() ==> #[trigger] period_fits(tasks[i])
}

/// The end of the global feasibility interval: the largest offset plus twice the
/// least common multiple of the reported periods.
pub open spec fn global_interval_end(tasks: Seq<TaskView>) -> int {
    max_offset(tasks) + 2 * lcm_fold(reported_periods(tasks))
}

/// Every task has a non-negative worst-case execution time and a positive reported
/// period.
pub open spec fn well_formed_demands(tasks: Seq<TaskView>) -> bool {
    forall|i: int|
        0 <= i < tasks.len() ==> #[trigger] tasks[i].wcet >= 0 && task_period(tasks[i]) > 0
}

proof fn lemma_demand_monotone(t: TaskView, w1: int, w2: int)
    requires
        0 <= w1 <= w2,
        t.wcet >= 0,
        task_period(t) > 0,
    ensures
        0 <= demand(t, w1) <= demand(t, w2),
        w1 >= 1 ==> demand(t, w1) >= t.wcet,
{
    let p = task_period(t);
    vstd::arithmetic::div_mod::lemma_div_is_ordered(w1 + p - 1, w2 + p - 1, p);
    vstd::arithmetic::div_mod::lemma_div_pos_is_pos(w1 + p - 1, p);
    let q1 = (w1 + p - 1) / p;
    let q2 = (w2 + p - 1) / p;
    assert(0 <= q1 * t.wcet <= q2 * t.wcet) by (nonlinear_arith)
        requires
            0 <= q1 <= q2,
            t.wcet >= 0,
    ;
    if w1 >= 1 {
        vstd::arithmetic::div_mod::lemma_div_is_ordered(p, w1 + p - 1, p);
        vstd::arithmetic::div_mod::lemma_div_by_self(p);
        assert(q1 * t.wcet >= t.wcet) by (nonlinear_arith)
            requires
                q1 >= 1,
                t.wcet >= 0,
        ;
    }
}

proof fn lemma_total_demand_monotone(tasks: Seq<TaskView>, w1: int, w2: int)
    requires
        0 <= w1 <= w2,
        well_formed_demands(tasks),
    ensures
        0 <= total_demand(tasks, w1) <= total_demand(tasks, w2),
        w1 >= 1 ==> total_demand(tasks, w1) >= wcet_sum(tasks),
    decreases tasks.len(),
{
    if tasks.len() > 0 {
        let p = tasks.drop_last();
        assert(well_formed_demands(p)) by {
            assert forall|i: int| 0 <= i < p.len() implies #[trigger] p[i].wcet >= 0
                && task_period(p[i]) > 0 by {
                assert(p[i] == tasks[i]);
            }
        }
        assert(tasks.last() == tasks[tasks.len() - 1]);
        lemma_total_demand_monotone(p, w1, w2);
        lemma_demand_monotone(tasks.last(), w1, w2);
    }
}

proof fn lemma_wcet_sum_nonneg(tasks: Seq<TaskView>)
    requires
        well_formed_demands(tasks),
    ensures
        wcet_sum(tasks) >= 0,
    decreases tasks.len(),
{
    if tasks.len() > 0 {
        let p = tasks.drop_last();
        assert(well_formed_demands(p)) by {
            assert forall|i: int| 0 <= i < p.len() implies #[trigger] p[i].wcet >= 0
                && task_period(p[i]) > 0 by {
                assert(p[i] == tasks[i]);
            }
        }
        assert(tasks.last() == tasks[tasks.len() - 1]);
        lemma_wcet_sum_nonneg(p);
    }
}

/// With non-negative execution times and positive periods, the busy-period windows
/// never shrink, and none exceeds a window `x` at or above the total work in which the
/// demand is at most `x` (in particular a fixed point of the demand): the iteration
/// converges to the least such fixed point.
pub proof fn lemma_busy_window_least_fixed_point(tasks: Seq<TaskView>, k: nat, x: int)
    requires
        well_formed_demands(tasks),
        x >= wcet_sum(tasks),
        total_demand(tasks, x) <= x,
    ensures
        wcet_sum(tasks) <= busy_window(tasks, k) <= busy_window(tasks, k + 1) <= x,
    decreases k,
{
    lemma_wcet_sum_nonneg(tasks);
    if k == 0 {
        let w0 = wcet_sum(tasks);
        lemma_total_demand_monotone(tasks, w0, x);
        if w0 == 0 {
            lemma_total_demand_monotone(tasks, 0, 0);
        }
        assert(busy_window(tasks, 0) == w0);
        assert(busy_window(tasks, 1) == total_demand(tasks, busy_window(tasks, 0)));
    } else {
        lemma_busy_window_least_fixed_point(tasks, (k - 1) as nat, x);
        let a = busy_window(tasks, (k - 1) as nat);
        let b = busy_window(tasks, k);
        lemma_total_demand_monotone(tasks, a, b);
        lemma_total_demand_monotone(tasks, b, x);
        assert(busy_window(tasks, k + 1) == total_demand(tasks, b));
    }
}

/// The sum over the tasks of the work each demands in a window of length `p`, counted
/// as `wcet * (p / T)`: with `p` a multiple of every reported period `T`, the
/// utilisation `sum wcet / T` is at most one exactly when this sum is at most `p`.
pub open spec fn scaled_work(tasks: Seq<TaskView>, p: int) -> int
    decreases tasks.len(),
{
    if tasks.len() == 0 {
        0
    } else {
        scaled_work(tasks.drop_last(), p) + tasks.last().wcet * (p / task_period(tasks.last()))
    }
}

/// Every reported period divides `p`.
pub open spec fn periods_divide(tasks: Seq<TaskView>, p: int) -> bool {
    forall|i: int| 0 <= i < tasks.len() ==> p % task_period(#[trigger] tasks[i]) == 0
}

/// The drop of the last task keeps non-negative execution times and positive periods.
proof fn lemma_well_formed_drop_last(tasks: Seq<TaskView>)
    requires
        well_formed_demands(tasks),
        tasks.len() > 0,
    ensures
        well_formed_demands(tasks.drop_last()),
        tasks.last().wcet >= 0,
        task_period(tasks.last()) > 0,
{
    let q = tasks.drop_last();
    assert forall|i: int| 0 <= i < q.len() implies #[trigger] q[i].wcet >= 0 && task_period(q[i])
        > 0 by {
        assert(q[i] == tasks[i]);
    }
    assert(tasks.last() == tasks[tasks.len() - 1]);
}

/// With periods dividing `p >= 0`, the demand in a window of length `p` is the scaled
/// work, and it is at least the total work when `p > 0`.
proof fn lemma_demand_at_common_multiple(tasks: Seq<TaskView>, p: int)
    requires
        well_formed_demands(tasks),
        periods_divide(tasks, p),
        p > 0,
    ensures
        total_demand(tasks, p) == scaled_work(tasks, p),
        wcet_sum(tasks) <= scaled_work(tasks, p),
    decreases tasks.len(),
{
    if tasks.len() > 0 {
        let q = tasks.drop_last();
        let t = tasks.last();
        lemma_well_formed_drop_last(tasks);
        assert(periods_divide(q, p)) by {
            assert forall|i: int| 0 <= i < q.len() implies p % task_period(#[trigger] q[i]) == 0 by {
                assert(q[i] == tasks[i]);
            }
        }
        assert(p % task_period(tasks[tasks.len() - 1]) == 0);
        lemma_demand_at_common_multiple(q, p);
        let tp = task_period(t);
        let m = p / tp;
        vstd::arithmetic::div_mod::lemma_fundamental_div_mod(p, tp);
        assert(p == tp * m);
        vstd::arithmetic::div_mod::lemma_div_multiples_vanish_fancy(m, tp - 1, tp);
        assert(p + tp - 1 == tp * m + (tp - 1));
        assert(trunc_div(p + tp - 1, tp) == m);
        assert(m >= 1) by (nonlinear_arith)
            requires
                p == tp * m,
                p > 0,
                tp > 0,
        ;
        assert(t.wcet <= t.wcet * m) by (nonlinear_arith)
            requires
                m >= 1,
                t.wcet >= 0,
        ;
    }
}

/// Partial sums of non-negative execution times lie between zero and the total.
proof fn lemma_wcet_prefix(tasks: Seq<TaskView>, i: int)
    requires
        well_formed_demands(tasks),
        0 <= i <= tasks.len(),
    ensures
        0 <= wcet_sum(tasks.take(i)) <= wcet_sum(tasks),
    decreases tasks.len(),
{
    if i == tasks.len() {
        assert(tasks.take(i) =~= tasks);
        lemma_wcet_sum_nonneg(tasks);
    } else {
        let q = tasks.drop_last();
        lemma_well_formed_drop_last(tasks);
        assert(tasks.take(i) =~= q.take(i));
        lemma_wcet_prefix(q, i);
    }
}

/// Partial sums of the demands in a window of length `w >= 0` lie between zero and the
/// total demand.
proof fn lemma_demand_prefix(tasks: Seq<TaskView>, w: int, i: int)
    requires
        well_formed_demands(tasks),
        w >= 0,
        0 <= i <= tasks.len(),
    ensures
        0 <= total_demand(tasks.take(i), w) <= total_demand(tasks, w),
    decreases tasks.len(),
{
    if i == tasks.len() {
        assert(tasks.take(i) =~= tasks);
        lemma_total_demand_monotone(tasks, w, w);
    } else {
        let q = tasks.drop_last();
        lemma_well_formed_drop_last(tasks);
        assert(tasks.take(i) =~= q.take(i));
        lemma_demand_prefix(q, w, i);
        lemma_demand_monotone(tasks.last(), w, w);
    }
}

/// In a window `w` between zero and `x`, where the demand in `x` is at most `x` and `x`
/// plus each reported period fits, the demand is computed without overflow.
proof fn lemma_demand_defined_below(tasks: Seq<TaskView>, w: int, x: int)
    requires
        well_formed_demands(tasks),
        0 <= w <= x,
        total_demand(tasks, x) <= x,
        forall|i: int|
            0 <= i < tasks.len() ==> period_fits(#[trigger] tasks[i]) && fits(
                x + task_period(tasks[i]),
            ),
    ensures
        total_demand_defined(tasks, w),
{
    lemma_total_demand_monotone(tasks, w, x);
    assert forall|i: int| 0 <= i <= tasks.len() implies #[trigger] fits(
        total_demand(tasks.take(i), w),
    ) by {
        lemma_demand_prefix(tasks, w, i);
    }
    assert forall|i: int| 0 <= i < tasks.len() implies #[trigger] demand_defined(tasks[i], w) by {
        let t = tasks[i];
        assert(t.wcet >= 0 && task_period(t) > 0);
        assert(period_fits(t) && fits(x + task_period(t)));
        lemma_demand_prefix(tasks, w, i);
        lemma_demand_prefix(tasks, w, i + 1);
        assert(tasks.take(i + 1).drop_last() =~= tasks.take(i));
        assert(tasks.take(i + 1).last() == t);
        assert(total_demand(tasks.take(i + 1), w) == total_demand(tasks.take(i), w) + demand(t, w));
    }
}

/// Until the iteration reaches a fixed point, each step grows the window by at least one.
proof fn lemma_fixed_within(tasks: Seq<TaskView>, x: int, k: nat)
    requires
        well_formed_demands(tasks),
        x >= wcet_sum(tasks),
        total_demand(tasks, x) <= x,
    ensures
        (exists|j: nat| j <= k && #[trigger] busy_fixed(tasks, j)) || busy_window(tasks, k)
            >= wcet_sum(tasks) + k,
    decreases k,
{
    if k > 0 {
        let j = (k - 1) as nat;
        lemma_fixed_within(tasks, x, j);
        lemma_busy_window_least_fixed_point(tasks, j, x);
        if busy_fixed(tasks, j) {
            assert(busy_fixed(tasks, j));
        } else {
            assert(busy_window(tasks, k) == total_demand(tasks, busy_window(tasks, j)));
            if exists|i: nat| i <= j && #[trigger] busy_fixed(tasks, i) {
                let i = choose|i: nat| i <= j && #[trigger] busy_fixed(tasks, i);
                assert(i <= k && busy_fixed(tasks, i));
            }
        }
    }
}

/// A fixed point at step `n` comes with a first one at or before it.
proof fn lemma_first_fixed(tasks: Seq<TaskView>, n: nat) -> (m: nat)
    requires
        busy_fixed(tasks, n),
    ensures
        m <= n,
        busy_first_fixed(tasks, m),
    decreases n,
{
    if exists|j: nat| j < n && #[trigger] busy_fixed(tasks, j) {
        let j = choose|j: nat| j < n && #[trigger] busy_fixed(tasks, j);
        lemma_first_fixed(tasks, j)
    } else {
        n
    }
}

/// With non-negative execution times and positive periods that all divide `p > 0`, a
/// utilisation of at most one (`sum wcet * (p / T) <= p`) makes the busy-period
/// iteration converge without overflow, provided `p` plus each reported period fits in a
/// `TimeStep`; the busy period then lies between the total work and `p`. So under these
/// conditions both `feasibility_interval_part` and the EDF feasibility interval can be
/// computed.
pub proof fn lemma_busy_period_converges(tasks: Seq<TaskView>, p: int)
    requires
        well_formed_demands(tasks),
        p > 0,
        periods_divide(tasks, p),
        scaled_work(tasks, p) <= p,
        forall|i: int|
            0 <= i < tasks.len() ==> period_fits(#[trigger] tasks[i]) && fits(
                p + task_period(tasks[i]),
            ),
    ensures
        exists|n: nat| busy_converges_at(tasks, n),
        wcet_sum(tasks) <= busy_period(tasks) <= p,
{
    lemma_demand_at_common_multiple(tasks, p);
    lemma_wcet_sum_nonneg(tasks);
    let w0 = wcet_sum(tasks);
    let bound = (p - w0 + 1) as nat;
    lemma_fixed_within(tasks, p, bound);
    lemma_busy_window_least_fixed_point(tasks, bound, p);
    let n = choose|j: nat| j <= bound && #[trigger] busy_fixed(tasks, j);
    let m = lemma_first_fixed(tasks, n);
    lemma_busy_first_fixed_unique(tasks, m);
    lemma_busy_window_least_fixed_point(tasks, m, p);
    assert(wcet_sum_fits(tasks)) by {
        assert forall|i: int| 0 <= i <= tasks.len() implies #[trigger] fits(
            wcet_sum(tasks.take(i)),
        ) by {
            lemma_wcet_prefix(tasks, i);
        }
    }
    assert forall|k: nat| k <= m implies #[trigger] total_demand_defined(
        tasks,
        busy_window(tasks, k),
    ) by {
        lemma_busy_window_least_fixed_point(tasks, k, p);
        lemma_demand_defined_below(tasks, busy_window(tasks, k), p);
    }
    assert(busy_converges_at(tasks, m));
}

/// The same law at the hyperperiod `P`, the least common multiple of the reported
/// periods (taken positive): when `sum wcet * (P / T) <= P`, that is when the
/// utilisation is at most one, and `P` plus each reported period fits, the busy-period
/// iteration converges without overflow to a busy period of at most `P`.
pub proof fn lemma_busy_period_converges_at_hyperperiod(tasks: Seq<TaskView>)
    requires
        well_formed_demands(tasks),
        all_periods_fit(tasks),
        lcm_fold(reported_periods(tasks)) > 0,
        scaled_work(tasks, lcm_fold(reported_periods(tasks))) <= lcm_fold(reported_periods(tasks)),
        forall|i: int|
            0 <= i < tasks.len() ==> fits(
                lcm_fold(reported_periods(tasks)) + task_period(#[trigger] tasks[i]),
            ),
    ensures
        exists|n: nat| busy_converges_at(tasks, n),
        wcet_sum(tasks) <= busy_period(tasks) <= lcm_fold(reported_periods(tasks)),
{
    let rp = reported_periods(tasks);
    let p = lcm_fold(rp);
    assert forall|i: int| 0 <= i < tasks.len() implies p % task_period(#[trigger] tasks[i]) == 0 by {
        lemma_lcm_fold_common_multiple(rp, i);
        assert(period_fits(tasks[i]));
        assert(well_formed_demands(tasks));
        assert(tasks[i].wcet >= 0);
        assert(task_period(tasks[i]) > 0);
        assert(rp[i] as int == task_period(tasks[i]));
        let d = task_period(tasks[i]);
        let k = choose|k: int| #[trigger] multiple(rp[i] as int, k) == p;
        assert(d * k == k * d) by (nonlinear_arith);
        vstd::arithmetic::div_mod::lemma_mod_multiples_basic(k, d);
    }
    assert forall|i: int| 0 <= i < tasks.len() implies period_fits(#[trigger] tasks[i]) && fits(
        p + task_period(tasks[i]),
    ) by {}
    lemma_busy_period_converges(tasks, p);
}

/// The largest offset is an upper bound of the tasks' offsets and is the offset of one
/// of them (for at least one task).
pub proof fn lemma_max_offset_is_largest(tasks: Seq<TaskView>)
    requires
        tasks.len() > 0,
    ensures
        forall|i: int| 0 <= i < tasks.len() ==> #[trigger] tasks[i].offset <= max_offset(tasks),
        exists|i: int| 0 <= i < tasks.len() && #[trigger] tasks[i].offset == max_offset(tasks),
    decreases tasks.len(),
{
    if tasks.len() == 1 {
        assert(tasks[0].offset == max_offset(tasks));
    } else {
        let p = tasks.drop_last();
        lemma_max_offset_is_largest(p);
        let last = tasks.len() - 1;
        assert(tasks.last() == tasks[last]);
        assert forall|i: int| 0 <= i < tasks.len() implies #[trigger] tasks[i].offset <= max_offset(
            tasks,
        ) by {
            if i < last {
                assert(tasks[i] == p[i]);
            }
        }
        if tasks[last].offset >= max_offset(p) {
            assert(tasks[last].offset == max_offset(tasks));
        } else {
            let j = choose|j: int| 0 <= j < p.len() && #[trigger] p[j].offset == max_offset(p);
            assert(tasks[j] == p[j]);
            assert(tasks[j].offset == max_offset(tasks));
        }
    }
}

/// The end of the global feasibility interval, `O_max + 2 P`: take off twice the least
/// common multiple of the reported periods and what is left is no smaller than any
/// task's offset and equal to some task's offset.
pub proof fn lemma_global_interval_end(tasks: Seq<TaskView>)
    requires
        tasks.len() > 0,
    ensures
        ({
            let o = global_interval_end(tasks) - 2 * lcm_fold(reported_periods(tasks));
            &&& forall|i: int| 0 <= i < tasks.len() ==> #[trigger] tasks[i].offset <= o
            &&& exists|i: int| 0 <= i < tasks.len() && #[trigger] tasks[i].offset == o
        }),
{
    lemma_max_offset_is_largest(tasks);
}

/// After `retain_not(id)` no task has identifier `id`, and every task with another
/// identifier is still there.
pub proof fn lemma_without_id(tasks: Seq<TaskView>, id: ID)
    ensures
        forall|i: int|
            0 <= i < without_id(tasks, id).len() ==> #[trigger] without_id(tasks, id)[i].id != id,
        forall|i: int|
            0 <= i < tasks.len() && tasks[i].id != id ==> #[trigger] without_id(tasks, id).contains(
                tasks[i],
            ),
{
    let p = |t: TaskView| t.id != id;
    assert forall|i: int| 0 <= i < without_id(tasks, id).len() implies #[trigger] without_id(
        tasks,
        id,
    )[i].id != id by {
        tasks.lemma_filter_pred(p, i);
    }
    assert forall|i: int| 0 <= i < tasks.len() && tasks[i].id != id implies #[trigger] without_id(
        tasks,
        id,
    ).contains(tasks[i]) by {
        tasks.lemma_filter_contains(p, i);
    }
}

/// A set of periodic tasks, kept in the order they were given.
#[derive(Clone, Debug)]
pub struct TaskSet {
    tasks: Vec<Task>,
}

impl View for TaskSet {
    type V = Seq<TaskView>;

    closed spec fn view(&self) -> Seq<TaskView> {
        task_views(self.tasks@)
    }
}

impl TaskSet {
    pub fn new(tasks: Vec<Task>) -> (r: Self)
        ensures
            r@ == task_views(tasks@),
    {
        Self { tasks }
    }

    /// A task set holding the same tasks.
    pub(crate) fn duplicate(&self) -> (r: Self)
        ensures
            r@ == self@,
    {
        let mut tasks: Vec<Task> = Vec::new();
        let n = self.tasks.len();
        let mut i: usize = 0;
        while i < n
            invariant
                n == self.tasks@.len(),
                i <= n,
                tasks@ == self.tasks@.take(i as int),
            decreases n - i,
        {
            tasks.push(self.tasks[i]);
            assert(tasks@ =~= self.tasks@.take(i + 1));
            i = i + 1;
        }
        assert(self.tasks@.take(n as int) =~= self.tasks@);
        Self { tasks }
    }

    pub fn new_empty() -> (r: Self)
        ensures
            r@ == Seq::<TaskView>::empty(),
    {
        Self { tasks: Vec::new() }
    }

    /// Whether the task set passes the necessary condition for feasibility: its total
    /// utilisation is at most one (`utilisation_at_most_one`, which the caller computes
    /// from the tasks' utilisations) and every task's work fits within its deadline.
    pub fn is_feasible(&self, utilisation_at_most_one: bool) -> (r: bool)
        requires
            utilisation_at_most_one ==> deadlines_fit_while_checked(self@),
        ensures
            r == (utilisation_at_most_one && wcets_within_deadlines(self@)),
    {
        if !utilisation_at_most_one {
            return false;
        }
        let n = self.tasks.len();
        let mut i: usize = 0;
        while i < n
            invariant
                n == self@.len(),
                i <= n,
                deadlines_fit_while_checked(self@),
                forall|j: int| 0 <= j < i ==> #[trigger] self@[j].wcet <= task_deadline(self@[j]),
            decreases n - i,
        {
            assert(deadline_fits(self@[i as int]));
            let t = &self.tasks[i];
            if t.wcet() > t.deadline() {
                return false;
            }
            i = i + 1;
        }
        true
    }

    pub fn is_empty(&self) -> (r: bool)
        ensures
            r == (self@.len() == 0),
    {
        self.tasks.len() == 0
    }

    /// The identifier of the first task, if there is one.
    pub fn get_first_task_id(&self) -> (r: Option<ID>)
        ensures
            self@.len() == 0 ==> r is None,
            self@.len() > 0 ==> r == Some(self@[0].id),
    {
        if self.is_empty() {
            return None;
        }
        Some(self.tasks[0].id())
    }

    /// Asks every task, in order, for a job at `current_time`; returns the jobs released.
    pub fn release_jobs(&mut self, current_time: TimeStep) -> (r: Vec<Job>)
        requires
            all_spawn_defined(old(self)@, current_time as int),
        ensures
            final(self)@ == after_releases(old(self)@, current_time as int),
            r@.map_values(|j: Job| j@) == released_jobs(old(self)@, current_time as int),
    {
        let ghost old_tasks = self@;
        let n = self.tasks.len();
        let mut jobs: Vec<Job> = Vec::new();
        let mut i: usize = 0;
        while i < n
            invariant
                n == self@.len(),
                n == old_tasks.len(),
                i <= n,
                all_spawn_defined(old_tasks, current_time as int),
                forall|j: int| i <= j < n ==> #[trigger] self@[j] == old_tasks[j],
                forall|j: int|
                    0 <= j < i ==> #[trigger] self@[j] == after_releases(
                        old_tasks,
                        current_time as int,
                    )[j],
                jobs@.map_values(|j: Job| j@) == released_jobs(
                    old_tasks.take(i as int),
                    current_time as int,
                ),
            decreases n - i,
        {
            let mut task = self.tasks[i];
            assert(task@ == self@[i as int]);
            assert(spawn_defined(old_tasks[i as int], current_time as int));
            let ghost before = jobs@.map_values(|j: Job| j@);
            let ghost view_before = self@;
            let spawned = task.spawn_job(current_time);
            self.tasks.set(i, task);
            assert(self@ =~= view_before.update(i as int, task@));
            let ghost prefix = old_tasks.take(i + 1);
            assert(prefix.drop_last() =~= old_tasks.take(i as int));
            assert(prefix.last() == old_tasks[i as int]);
            match spawned {
                Some(job) => {
                    jobs.push(job);
                    assert(jobs@.map_values(|j: Job| j@) =~= before.push(job@));
                },
                None => {},
            }
            assert(jobs@.map_values(|j: Job| j@) =~= released_jobs(prefix, current_time as int));
            assert(self@[i as int] == after_releases(old_tasks, current_time as int)[i as int]);
            i = i + 1;
        }
        assert(old_tasks.take(n as int) =~= old_tasks);
        assert(self@ =~= after_releases(old_tasks, current_time as int));
        jobs
    }

    /// An iterator over the tasks, in order.
    pub fn iter(&self) -> (r: std::slice::Iter<'_, Task>)
        ensures
            task_views(r.remaining().unref()) == self@,
    {
        self.tasks.iter()
    }

    pub fn add_task(&mut self, task: Task)
        ensures
            final(self)@ == old(self)@.push(task@),
    {
        self.tasks.push(task);
    }

    pub fn get_tasks_mut(&mut self) -> (r: &mut Vec<Task>)
        ensures
            task_views(r@) == old(self)@,
            final(self)@ == task_views(final(r)@),
    {
        &mut self.tasks
    }

    pub fn get_tasks(&self) -> (r: &Vec<Task>)
        ensures
            task_views(r@) == self@,
    {
        &self.tasks
    }

    pub fn get_tasks_copy(self) -> (r: Vec<Task>)
        ensures
            task_views(r@) == self@,
    {
        self.tasks
    }

    pub fn len(&self) -> (r: usize)
        ensures
            r == self@.len(),
    {
        self.tasks.len()
    }

    /// Keeps, in their order, only the tasks whose identifier is not `id`.
    pub fn retain_not(&mut self, id: ID)
        ensures
            final(self)@ == without_id(old(self)@, id),
    {
        let ghost old_tasks = self@;
        let mut kept: Vec<Task> = Vec::new();
        let n = self.tasks.len();
        let mut i: usize = 0;
        while i < n
            invariant
                n == old_tasks.len(),
                old_tasks == task_views(self.tasks@),
                i <= n,
                task_views(kept@) == without_id(old_tasks.take(i as int), id),
            decreases n - i,
        {
            let t = self.tasks[i];
            assert(t@ == old_tasks[i as int]);
            assert(old_tasks.take(i + 1) =~= old_tasks.take(i as int).push(t@));
            proof {
                old_tasks.take(i as int).lemma_filter_push(t@, |x: TaskView| x.id != id);
            }
            let ghost before = kept@;
            if t.id() != id {
                kept.push(t);
                assert(task_views(kept@) =~= task_views(before).push(t@));
            }
            assert(task_views(kept@) =~= without_id(old_tasks.take(i + 1), id));
            i = i + 1;
        }
        assert(old_tasks.take(n as int) =~= old_tasks);
        self.tasks = kept;
    }

    /// The task at `index`, if the index is in range.
    pub fn get_task_by_index(&self, index: usize) -> (r: Option<&Task>)
        ensures
            index < self@.len() ==> r is Some && r->0@ == self@[index as int],
            index >= self@.len() ==> r is None,
    {
        if index >= self.tasks.len() {
            return None;
        }
        Some(&self.tasks[index])
    }

    /// The first task with identifier `task_id`, if any.
    pub fn get_task_by_id(&self, task_id: ID) -> (r: Option<&Task>)
        ensures
            match first_with_id(self@, task_id) {
                Some(i) => r is Some && r->0@ == self@[i],
                None => r is None,
            },
    {
        let n = self.tasks.len();
        let mut i: usize = 0;
        while i < n
            invariant
                n == self@.len(),
                i <= n,
                forall|j: int| 0 <= j < i ==> #[trigger] self@[j].id != task_id,
            decreases n - i,
        {
            if self.tasks[i].id() == task_id {
                assert(self@[i as int].id == task_id);
                let ghost k = choose|k: int|
                    0 <= k < self@.len() && self@[k].id == task_id && forall|j: int|
                        0 <= j < k ==> #[trigger] self@[j].id != task_id;
                assert(k == i) by {
                    if k < i {
                        assert(self@[k].id != task_id);
                    }
                    if k > i {
                        assert(self@[i as int].id != task_id);
                    }
                }
                return Some(&self.tasks[i]);
            }
            i = i + 1;
        }
        None
    }

    /// Whether every task can be asked for a job at `now` without overflow or division
    /// by zero (see `release_jobs`).
    pub fn can_release_at(&self, now: TimeStep) -> (r: bool)
        ensures
            r == all_spawn_defined(self@, now as int),
    {
        let n = self.tasks.len();
        let mut i: usize = 0;
        while i < n
            invariant
                n == self@.len(),
                i <= n,
                forall|j: int| 0 <= j < i ==> spawn_defined(#[trigger] self@[j], now as int),
            decreases n - i,
        {
            if !self.tasks[i].can_spawn_at(now) {
                assert(!spawn_defined(self@[i as int], now as int));
                return false;
            }
            i = i + 1;
        }
        true
    }

    /// Whether every task's reported deadline fits in a `TimeStep`.
    pub fn deadlines_fit(&self) -> (r: bool)
        ensures
            r == forall|i: int| 0 <= i < self@.len() ==> deadline_fits(#[trigger] self@[i]),
    {
        let n = self.tasks.len();
        let mut i: usize = 0;
        while i < n
            invariant
                n == self@.len(),
                i <= n,
                forall|j: int| 0 <= j < i ==> deadline_fits(#[trigger] self@[j]),
            decreases n - i,
        {
            if self.tasks[i].checked_deadline().is_none() {
                assert(!deadline_fits(self@[i as int]));
                return false;
            }
            i = i + 1;
        }
        true
    }

    /// Sorts the tasks stably by reported deadline (see `sorted_by_deadline`).
    pub fn sort_by_deadline(&mut self)
        requires
            old(self)@.len() >= 2 ==> forall|i: int|
                0 <= i < old(self)@.len() ==> deadline_fits(#[trigger] old(self)@[i]),
        ensures
            final(self)@ == sorted_by_deadline(old(self)@),
            deadline_ordered(final(self)@),
            forall|d: int|
                #[trigger] final(self)@.filter(reports_deadline(d)) == old(self)@.filter(
                    reports_deadline(d),
                ),
    {
        proof {
            if self@.len() >= 2 {
                assert forall|i: int| 0 <= i < self.tasks@.len() implies deadline_fits(
                    #[trigger] self.tasks@[i]@,
                ) by {
                    assert(self@[i] == self.tasks@[i]@);
                }
            }
        }
        sort_tasks_by_deadline(&mut self.tasks);
    }

    /// The position of the first task with identifier `task_id`, if any.
    pub fn index_of_id(&self, task_id: ID) -> (r: Option<usize>)
        ensures
            match r {
                Some(i) => first_with_id(self@, task_id) == Some(i as int) && i < self@.len()
                    && self@[i as int].id == task_id,
                None => first_with_id(self@, task_id) is None,
            },
    {
        let n = self.tasks.len();
        let mut i: usize = 0;
        while i < n
            invariant
                n == self@.len(),
                i <= n,
                forall|j: int| 0 <= j < i ==> #[trigger] self@[j].id != task_id,
            decreases n - i,
        {
            if self.tasks[i].id() == task_id {
                assert(self@[i as int].id == task_id);
                let ghost k = choose|k: int|
                    0 <= k < self@.len() && self@[k].id == task_id && forall|j: int|
                        0 <= j < k ==> #[trigger] self@[j].id != task_id;
                assert(k == i) by {
                    if k < i {
                        assert(self@[k].id != task_id);
                    }
                    if k > i {
                        assert(self@[i as int].id != task_id);
                    }
                }
                return Some(i);
            }
            i = i + 1;
        }
        None
    }

    /// Whether some task has identifier `task_id`.
    pub fn task_exists(&self, task_id: ID) -> (r: bool)
        ensures
            r == (exists|i: int| 0 <= i < self@.len() && #[trigger] self@[i].id == task_id),
    {
        let n = self.tasks.len();
        let mut i: usize = 0;
        while i < n
            invariant
                n == self@.len(),
                i <= n,
                forall|j: int| 0 <= j < i ==> #[trigger] self@[j].id != task_id,
            decreases n - i,
        {
            if self.tasks[i].id() == task_id {
                assert(self@[i as int].id == task_id);
                return true;
            }
            i = i + 1;
        }
        false
    }

    /// The sum of the worst-case execution times.
    fn wcet_total(&self) -> (r: TimeStep)
        requires
            wcet_sum_fits(self@),
        ensures
            r == wcet_sum(self@),
    {
        let n = self.tasks.len();
        let mut sum: TimeStep = 0;
        let mut i: usize = 0;
        while i < n
            invariant
                n == self@.len(),
                i <= n,
                wcet_sum_fits(self@),
                sum == wcet_sum(self@.take(i as int)),
            decreases n - i,
        {
            assert(self@.take(i + 1).drop_last() =~= self@.take(i as int));
            assert(fits(wcet_sum(self@.take(i + 1))));
            sum = sum + self.tasks[i].wcet();
            i = i + 1;
        }
        assert(self@.take(n as int) =~= self@);
        sum
    }

    /// The total work demanded by the tasks in a window of length `w`.
    fn demand_in(&self, w: TimeStep) -> (r: TimeStep)
        requires
            total_demand_defined(self@, w as int),
        ensures
            r == total_demand(self@, w as int),
    {
        let n = self.tasks.len();
        let mut sum: TimeStep = 0;
        let mut i: usize = 0;
        while i < n
            invariant
                n == self@.len(),
                i <= n,
                total_demand_defined(self@, w as int),
                sum == total_demand(self@.take(i as int), w as int),
            decreases n - i,
        {
            let t = &self.tasks[i];
            assert(demand_defined(self@[i as int], w as int));
            assert(self@.take(i + 1).drop_last() =~= self@.take(i as int));
            assert(fits(total_demand(self@.take(i + 1), w as int)));
            assert(t@ == self@[i as int]);
            let p = t.period();
            let ceiling_term = (w + p - 1) / p;
            assert(ceiling_term == trunc_div(w + p - 1, p as int));
            assert(ceiling_term * t@.wcet == demand(self@[i as int], w as int));
            assert(self@.take(i + 1).last() == self@[i as int]);
            assert(total_demand(self@.take(i + 1), w as int) == sum + demand(
                self@[i as int],
                w as int,
            ));
            sum = sum + ceiling_term * t.wcet();
            i = i + 1;
        }
        assert(self@.take(n as int) =~= self@);
        sum
    }

    /// The feasibility interval of the task set on one processor: the total work
    /// `w_0`, and the length of the first busy period, reached by iterating
    /// `w_(k+1) = sum of ceil(w_k / T_i) * C_i` from `w_0` until it stays the same.
    pub fn feasibility_interval_part(&self) -> (r: (TimeStep, TimeStep))
        requires
            exists|n: nat| busy_converges_at(self@, n),
        ensures
            r.0 == wcet_sum(self@),
            r.1 == busy_period(self@),
            busy_first_fixed(self@, busy_fixed_step(self@)),
    {
        let ghost n: nat = choose|n: nat| busy_converges_at(self@, n);
        let w_0 = self.wcet_total();
        let mut w_k = w_0;
        let ghost mut k: nat = 0;
        loop
            invariant
                busy_converges_at(self@, n),
                w_0 == wcet_sum(self@),
                k <= n,
                w_k == busy_window(self@, k),
                forall|j: nat| j < k ==> !#[trigger] busy_fixed(self@, j),
            decreases n - k,
        {
            assert(total_demand_defined(self@, busy_window(self@, k)));
            let w_k_next = self.demand_in(w_k);
            if w_k_next == w_k {
                assert(busy_first_fixed(self@, k));
                proof {
                    lemma_busy_first_fixed_unique(self@, k);
                }
                return (w_0, w_k);
            }
            proof {
                assert(!busy_fixed(self@, k));
                assert(k != n);
                assert(busy_window(self@, k + 1) == w_k_next);
                k = k + 1;
            }
            w_k = w_k_next;
        }
    }

    /// The largest offset of a non-empty task set.
    fn max_offset_exec(&self) -> (r: TimeStep)
        requires
            self@.len() > 0,
        ensures
            r == max_offset(self@),
    {
        let n = self.tasks.len();
        let mut m = self.tasks[0].offset();
        let mut i: usize = 1;
        while i < n
            invariant
                n == self@.len(),
                1 <= i <= n,
                m == max_offset(self@.take(i as int)),
            decreases n - i,
        {
            assert(self@.take(i + 1).drop_last() =~= self@.take(i as int));
            let o = self.tasks[i].offset();
            if o >= m {
                m = o;
            }
            i = i + 1;
        }
        assert(self@.take(n as int) =~= self@);
        m
    }

    /// The periods the tasks report, in order.
    pub(crate) fn periods(&self) -> (r: Vec<TimeStep>)
        requires
            all_periods_fit(self@),
        ensures
            r@ == reported_periods(self@),
    {
        let n = self.tasks.len();
        let mut v: Vec<TimeStep> = Vec::new();
        let mut i: usize = 0;
        while i < n
            invariant
                n == self@.len(),
                i <= n,
                all_periods_fit(self@),
                v@ == reported_periods(self@.take(i as int)),
            decreases n - i,
        {
            assert(period_fits(self@[i as int]));
            v.push(self.tasks[i].period());
            assert(v@ =~= reported_periods(self@.take(i + 1)));
            i = i + 1;
        }
        assert(self@.take(n as int) =~= self@);
        v
    }

    /// Whether every task's reported period fits in a `TimeStep`.
    pub fn periods_fit(&self) -> (r: bool)
        ensures
            r == all_periods_fit(self@),
    {
        let n = self.tasks.len();
        let mut i: usize = 0;
        while i < n
            invariant
                n == self@.len(),
                i <= n,
                forall|j: int| 0 <= j < i ==> period_fits(#[trigger] self@[j]),
            decreases n - i,
        {
            if self.tasks[i].checked_period().is_none() {
                assert(!period_fits(self@[i as int]));
                return false;
            }
            i = i + 1;
        }
        true
    }

    /// The global feasibility interval as `feasibility_interval_global` gives it, when
    /// there is a task and the computation stays within `TimeStep`; `None` otherwise.
    pub fn checked_feasibility_interval_global(&self) -> (r: Option<(TimeStep, TimeStep)>)
        ensures
            r is Some <==> (self@.len() > 0 && all_periods_fit(self@) && lcm_fold_defined(
                reported_periods(self@),
            ) && fits(2 * lcm_fold(reported_periods(self@))) && fits(global_interval_end(self@))),
            r is Some ==> r->0 == (0isize, global_interval_end(self@) as TimeStep),
    {
        if self.tasks.len() == 0 {
            return None;
        }
        if !self.periods_fit() {
            return None;
        }
        let o_max = self.max_offset_exec();
        let vec_period = self.periods();
        let p = match checked_multiple_lcm(&vec_period) {
            Some(p) => p,
            None => {
                return None;
            },
        };
        let two_p = match p.checked_mul(2) {
            Some(v) => v,
            None => {
                return None;
            },
        };
        match o_max.checked_add(two_p) {
            Some(end) => Some((0, end)),
            None => None,
        }
    }

    /// The global feasibility interval `[0, O_max + 2 P)`, with `O_max` the largest
    /// offset and `P` the least common multiple of the reported periods.
    pub fn feasibility_interval_global(&self) -> (r: (TimeStep, TimeStep))
        requires
            self@.len() > 0,
            all_periods_fit(self@),
            lcm_fold_defined(reported_periods(self@)),
            fits(2 * lcm_fold(reported_periods(self@))),
            fits(global_interval_end(self@)),
        ensures
            r == (0isize, global_interval_end(self@) as TimeStep),
            forall|i: int|
                0 <= i < self@.len() ==> #[trigger] self@[i].offset <= r.1 - 2 * lcm_fold(
                    reported_periods(self@),
                ),
            exists|i: int|
                0 <= i < self@.len() && #[trigger] self@[i].offset == r.1 - 2 * lcm_fold(
                    reported_periods(self@),
                ),
    {
        proof {
            lemma_max_offset_is_largest(self@);
        }
        let o_max = self.max_offset_exec();
        let vec_period = self.periods();
        let p = multiple_lcm(vec_period);
        (0, o_max + (2 * p))
    }
}

} // verus!
