use vstd::prelude::*;

use crate::task::{deadline_fits, task_deadline, task_views, Task, TaskView};

verus! {

/// The tasks with `t` inserted after the last task, from the end, whose reported
/// deadline is at most that of `t`.
pub open spec fn insert_by_deadline(s: Seq<TaskView>, t: TaskView) -> Seq<TaskView>
    decreases s.len(),
{
    if s.len() == 0 {
        seq![t]
    } else if task_deadline(s.last()) <= task_deadline(t) {
        s.push(t)
    } else {
        insert_by_deadline(s.drop_last(), t).push(s.last())
    }
}

/// The tasks stably sorted by reported deadline: each task in turn is inserted after
/// the tasks before it with a reported deadline at most its own.
pub open spec fn sorted_by_deadline(s: Seq<TaskView>) -> Seq<TaskView>
    decreases s.len(),
{
    if s.len() == 0 {
        s
    } else {
        insert_by_deadline(sorted_by_deadline(s.drop_last()), s.last())
    }
}

/// The reported deadlines never decrease along the tasks.
pub open spec fn deadline_ordered(s: Seq<TaskView>) -> bool {
    forall|i: int, j: int|
        0 <= i <= j < s.len() ==> task_deadline(#[trigger] s[i]) <= task_deadline(#[trigger] s[j])
}

/// Whether a task reports deadline `d`.
pub open spec fn reports_deadline(d: int) -> spec_fn(TaskView) -> bool {
    |t: TaskView| task_deadline(t) == d
}

/// Inserting a task adds one element, keeps the order of the deadlines, and keeps the
/// tasks of each deadline in order with the new task after the others of its deadline.
proof fn lemma_insert_by_deadline(s: Seq<TaskView>, t: TaskView)
    requires
        deadline_ordered(s),
    ensures
        insert_by_deadline(s, t).len() == s.len() + 1,
        deadline_ordered(insert_by_deadline(s, t)),
        forall|d: int|
            #[trigger] insert_by_deadline(s, t).filter(reports_deadline(d)) == s.push(t).filter(
                reports_deadline(d),
            ),
    decreases s.len(),
{
    if s.len() == 0 {
        assert(insert_by_deadline(s, t) =~= s.push(t));
    } else if task_deadline(s.last()) <= task_deadline(t) {
    } else {
        let rest = s.drop_last();
        let last = s.last();
        assert(deadline_ordered(rest));
        lemma_insert_by_deadline(rest, t);
        let ins = insert_by_deadline(rest, t);
        let r = ins.push(last);
        assert(r == insert_by_deadline(s, t));
        assert forall|i: int, j: int| 0 <= i <= j < r.len() implies task_deadline(#[trigger] r[i])
            <= task_deadline(#[trigger] r[j]) by {
            if j == r.len() - 1 && i < j {
                assert(ins[i] == r[i]);
                assert(ins.contains(ins[i]));
                assert(rest.push(last) == s);
                lemma_insert_member_bound(rest, t, ins[i], last);
            }
        }
        assert forall|d: int| #[trigger] r.filter(reports_deadline(d)) == s.push(t).filter(
            reports_deadline(d),
        ) by {
            ins.lemma_filter_push(last, reports_deadline(d));
            s.lemma_filter_push(t, reports_deadline(d));
            rest.lemma_filter_push(last, reports_deadline(d));
            rest.lemma_filter_push(t, reports_deadline(d));
            assert(rest.push(last) == s);
            assert(ins.filter(reports_deadline(d)) == rest.push(t).filter(reports_deadline(d)));
            if task_deadline(last) == d {
                assert(task_deadline(t) != d);
            }
        }
    }
}

/// Every task of `insert_by_deadline(s, t)` reports a deadline at most that of `last`,
/// when both `t` and the tasks of `s` do.
proof fn lemma_insert_member_bound(s: Seq<TaskView>, t: TaskView, x: TaskView, last: TaskView)
    requires
        deadline_ordered(s.push(last)),
        task_deadline(t) < task_deadline(last),
        insert_by_deadline(s, t).contains(x),
    ensures
        task_deadline(x) <= task_deadline(last),
    decreases s.len(),
{
    let ins = insert_by_deadline(s, t);
    let i = choose|i: int| 0 <= i < ins.len() && ins[i] == x;
    if s.len() == 0 {
        assert(ins == seq![t]);
    } else if task_deadline(s.last()) <= task_deadline(t) {
        assert(ins == s.push(t));
        if i < s.len() {
            assert(s.push(last)[i] == s[i]);
            assert(s.push(last)[s.len() as int] == last);
        }
    } else {
        let rest = s.drop_last();
        let inner = insert_by_deadline(rest, t);
        assert(ins == inner.push(s.last()));
        assert(s.push(last)[s.len() - 1] == s.last());
        assert(s.push(last)[s.len() as int] == last);
        if i < inner.len() {
            assert(inner[i] == x);
            assert(inner.contains(x));
            assert forall|a: int, b: int| 0 <= a <= b < rest.push(last).len() implies task_deadline(
                #[trigger] rest.push(last)[a],
            ) <= task_deadline(#[trigger] rest.push(last)[b]) by {
                if b == rest.len() {
                    assert(rest.push(last)[b] == s.push(last)[s.len() as int]);
                } else {
                    assert(rest.push(last)[b] == s.push(last)[b]);
                }
                if a < rest.len() {
                    assert(rest.push(last)[a] == s.push(last)[a]);
                    assert(s.push(last)[a] == s[a]);
                    assert(task_deadline(s[a]) <= task_deadline(s.push(last)[s.len() as int]));
                }
            }
            lemma_insert_member_bound(rest, t, x, last);
        }
    }
}

/// The tasks stably sorted by reported deadline are as many as before, their reported
/// deadlines never decrease, and the tasks of each deadline keep their order.
pub proof fn lemma_sorted_by_deadline(s: Seq<TaskView>)
    ensures
        sorted_by_deadline(s).len() == s.len(),
        deadline_ordered(sorted_by_deadline(s)),
        forall|d: int|
            #[trigger] sorted_by_deadline(s).filter(reports_deadline(d)) == s.filter(
                reports_deadline(d),
            ),
    decreases s.len(),
{
    if s.len() > 0 {
        let rest = s.drop_last();
        lemma_sorted_by_deadline(rest);
        lemma_insert_by_deadline(sorted_by_deadline(rest), s.last());
        assert forall|d: int| #[trigger]
            sorted_by_deadline(s).filter(reports_deadline(d)) == s.filter(reports_deadline(d)) by {
            sorted_by_deadline(rest).lemma_filter_push(s.last(), reports_deadline(d));
            rest.lemma_filter_push(s.last(), reports_deadline(d));
            assert(rest.push(s.last()) == s);
        }
    }
}

/// `insert_by_deadline(s, t)` places `t` at position `j` when the tasks from `j` on
/// report later deadlines than `t` and the one before `j`, if any, does not.
proof fn lemma_insert_at(s: Seq<TaskView>, t: TaskView, j: int)
    requires
        0 <= j <= s.len(),
        forall|i: int| j <= i < s.len() ==> task_deadline(#[trigger] s[i]) > task_deadline(t),
        j > 0 ==> task_deadline(s[j - 1]) <= task_deadline(t),
    ensures
        insert_by_deadline(s, t) == s.insert(j, t),
    decreases s.len(),
{
    if s.len() == 0 {
        assert(s.insert(j, t) =~= seq![t]);
    } else if task_deadline(s.last()) <= task_deadline(t) {
        assert(j == s.len());
        assert(s.insert(j, t) =~= s.push(t));
    } else {
        let rest = s.drop_last();
        lemma_insert_at(rest, t, j);
        assert(s.insert(j, t) =~= rest.insert(j, t).push(s.last()));
    }
}

/// Sorts the tasks stably by reported deadline (see `sorted_by_deadline`).
pub fn sort_tasks_by_deadline(tasks: &mut Vec<Task>)
    requires
        old(tasks)@.len() >= 2 ==> forall|i: int|
            0 <= i < old(tasks)@.len() ==> deadline_fits(#[trigger] old(tasks)@[i]@),
    ensures
        task_views(final(tasks)@) == sorted_by_deadline(task_views(old(tasks)@)),
        deadline_ordered(task_views(final(tasks)@)),
        forall|d: int|
            #[trigger] task_views(final(tasks)@).filter(reports_deadline(d)) == task_views(
                old(tasks)@,
            ).filter(reports_deadline(d)),
{
    let ghost orig = task_views(tasks@);
    proof {
        lemma_sorted_by_deadline(orig);
    }
    let n = tasks.len();
    if n < 2 {
        proof {
            if n == 1 {
                assert(orig.drop_last() =~= Seq::<TaskView>::empty());
                assert(sorted_by_deadline(orig.drop_last()) =~= Seq::<TaskView>::empty());
                assert(sorted_by_deadline(orig) == insert_by_deadline(Seq::empty(), orig.last()));
                assert(sorted_by_deadline(orig) =~= orig);
            } else {
                assert(orig =~= Seq::<TaskView>::empty());
            }
        }
        return;
    }
    let mut sorted: Vec<Task> = Vec::new();
    let mut i: usize = 0;
    assert(orig.take(0) =~= Seq::<TaskView>::empty());
    while i < n
        invariant
            n == orig.len(),
            n == tasks@.len(),
            orig == task_views(tasks@),
            forall|k: int| 0 <= k < n ==> deadline_fits(#[trigger] tasks@[k]@),
            i <= n,
            task_views(sorted@) == sorted_by_deadline(orig.take(i as int)),
            forall|k: int| 0 <= k < sorted@.len() ==> deadline_fits(#[trigger] sorted@[k]@),
        decreases n - i,
    {
        let t = tasks[i];
        assert(t@ == orig[i as int]);
        let key = t.deadline();
        let ghost sv = task_views(sorted@);
        proof {
            lemma_sorted_by_deadline(orig.take(i as int));
        }
        let mut j: usize = sorted.len();
        while j > 0 && sorted[j - 1].deadline() > key
            invariant
                j <= sorted@.len(),
                sv == task_views(sorted@),
                key == task_deadline(t@),
                forall|k: int| 0 <= k < sorted@.len() ==> deadline_fits(#[trigger] sorted@[k]@),
                forall|k: int| j <= k < sv.len() ==> task_deadline(#[trigger] sv[k]) > key,
            decreases j,
        {
            assert(sv[j - 1] == sorted@[j - 1]@);
            j = j - 1;
        }
        proof {
            if j > 0 {
                assert(sv[j - 1] == sorted@[j - 1]@);
            }
            lemma_insert_at(sv, t@, j as int);
        }
        sorted.insert(j, t);
        assert(task_views(sorted@) =~= sv.insert(j as int, t@));
        assert(orig.take(i + 1).drop_last() =~= orig.take(i as int));
        assert(orig.take(i + 1).last() == t@);
        i = i + 1;
    }
    assert(orig.take(n as int) =~= orig);
    *tasks = sorted;
}

} // verus!
