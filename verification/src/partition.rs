use vstd::prelude::*;

use crate::task::TaskView;
use crate::taskset::TaskSet;
use vstd::std_specs::iter::IteratorSpec;

verus! {

/// The task sets of a partition, one per processor, by their abstract states.
pub open spec fn partition_views(s: Seq<TaskSet>) -> Seq<Seq<TaskView>> {
    s.map_values(|t: TaskSet| t@)
}


/// `std::slice::IterMut`, the iterator that hands out each element of a slice for change.
#[verifier::external_type_specification]
#[verifier::external_body]
#[verifier::reject_recursive_types(T)]
pub struct ExIterMut<'a, T: 'a>(std::slice::IterMut<'a, T>);

/// The task sets that a `std::slice::IterMut` over task sets has yet to hand out, in
/// order, by their states when it was made.
pub uninterp spec fn iter_mut_items(it: std::slice::IterMut<'_, TaskSet>) -> Seq<Seq<TaskView>>;

/// Calls `slice::iter_mut` on the vector of task sets. The contract claims that the
/// iterator has every task set of the vector to hand out, in order (its items are the
/// vector's elements, front to back), and that through it the elements can change but
/// not their number. What the elements become is left unsaid.
#[verifier::external_body]
fn vec_iter_mut(v: &mut Vec<TaskSet>) -> (r: std::slice::IterMut<'_, TaskSet>)
    ensures
        iter_mut_items(r) == partition_views(old(v)@),
        final(v)@.len() == old(v)@.len(),
{
    v.iter_mut()
}

/// Task sets distributed over processors, one per processor.
#[derive(Debug)]
pub struct Partition {
    partition: Vec<TaskSet>,
}

impl View for Partition {
    type V = Seq<Seq<TaskView>>;

    closed spec fn view(&self) -> Seq<Seq<TaskView>> {
        partition_views(self.partition@)
    }
}

/// The task set of processor `index`, which must exist.
impl std::ops::Index<usize> for Partition {
    type Output = TaskSet;

    fn index(&self, index: usize) -> (r: &TaskSet)
        ensures
            r@ == self@[index as int],
    {
        &self.partition[index]
    }
}

/// Indexing a partition needs a processor that exists.
impl vstd::std_specs::core::IndexSpecImpl<usize> for Partition {
    open spec fn index_req(&self, index: &usize) -> bool {
        *index < self@.len()
    }
}

impl Partition {
    /// A partition of `processor_number` empty task sets.
    pub fn new(processor_number: usize) -> (r: Self)
        ensures
            r@.len() == processor_number,
            forall|i: int| 0 <= i < processor_number ==> #[trigger] r@[i] == Seq::<TaskView>::empty(),
    {
        let mut partition: Vec<TaskSet> = Vec::new();
        let mut i: usize = 0;
        while i < processor_number
            invariant
                i <= processor_number,
                partition@.len() == i,
                forall|j: int| 0 <= j < i ==> #[trigger] partition@[j]@ == Seq::<TaskView>::empty(),
            decreases processor_number - i,
        {
            partition.push(TaskSet::new_empty());
            i = i + 1;
        }
        Self { partition }
    }

    /// The task set of processor `index`; `None` when the index is out of bounds.
    pub fn get_mut(&mut self, index: usize) -> (r: Option<&mut TaskSet>)
        ensures
            index < old(self)@.len() ==> r is Some && (*r->0)@
                == old(self)@[index as int] && final(self)@ == old(self)@.update(
                index as int,
                (*final(r->0))@,
            ),
            index >= old(self)@.len() ==> r is None && final(self)@
                == old(self)@,
    {
        if index >= self.partition.len() {
            return None;
        }
        Some(&mut self.partition[index])
    }

    /// The task set of processor `index`; `None` when the index is out of bounds.
    pub fn get(&self, index: usize) -> (r: Option<&TaskSet>)
        ensures
            index < self@.len() ==> r is Some && r->0@ == self@[index as int],
            index >= self@.len() ==> r is None,
    {
        if index >= self.partition.len() {
            return None;
        }
        Some(&self.partition[index])
    }

    /// The number of processors.
    pub fn processor_number(&self) -> (r: usize)
        ensures
            r == self@.len(),
    {
        self.partition.len()
    }

    /// An iterator that hands out each task set for change, in processor order; the
    /// partition keeps its number of processors.
    pub fn iter_mut(&mut self) -> (r: std::slice::IterMut<'_, TaskSet>)
        ensures
            iter_mut_items(r) == old(self)@,
            final(self)@.len() == old(self)@.len(),
    {
        vec_iter_mut(&mut self.partition)
    }

    /// An iterator over the task sets, in processor order.
    pub fn iter(&self) -> (r: std::slice::Iter<'_, TaskSet>)
        ensures
            partition_views(r.remaining().unref()) == self@,
    {
        self.partition.iter()
    }
}

} // verus!
