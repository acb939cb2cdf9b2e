use vstd::prelude::*;

verus! {

/// Global EDF with migrations of the `m` highest-priority jobs onto the `m` workers
/// (migration time neglected).
pub struct EDFGlobal {
    num_workers: usize,
}

impl EDFGlobal {
    pub fn new(num_workers: usize) -> (r: Self)
        ensures
            r.workers() == num_workers,
    {
        Self { num_workers }
    }

    pub closed spec fn workers(&self) -> usize {
        self.num_workers
    }
}

} // verus!
