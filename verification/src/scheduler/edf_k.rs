use vstd::prelude::*;

verus! {

/// EDF(k) over a number of workers.
pub struct EDFK {
    num_workers: usize,
}

impl EDFK {
    pub fn new(num_workers: usize) -> (r: Self)
        ensures
            r.workers() == num_workers,
    {
        Self { num_workers }
    }

    pub closed spec fn workers(&self) -> usize {
        self.num_workers
    }
}

} // verus!
