use std::collections::HashMap;
use vstd::prelude::*;

use crate::constants::ID;
use crate::migrations::{can_count, count_migration, counted, total_count, total_migrations};

verus! {

/// The abstract state of a worker: its identifier and how often each task migrated.
pub struct WorkerView {
    pub id: ID,
    pub migrations: Map<ID, usize>,
}

/// A worker that counts, per task, the migrations it has seen.
#[derive(Debug)]
pub struct Worker {
    id: ID,
    map_task: HashMap<ID, usize>,
}

impl View for Worker {
    type V = WorkerView;

    closed spec fn view(&self) -> WorkerView {
        WorkerView { id: self.id, migrations: self.map_task@ }
    }
}

impl Worker {
    pub fn new(id: ID, map_task: HashMap<ID, usize>) -> (r: Self)
        ensures
            r@ == (WorkerView { id, migrations: map_task@ }),
    {
        Self { id, map_task }
    }

    /// Counts one more migration of `task_id`, starting from one when it has none.
    pub fn migrate(&mut self, task_id: ID)
        requires
            can_count(old(self)@.migrations, task_id),
        ensures
            final(self)@ == (WorkerView {
                id: old(self)@.id,
                migrations: counted(old(self)@.migrations, task_id),
            }),
    {
        count_migration(&mut self.map_task, task_id);
    }

    /// The number of migrations counted over all tasks.
    pub fn get_migrations(&self) -> (r: usize)
        requires
            total_count(self@.migrations) <= usize::MAX,
        ensures
            r == total_count(self@.migrations),
    {
        total_migrations(&self.map_task)
    }

    pub fn id(&self) -> (r: ID)
        ensures
            r == self@.id,
    {
        self.id
    }
}

} // verus!
