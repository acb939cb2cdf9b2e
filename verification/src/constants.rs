use vstd::prelude::*;

verus! {

/// A point in time, or a length of time, counted in simulation steps.
pub type TimeStep = isize;

/// An identifier of a task, a job or a core; also used as an index.
pub type ID = usize;

/// What a core reports after simulating one time step.
#[derive(PartialEq, Eq, Structural, Debug, Clone, Copy)]
pub enum CoreValue {
    Running,
    Complete,
    Missed,
}

/// The verdict on a task set; `code` gives the number the program exits with.
#[derive(PartialEq, Eq, Structural, Debug, Clone, Copy)]
pub enum SchedulingCode {
    SchedulableSimulated,
    SchedulableShortcut,
    UnschedulableSimulated,
    UnschedulableShortcut,
    CannotTell,
}

/// The exit code of a verdict.
pub open spec fn spec_code(c: SchedulingCode) -> i32 {
    match c {
        SchedulingCode::SchedulableSimulated => 0,
        SchedulingCode::SchedulableShortcut => 1,
        SchedulingCode::UnschedulableSimulated => 2,
        SchedulingCode::UnschedulableShortcut => 3,
        SchedulingCode::CannotTell => 4,
    }
}

impl SchedulingCode {
    /// The number the program exits with for this verdict.
    pub fn code(&self) -> (r: i32)
        ensures
            r == spec_code(*self),
    {
        match self {
            SchedulingCode::SchedulableSimulated => 0,
            SchedulingCode::SchedulableShortcut => 1,
            SchedulingCode::UnschedulableSimulated => 2,
            SchedulingCode::UnschedulableShortcut => 3,
            SchedulingCode::CannotTell => 4,
        }
    }
}

/// The scheduling policy to check a task set against.
#[derive(PartialEq, Eq, Structural, Debug, Clone, Copy)]
pub enum Version {
    Global,
    Partitioned,
    EDFk(usize),
    GlobalDM,
}

/// The bin-packing heuristic that places tasks on cores in partitioned scheduling.
#[derive(PartialEq, Eq, Structural, Debug, Clone, Copy)]
pub enum Heuristic {
    FirstFit,
    NextFit,
    BestFit,
    WorstFit,
}

/// The order in which tasks are placed in partitioned scheduling.
#[derive(PartialEq, Eq, Structural, Debug, Clone, Copy)]
pub enum Sorting {
    IncreasingUtilization,
    DecreasingUtilization,
}

} // verus!
