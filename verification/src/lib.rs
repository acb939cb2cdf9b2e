pub mod constants;
pub mod core_model;
pub mod deadline_order;
pub mod errors;
pub mod job;
pub mod lcm;
pub mod migrations;
pub mod partition;
pub mod scheduler;
pub mod task;
pub mod taskfile;
pub mod taskset;
pub mod worker;

pub use constants::{CoreValue, Heuristic, SchedulingCode, Sorting, TimeStep, Version, ID};
pub use job::Job;
pub use lcm::multiple_lcm;
pub use partition::Partition;
pub use scheduler::processor::Core;
pub use task::Task;
pub use taskset::TaskSet;
pub use worker::Worker;
