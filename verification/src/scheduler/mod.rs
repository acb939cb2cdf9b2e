pub mod edf_scheduler;
pub mod processor;
pub mod global_queue;
pub mod dm_scheduler;
pub mod edf_k_scheduler;
pub mod global_scheduler;
pub mod global_step;
pub mod partition_scheduler;
pub mod scheduler;
pub mod rr_scheduler;
pub mod edf_global;
pub mod edf_k;
