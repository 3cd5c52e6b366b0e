//! What the operating system is asked and how its answers are read.

pub mod agent_job;
pub mod command;
pub mod config;
pub mod cpulimit;
pub mod job_laws;
pub mod jobs;
pub mod labels;
pub mod launchd;
pub mod process_snapshot;
pub mod runtime;
pub mod setup_laws;
pub mod snapshot_laws;
pub mod system_laws;
