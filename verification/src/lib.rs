//! The verified core of a manager for `cpulimit`: rules, records, the agent that applies the rules,
//! and the texts that it shows. Reading, writing and running commands are left to the program
//! around it; the operations here ask for them, one at a time, and go on by the replies.

pub mod app;
pub mod cli;
pub mod clock;
pub mod clock_laws;
pub mod cpu;
pub mod cpu_laws;
pub mod infra;
pub mod lists;
pub mod model;
pub mod path_laws;
pub mod paths;
pub mod progress;
pub mod store;
pub mod text;
pub mod text_laws;
