//! The operations: watching, limiting, cleaning up, and the agent that applies the rules.

pub mod agent;
pub mod agent_laws;
pub mod clean;
pub mod clean_laws;
pub mod conflict;
pub mod dialogue;
pub mod endings;
pub mod limit;
pub mod limiter_laws;
pub mod limiters;
pub mod message_laws;
pub mod plan;
pub mod record_laws;
pub mod service;
pub mod service_laws;
pub mod start_laws;
pub mod survey;
pub mod survey_laws;
pub mod tick;
pub mod tick_history;
pub mod tick_laws;
pub mod unwatch;
pub mod unwatch_laws;
pub mod watch;
pub mod watch_laws;
