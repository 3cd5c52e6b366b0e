//! What the command line accepts and shows.

pub mod cli_laws;
pub mod output;
pub mod run;
pub mod session;
pub mod session_laws;
pub mod status;
pub mod top;
pub mod validate;
pub mod watches;
