//! Job control for an interactive shell: the job table, the command-line
//! compiler and the decisions of the launcher, the reaper and the wait
//! protocol.

pub mod builtin;
pub mod compile;
pub mod job;
pub mod job_laws;
pub mod launch;
pub mod reaper;
pub mod shell;
pub mod store;
pub mod text;
pub mod token;
pub mod wait;
