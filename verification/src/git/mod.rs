//! What is done with git.

pub mod log;
pub mod plan;
pub mod query;
pub mod run;
pub mod status;
