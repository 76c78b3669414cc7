//! Files and directories.

pub mod archive;
pub mod manager;
pub mod ops;
pub mod search;
pub mod tree;
pub mod walk;
