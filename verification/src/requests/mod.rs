//! Saved HTTP requests.

pub mod collections;
pub mod export;
pub mod import;
pub mod openapi;
pub mod restore;
