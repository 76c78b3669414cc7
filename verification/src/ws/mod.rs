//! The WebSocket side: frames, batches, requests and replies.

pub mod args;
pub mod auth;
pub mod batch;
pub mod connection;
pub mod dispatch;
pub mod frame;
pub mod meaning;
pub mod stats;
pub mod task;
pub mod tracker;
