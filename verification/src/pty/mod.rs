//! Terminal sessions: what is retained of their output, how it reaches a
//! subscriber, and which sessions are kept.

pub mod events;
pub mod manager;
pub mod session;
pub mod spawn;
pub mod stream;
