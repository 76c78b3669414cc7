//! Chats with a coding agent.

pub mod agents;
pub mod attachments;
pub mod turn;
