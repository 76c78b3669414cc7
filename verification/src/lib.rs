//! The logic of the NoIDE server.

pub mod agent_servers;
pub mod base64;
pub mod chat;
pub mod cli;
pub mod columns;
pub mod files;
pub mod git;
pub mod json;
pub mod order;
pub mod pairing;
pub mod path;
pub mod process;
pub mod pty;
pub mod requests;
pub mod text;
pub mod textmap;
pub mod tunnel;
pub mod vault;
pub mod ws;
