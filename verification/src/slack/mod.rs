//! Slack payloads and what the client derives from them.

pub mod types;
pub mod blocks;
pub mod http;
pub mod socket;
pub mod files;
pub mod download;
