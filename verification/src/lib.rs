//! Verified core of a node bridge: the decisions, message formats and
//! encodings that the bridge daemon applies between its blackboard, its local
//! inbox/outbox directories and the commands it runs.

pub mod actions;
pub mod base64;
pub mod bb;
pub mod clock;
pub mod config;
pub mod exec;
pub mod json;
pub mod listing;
pub mod llm;
pub mod logger;
pub mod node;
pub mod signature;
pub mod text;
