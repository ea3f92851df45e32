//! A conversational agent runtime: a failover pool of interchangeable LLM
//! providers with per-provider credential rotation, and the turn loop that
//! drives a tool-using dialogue against that pool.
//!
//! Network calls, process spawning and the chat-platform adapter live outside
//! this crate; the modules here hold the data model, the failure-handling
//! policy and the text processing, each with a verified contract.

pub mod agent;
pub mod config;
pub mod console;
pub mod format;
pub mod mail;
pub mod messages;
pub mod planning;
pub mod pool;
pub mod prompt;
pub mod rotation;
pub mod sheets;
pub mod system;
pub mod text;
pub mod web;

pub use agent::AgentLoop;
pub use pool::ProviderPool;
pub use rotation::KeyPool;
