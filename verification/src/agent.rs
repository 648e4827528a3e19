//! The agent.

pub mod agent_loop;
pub mod budget;
pub mod cache;
pub mod confirmation;
pub mod executor;
pub mod json;
pub mod metrics;
pub mod orchestrator;
pub mod prompt_optimizer;
pub mod protocol;
pub mod response;
pub mod scenario;
pub mod service;
pub mod session;
pub mod sources;
pub mod state;
pub mod tool;
pub mod tools;
pub mod trace;
pub mod types;
