//! Verified core of an LLM agent harness: message model, session tree,
//! context building, compaction planning, skills and prompt templates,
//! tool output formatting, settings and the agent-loop decision logic.
pub mod types;
pub mod text;
pub mod errors;
pub mod session;
pub mod store;
pub mod tree;
pub mod branch_laws;
pub mod chars;
pub mod skills;
pub mod compaction;
pub mod tools;
pub mod settings;
pub mod events;
pub mod stream;
pub mod agent_loop;
pub mod repo;
pub mod turn;
pub mod agent;
pub mod harness;
pub mod prompt;
pub mod context;
pub mod convert;
pub mod cli;
