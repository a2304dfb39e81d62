//! Agent runtime: planning, roles, scheduling, sessions and tools.

pub mod audit;
pub mod backend;
pub mod capability;
pub mod clock;
pub mod context;
pub mod error;
pub mod handoff;
pub mod ids;
pub mod json;
pub mod llm;
pub mod persistent;
pub mod plan;
pub mod process;
pub mod registry;
pub mod scheduler;
pub mod services;
pub mod session;
pub mod supervisor;
pub mod table;
pub mod text;
pub mod text_laws;
pub mod tools;
pub mod types;
