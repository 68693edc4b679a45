//! The bridges a block script reaches the host through.

pub mod config;
pub mod fs;
pub mod http;
pub mod knl;
pub mod llm;
pub mod repair;
pub mod sh;
pub mod tools;
pub mod ts;
