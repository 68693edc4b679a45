//! The core of an agent-block host: the rules behind the Lua bridges, the
//! event bus, the embedded packages and the run's configuration.

pub mod bridge;
pub mod bus;
pub mod calendar;
pub mod embedded;
pub mod host;
pub mod json;
pub mod paths;
pub mod table;
pub mod text;
