//! The surface a kernel session has in Lua: what its calls take and answer,
//! how their arguments are checked, and how failures are told.

pub mod errors;
pub mod options;
pub mod schema;
pub mod session;
pub mod surface;
pub mod types;
