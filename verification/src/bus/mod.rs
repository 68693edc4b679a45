//! The event bus: a serial dispatcher and the sources that feed it.

pub mod dispatcher;
pub mod event;
pub mod http_source;
