//! What nodes share: the message and metric traits, trace context carriers
//! and the configuration of their sessions.

pub mod common;
pub mod session;
