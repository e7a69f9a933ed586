//! Message types, telemetry context and topic bookkeeping of a small
//! publish/subscribe robotics framework, with their behaviour proved.

pub mod args;
pub mod assoc;
pub mod bridge;
pub mod channel;
pub mod decimal;
pub mod handlers;
pub mod msg;
pub mod node;
