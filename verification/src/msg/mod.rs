//! The message types that nodes publish and receive.

pub mod history;
pub mod single;
pub mod stream;
