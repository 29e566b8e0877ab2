//! The messages that nodes exchange, each with its check and its codec.

pub mod data;
pub mod error;
