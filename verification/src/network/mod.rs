//! The wire side of the node: hosts, method discriminants and messages.

pub mod host;
pub mod message;
pub mod method;
