//! The storage engine that the peer registry is kept in: its contract, the
//! order of its keys, and a backend that lives in memory.

pub mod common;
pub mod keys;
pub mod memory;
