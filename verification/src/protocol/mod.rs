//! The tracker's HTTP protocol.

pub mod tcp;
