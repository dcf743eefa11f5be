//! Setup sessions for channels that are connected step by step.

pub mod address;
pub mod ilink_qr;
pub mod session;
pub mod types;
