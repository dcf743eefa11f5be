//! A provider of language models that speaks the Responses protocol.

pub mod headers;
pub mod input;
pub mod provider;
pub mod stream;
pub mod types;
