//! A knowledge wiki kept in Markdown with the tool that indexes it, setup
//! sessions for channels, and a provider of language models.
//!
//! What is decided stands here, with what it decides stated and proved; reading
//! files, asking servers and storing records is left to whoever uses it. It is
//! for Unix: paths of the file system follow its rules.

pub mod bytes;
pub mod channel_sessions;
pub mod digest;
pub mod json;
pub mod json_keys;
pub mod json_text;
pub mod knowledge_wiki;
pub mod numerals;
pub mod openai_responses;
pub mod text;
pub mod timestamp;
pub mod wiki_tool;
