//! A business knowledge wiki kept in Markdown. The Markdown is what people
//! edit; the records made from it can always be made again.

pub mod chunks;
pub mod context;
pub mod frontmatter;
pub mod paths;
pub mod relations;
pub mod store;
pub mod types;
