//! The tool by which the wiki is synchronized and queried.

pub mod answers;
pub mod error;
pub mod file_path;
pub mod history;
pub mod listing;
pub mod params;
pub mod records;
pub mod root;
pub mod sync;
pub mod tool;
