//! The endpoint files: one markdown file per operation, grouped by category.

pub mod params;
pub mod headers;
pub mod links;
pub mod info;
pub mod body;
pub mod refs;
pub mod render;
pub mod writer;
